# alias_sema

Static semantics of a small language whose values are owned, lent and moved. The library finds
the types of expressions, turns a typed program into a resolved program tree, settles who owns
and who borrows each value, and checks that every fact in the tree agrees with the rule it stands
for. All of it is verified with Verus: each function says what it returns on every input, and the
diagnostics are part of what is said.

## Layout

Types and trees

- `types`, `diagnostics`: types, identities and diagnostics.
- `ast`: the program as it was written, with numbered nodes.
- `model`: the resolved program tree; `tree` is its mathematical value.
- `visit`: one walk over the tree that the passes share; `marks` writes facts into it.

From the written program to the tree

- `literals`, `operators`, `match_rules`, `typed`, `typing`, `pointers`, `declarations`: the types of
  expressions, patterns and declarations. `checker_state` holds what a check rests on and notes.
- `facts`, `builders`, `lowered`, `lower`, `lower_program`: the tree, built from the noted facts, each
  of which is used exactly once.

Ownership

- `value_categories`, `ownership_capabilities`, `storage_relations`, `ownership_operations`,
  `pattern_bindings`: what single values, variables and assignments do.
- `deep_clone`, `shallow_clone`, `destruction`: plans for copying and tearing down values.
- `place_relation`, `expr_places`, `runtime_checks`: places, and what is known of them before the
  program runs.
- `flow_graph`, `paths`, `sets`, `loans`, `ownership_flow`: moves and loans along the paths of a
  function.
- `function_facts`, `effects`, `argument_passes`, `call_plans`, `signatures`, `body_effects`,
  `parameter_effects`: what functions do with their parameters, settled in rounds that come to an
  end.
- `return_effects`, `call_results`, `outcomes`, `return_contract`: what callers receive.
- `capture`, `capture_kinds`: what functions take from their surroundings.

Checks

- `typed_contract`, `binding_contract`, `borrow_contract`, `effect_contract`, `validate`: one rule set
  each.
- `gate`: all of them, in order.
- `passes`: everything that is settled in a tree, in order, up to the final checks. `lower_program`
  hands a tree out only after that.

Proof functions named `law_..` state what holds across several functions. The tests under `tests/`
build programs as values and run the passes on them.
