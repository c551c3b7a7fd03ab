//! Static ownership analysis of a typed program representation.
//!
//! The library holds the type model of a small language, its resolved program tree, and the
//! passes that decide who owns a value, who borrows it and whether every recorded fact of the
//! tree agrees with the rule it stands for.

pub mod argument_passes;
pub mod ast;
pub mod binding_contract;
pub mod body_effects;
pub mod borrow_contract;
pub mod builders;
pub mod call_plans;
pub mod call_results;
pub mod capture;
pub mod capture_kinds;
pub mod capture_laws;
pub mod checker_state;
pub mod contract_laws;
pub mod declaration_laws;
pub mod declarations;
pub mod deep_clone;
pub mod destruction;
pub mod diagnostics;
pub mod effect_contract;
pub mod effects;
pub mod expected_laws;
pub mod expr_places;
pub mod facts;
pub mod flow_graph;
pub mod flow_laws;
pub mod function_facts;
pub mod gate;
pub mod graph_laws;
pub mod ids;
pub mod item_laws;
pub mod literals;
pub mod loans;
pub mod lower;
pub mod lower_program;
pub mod lowered;
pub mod lowering_laws;
pub mod marks;
pub mod match_laws;
pub mod match_rules;
pub mod model;
pub mod operators;
pub mod outcome_laws;
pub mod outcomes;
pub mod ownership_capabilities;
pub mod ownership_flow;
pub mod ownership_operations;
pub mod parameter_effects;
pub mod passes;
pub mod paths;
pub mod pattern_bindings;
pub mod place_laws;
pub mod place_relation;
pub mod plan_laws;
pub mod pointer_laws;
pub mod pointers;
pub mod program_laws;
pub mod return_contract;
pub mod return_effects;
pub mod return_laws;
pub mod runtime_checks;
pub mod sets;
pub mod shallow_clone;
pub mod signatures;
pub mod storage_relations;
pub mod structs;
pub mod tree;
pub mod typed;
pub mod typed_contract;
pub mod types;
pub mod typing;
pub mod typing_laws;
pub mod validate;
pub mod value_categories;
pub mod value_laws;
pub mod visit;
pub mod walk_laws;
