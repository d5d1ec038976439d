//! Verified lowering of a strictly typed expression language into a
//! stack-machine instruction stream.

pub mod arms;
pub mod ast;
pub mod calls;
pub mod canonical;
pub mod chain;
pub mod components;
pub mod comprehension;
pub mod constants;
pub mod constants_calls;
pub mod constants_entry;
pub mod constants_expr;
pub mod constants_lists;
pub mod constants_match;
pub mod constants_ranges;
pub mod constants_reads;
pub mod constants_records;
pub mod counted;
pub mod decided;
pub mod decorators;
pub mod depth;
pub mod depth_calls;
pub mod depth_entry;
pub mod depth_finite;
pub mod depth_lists;
pub mod depth_match;
pub mod depth_ranges;
pub mod depth_reads;
pub mod depth_records;
pub mod dict_body;
pub mod dict_plan;
pub mod emit_order;
pub mod entry;
pub mod error;
pub mod expr;
pub mod field_refs;
pub mod field_types;
pub mod float_bits;
pub mod fragment;
pub mod fresh;
pub mod fresh_calls;
pub mod fresh_entry;
pub mod fresh_expr;
pub mod fresh_lists;
pub mod fresh_match;
pub mod fresh_ranges;
pub mod fresh_reads;
pub mod fresh_records;
pub mod index;
pub mod ir;
pub mod levels;
pub mod list_calls;
pub mod list_literal;
pub mod lowering;
pub mod matching;
pub mod materialize;
pub mod meaning;
pub mod meaning_args;
pub mod meaning_arms;
pub mod meaning_body;
pub mod meaning_hof;
pub mod meaning_hosts;
pub mod meaning_calls;
pub mod meaning_dict;
pub mod meaning_dispatch;
pub mod meaning_lists;
pub mod meaning_literals;
pub mod meaning_match;
pub mod meaning_nested;
pub mod meaning_pipeline;
pub mod meaning_reads;
pub mod meaning_plan;
pub mod meaning_records;
pub mod meaning_refs;
pub mod meaning_stores;
pub mod meaning_types;
pub mod meaning_variants;
pub mod module;
pub mod names;
pub mod native_import;
pub mod neat_calls;
pub mod neat_entry;
pub mod neat_expr;
pub mod neat_lists;
pub mod neat_match;
pub mod neat_ranges;
pub mod neat_reads;
pub mod neat_records;
pub mod nested;
pub mod range_calls;
pub mod range_loop;
pub mod records;
pub mod ref_cycle;
pub mod reference;
pub mod schedule;
pub mod shape;
pub mod stack;
pub mod stdlib;
pub mod text;
pub mod types;
pub mod variant;
pub mod workspace;
