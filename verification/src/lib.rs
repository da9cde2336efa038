//! The marv compiler library.
pub mod ir;
pub mod text;
pub mod copies;
pub mod order;
pub mod hash;
pub mod hash_laws;
pub mod seqs;
pub mod ops;
pub mod find;
pub mod graph;
pub mod reach;
pub mod pred;
pub mod syntax;
pub mod indices;
pub mod surface;
pub mod table;
pub mod decls;
pub mod lower_error;
pub mod scope;
pub mod resolve;
pub mod emit;
pub mod contract;
pub mod assign;
pub mod blocks;
pub mod lower;
pub mod core_meaning;
pub mod memory;
pub mod source_meaning;
pub mod lower_sound;
pub mod clause_meaning;
pub mod index_meaning;
pub mod branch_meaning;
pub mod assign_meaning;
pub mod loop_meaning;
pub mod asking;
pub mod lower_laws;
pub mod closed;
pub mod outline;
pub mod alike;
pub mod alike_scope;
pub mod alike_expr;
pub mod alike_assign;
pub mod alike_loop;
pub mod alike_block;
pub mod alike_context;
pub mod alike_program;
pub mod world;
pub mod wasm_code;
pub mod wasm_seq;
pub mod wasm_trans;
pub mod wasm_ops;
pub mod wasm_eval;
pub mod hashed;
pub mod wasm;
pub mod wasm_laws;
pub mod wasm_meaning;
pub mod wasm_sound;
pub mod wasm_prims;
pub mod wasm_blocks;
pub mod wasm_update;
pub mod wasm_release;
pub mod llvm_text;
pub mod dump;
pub mod llvm_eval;
pub mod llvm_meaning;
pub mod llvm;
pub mod llvm_release;
pub mod cl_code;
pub mod cl_eval;
pub mod cl_meaning;
pub mod cl;
pub mod cl_jit;
pub mod cl_sound;
pub mod cl_release;
pub mod words;
pub mod args;
pub mod metas;
pub mod fresh;
pub mod imports;
pub mod import_laws;
pub mod loaded;
pub mod pin_laws;
pub mod report;
