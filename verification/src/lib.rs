//! The value-level core of a CPython-compatible C API: object bodies with
//! CPython's exact memory layout, reference-count and identity bookkeeping,
//! and the string, integer, slice, module and configuration operations.

#![allow(non_snake_case, non_camel_case_types)]

pub mod agreement;
pub mod argpins;
pub mod bignum;
pub mod bodies;
pub mod bytes;
pub mod calls;
pub mod crossing;
pub mod delivery;
pub mod descriptors;
pub mod digests;
pub mod errors;
pub mod fields;
pub mod flat;
pub mod floats;
pub mod freeing;
pub mod growth;
pub mod handing;
pub mod heap;
pub mod holding;
pub mod homeward;
pub mod imports;
pub mod keeping;
pub mod layout;
pub mod letters;
pub mod lists;
pub mod mirror;
pub mod modsupport_ext;
pub mod module;
pub mod monitoring;
pub mod mypyc_tail;
pub mod numbers;
pub mod numerals;
pub mod object;
pub mod offsets;
pub mod options;
pub mod outward;
pub mod packing;
pub mod particulars;
pub mod passage;
pub mod pep741;
pub mod pieces;
pub mod pins;
pub mod publish;
pub mod pystate;
pub mod pythonrun;
pub mod reading;
pub mod search;
pub mod shelves;
pub mod singletons;
pub mod slice;
pub mod slottable;
pub mod steady;
pub mod strings;
pub mod tables;
pub mod tethers;
pub mod text;
pub mod tracing;
pub mod trips;
pub mod unicode;
pub mod upkeep;
pub mod utf8;
pub mod value;
