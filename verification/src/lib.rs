//! Quarry: verified core of a software analysis workbench.
pub mod anticheat;
pub mod asm_x86;
pub mod assembler;
pub mod bignum;
pub mod bytes;
pub mod capture;
pub mod case;
pub mod ce_import;
pub mod icon;
pub mod ieee;
pub mod internals;
pub mod json;
pub mod laws;
pub mod lcu;
pub mod lcu_ws;
pub mod net;
pub mod order;
pub mod pattern;
pub mod pe;
pub mod process;
pub mod proxy;
pub mod redirect;
pub mod script;
pub mod setup;
pub mod target;
pub mod text;
pub mod unity;
pub mod value;
pub mod web;
