//! What the library is for, said without its own words: laws over bytes, numbers
//! and texts that every operation keeps.
pub mod client;
pub mod directives;
pub mod fractions;
pub mod games;
pub mod images;
pub mod installer;
pub mod lines;
pub mod machine;
pub mod memory;
pub mod mnemonics;
pub mod operands;
pub mod packets;
pub mod plain;
pub mod scripts;
pub mod tables;
pub mod texts;
pub mod traffic;
