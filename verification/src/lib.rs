//! Parsers for the file formats of Mario Kart Wii: the Yaz0-compressed U8
//! archive (`.szs`), the course layout (`.kmp`), collision flags (`.kcl`) and
//! the resource archive (`.brres`). Every parser takes the raw bytes of a file
//! and states, in its contract, exactly which value or which error it gives.
pub mod error;
pub mod binary;
pub mod szs;
pub mod kcl;
pub mod kmp;
pub mod brres;
