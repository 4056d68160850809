//! mkrp: Ren'Py archive, bytecode and scene logic for handheld consoles.

pub mod bytes;
pub mod engine;
pub mod ioerror;
pub mod launcher;
pub mod render;
pub mod rpa;
pub mod rpyc;
pub mod strings;
pub mod text;
pub mod zlib;
