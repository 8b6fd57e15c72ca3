//! A discrete-event simulator for digital circuits.

pub mod bits;
pub mod board;
pub mod bus;
pub mod component;
pub mod cpu6502;
pub mod cpu6809;
pub mod delay;
pub mod io;
pub mod latches;
pub mod logger;
pub mod logics;
pub mod mc6809;
pub mod memory;
pub mod tester;
pub mod wires;
