//! The host of the interpreter.

use vstd::prelude::*;

verus! {

#[derive(Copy, Clone, Debug, PartialEq, Eq, Structural)]
pub enum InterpreterHostPlatform {
    Linux,
    MacOS,
    Windows,
    FreeBsd,
    Unknown,
}

#[derive(Copy, Clone, Debug, PartialEq, Eq, Structural)]
pub enum InterpreterHostArchitecture {
    AArch64,
    X86_64,
    Arm,
    Riscv64,
    X86,
    Mips,
    Mips64,
    PowerPc,
    PowerPc64,
    Unknown,
}

} // verus!
