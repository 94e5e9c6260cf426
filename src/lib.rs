//! Assembler, disassembler and interpreter for the bytecode that scripts
//! enemies in a vertically scrolling shooter.

pub mod assembler;
pub mod direction;
pub mod disasm;
pub mod interpret;
pub mod op;
pub mod syntax;

pub use crate::assembler::{assemble, AsmError, AsmResult};
pub use crate::direction::Direction;
pub use crate::disasm::{disasm, DisasmError, DisasmResult};
pub use crate::interpret::{
    Effect, EnemyState, Frame, Game, HostView, InterpretError, InterpretResult, Interpreter,
    InterpreterInit, Tick, FRAME_OP_LIMIT,
};
pub use crate::op::{DecodeError, DecodeResult, Op};
pub mod roundtrip;
