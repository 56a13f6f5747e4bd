pub mod bytecode;
pub mod vm_core;
pub mod function;
pub mod object;
pub mod program;
pub mod vm_state;
