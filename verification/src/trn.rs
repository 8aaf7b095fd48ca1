pub mod transpiler;
pub mod wat_transpiler;
pub mod fasm_transpiler;
