pub mod ast_pass;
pub mod asm_validation_pass;
pub mod validate_iden_pass;
pub mod add_goto_pass;
pub mod reduce_ast_pass;
