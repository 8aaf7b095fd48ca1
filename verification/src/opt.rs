pub mod lattice;
pub mod table;
pub mod state;
pub mod cfg;
pub mod cfg_check;
pub mod lowering;
pub mod cfg_text;
pub mod reach;
pub mod uses;
pub mod pass;
pub mod reduce_pass;
pub mod reduce_laws;
pub mod constant_propagation_pass;
pub mod propagation_laws;
pub mod soundness;
