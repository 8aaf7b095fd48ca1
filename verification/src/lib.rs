pub mod text;
pub mod cli;
pub mod fe;
pub mod mw;
pub mod opt;
pub mod trn;
