//! Reading transactions back: the instructions of a leaf script, the gadgets
//! they form, and what the witness opens.

pub mod argument_laws;
pub mod gadgets;
pub mod instructions;
pub mod laws;
pub mod piece_laws;
pub mod report_laws;
pub mod roles;
pub mod roles_laws;
pub mod text;
pub mod uint_laws;
pub mod view_laws;
pub mod witness;
pub mod witness_laws;
pub mod wots_laws;
