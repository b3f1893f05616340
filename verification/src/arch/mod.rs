//! Architecture-specific decisions, kept apart from the register and
//! instruction accesses that carry them out.

pub mod aarch64;
pub mod x86_64;
