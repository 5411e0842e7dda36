//! Census: a read-only model of who may reach what on a host.

pub mod catalog;
pub mod coverage;
pub mod declaration;
pub mod doctor;
pub mod exposure;
pub mod fileaccess;
pub mod inspect;
pub mod names;
pub mod plan;
pub mod state;
pub mod text;
