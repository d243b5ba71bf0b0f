//! What the operations are for, said of bytes, numbers and names alone: where the
//! parts of an image stand, which sizes are accepted, which results belong to which
//! inputs.

pub mod commands;
pub mod cover;
pub mod extraction;
pub mod files;
pub mod frames;
pub mod keys;
pub mod limits;
pub mod names;
pub mod quality;
pub mod recovery;
pub mod walk;
