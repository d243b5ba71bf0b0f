//! Conceal a file inside a JPG image and recover it again.

pub mod base64;
pub mod cli;
pub mod common;
pub mod conceal;
pub mod conceal_helpers;
pub mod constants;
pub mod crypto;
pub mod decimal;
pub mod decrypt;
pub mod encrypt;
pub mod extract;
pub mod filename;
pub mod jpeg_preprocess;
pub mod laws;
pub mod output_file;
pub mod paths;
pub mod recover;
pub mod reddit;
pub mod runtime;
pub mod scan;
pub mod signal;
pub mod zlib;

