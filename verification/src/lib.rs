//! A small library for generating license files: it fills placeholder
//! tokens in a license template with a copyright holder's name and a
//! year, and decides where the finished text may be written without
//! silently clobbering an existing file.

pub mod files;
pub mod identity;
pub mod replace;
pub mod template;
