//! Core decision logic of the hwatu daemon's coverage verbs and
//! download handling.

pub mod text;
pub mod url;
pub mod base64;
pub mod mime;
pub mod content;
pub mod form;
pub mod drop;
pub mod fork;
pub mod try_until;
pub mod scout;
pub mod login;
pub mod downloads;
