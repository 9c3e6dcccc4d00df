//! Membership checks of password hashes against a corpus of leaked ones,
//! answered from a compact binary fuse filter instead of the corpus itself.

pub mod artifact;
pub mod corpus;
pub mod fingerprint;
pub mod format;
pub mod fuse;
pub mod keys;
pub mod password_filter;
pub mod query;
pub mod random;
pub mod stream;
pub mod util;
pub mod validator;
