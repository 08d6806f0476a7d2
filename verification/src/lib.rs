//! Reading and rewriting the Bash-syntax configuration and preset files of
//! `mkinitcpio`, with a restricted shell subprocess as the authority on
//! quoting: values travel as raw bytes and as quoted source, arrays as
//! ordered `(index, value)` pairs, and whole files as environments of named
//! values. The shell itself stands behind the [`shell::ShellOracle`] trait;
//! everything around it — scripts, output parsing, classification, the
//! configuration and preset model, and serialization — is verified here.

pub mod array;
pub mod bytestring;
pub mod config;
pub mod errors;
pub mod mock;
pub mod preset;
pub mod scalar;
pub mod shell;
pub mod strings;
pub mod utf8;
pub mod value;
