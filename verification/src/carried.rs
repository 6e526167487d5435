//! Types of std and of the TOML parser that errors of the library carry
//! through as whole values.

use vstd::prelude::*;
use toml::de::Error as TomlError;

verus! {

/// A path of the file system, carried through errors as it was given.
#[verifier::external_type_specification]
#[verifier::external_body]
pub struct ExPathBuf(std::path::PathBuf);

/// An I/O failure, carried through errors as it was given.
#[verifier::external_type_specification]
#[verifier::external_body]
pub struct ExIoError(std::io::Error);

/// A failure to parse a TOML registry, carried through errors as it was given.
#[verifier::external_type_specification]
#[verifier::external_body]
pub struct ExTomlError(TomlError);

} // verus!
