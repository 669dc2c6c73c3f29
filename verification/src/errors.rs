//! The error a supervisor reports when it cannot be set up.

use vstd::prelude::*;

verus! {

/// `std::io::Error`, carried through as an opaque value.
#[verifier::external_type_specification]
#[verifier::external_body]
pub struct ExIoError(std::io::Error);

/// `nix::errno::Errno` (also known as `nix::Error`), carried through as an
/// opaque value.
#[verifier::external_type_specification]
#[verifier::external_body]
pub struct ExErrno(nix::errno::Errno);

/// A failure to acquire one of the resources the supervisor cannot run
/// without. It keeps the error of the layer that failed.
#[derive(Debug)]
pub enum MyError {
    /// A standard-library operation failed (binding or accepting on the
    /// socket).
    IoError(std::io::Error),
    /// A system call failed (pipe, fork, signal mask, readiness wait).
    NixError(nix::Error),
}

impl From<nix::Error> for MyError {
    fn from(x: nix::Error) -> (r: Self) {
        MyError::NixError(x)
    }
}

impl vstd::std_specs::convert::FromSpecImpl<nix::Error> for MyError {
    open spec fn obeys_from_spec() -> bool {
        true
    }

    open spec fn from_spec(x: nix::Error) -> Self {
        MyError::NixError(x)
    }
}

impl From<std::io::Error> for MyError {
    fn from(x: std::io::Error) -> (r: Self) {
        MyError::IoError(x)
    }
}

impl vstd::std_specs::convert::FromSpecImpl<std::io::Error> for MyError {
    open spec fn obeys_from_spec() -> bool {
        true
    }

    open spec fn from_spec(x: std::io::Error) -> Self {
        MyError::IoError(x)
    }
}

} // verus!
