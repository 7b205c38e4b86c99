//! The credentials of the process at the other end of a Unix socket, as the
//! OS reports them.
use std::io;
use vstd::prelude::*;

verus! {

#[verifier::external_type_specification]
#[verifier::external_body]
pub struct ExIoError(io::Error);

/// The peer credentials of a Unix socket: process, user and group ids.
#[allow(non_camel_case_types)]
#[derive(Clone, Copy, Debug, PartialEq, Eq)]
pub struct ucred {
    pub pid: i32,
    pub uid: u32,
    pub gid: u32,
}

/// Relies on `std::io::Error::last_os_error`: the error that the OS reported
/// for the last failed call on this thread.
#[verifier::external_body]
fn last_os_error() -> (e: io::Error) {
    io::Error::last_os_error()
}

/// The result of a C call that returns a negative value on failure: the
/// value where it is not negative, else the error that the OS reported.
pub fn cvt(v: i32) -> (r: Result<i32, io::Error>)
    ensures
        v >= 0 <==> r is Ok,
        r is Ok ==> r->Ok_0 == v,
{
    if v < 0 {
        Err(last_os_error())
    } else {
        Ok(v)
    }
}

} // verus!
