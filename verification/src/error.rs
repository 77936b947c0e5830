//! The errors of the library.
use vstd::prelude::*;

verus! {

/// The error that `subnetwork` reports for a network it cannot build.
#[verifier::external_type_specification]
#[verifier::external_body]
pub struct ExSubnetworkError(subnetwork::SubnetworkError);

/// Everything that can go wrong while reading or interpreting network state.
/// The variants that come from the operating system carry the message of the
/// underlying error.
#[derive(Debug)]
pub enum CrossNetError {
    StdIOError { msg: String },
    ParseMacAddrErr { mac: String },
    AddrParseError { msg: String },
    WindowsError { msg: String },
    LinuxError { msg: String },
    IpPoolError(subnetwork::SubnetworkError),
}

/// The result of the library's operations.
pub type Result<T, E = CrossNetError> = core::result::Result<T, E>;

} // verus!
