use vstd::prelude::*;

verus! {

/// Why a transfer could not be carried out.
#[derive(Debug, Clone, Copy, PartialEq, Eq, Structural)]
pub enum UploadError {
    /// The source file could not be read.
    File,
    /// Connecting to the peer, writing a frame or reading an acknowledgment failed.
    Connection,
    /// The derived short name does not fit the name field of the first frame.
    NameTooLong,
}

} // verus!
