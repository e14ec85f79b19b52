use vstd::prelude::*;

use crate::name::{extension_of, filename_to_short, last_dot, short_name, split_at_last_dot, stem_of};

verus! {

/// What one upload needs: where to send, which file, and how.
#[derive(Debug, Clone)]
pub struct FileUploader {
    /// Address of the receiver, without the port.
    pub address: String,
    /// Path of the file to send.
    pub filepath: String,
    /// Whether full chunks may go out compressed.
    pub use_compression: bool,
    /// Whether to run without any network traffic.
    pub dummy: bool,
}

impl FileUploader {
    pub fn new(address: String, filepath: String, use_compression: bool, dummy: bool) -> (r: Self)
        ensures
            r.address@ == address@,
            r.filepath@ == filepath@,
            r.use_compression == use_compression,
            r.dummy == dummy,
    {
        FileUploader { address, filepath, use_compression, dummy }
    }

    /// Splits a file name at its last dot, as `split_at_last_dot` does.
    pub fn split_at_last_dot(filename: &str) -> (r: (String, String))
        ensures
            r.0@ == stem_of(filename@),
            r.1@ == extension_of(filename@),
            last_dot(filename@) >= 0 ==> r.0@ + seq!['.'] + r.1@ == filename@,
            last_dot(filename@) < 0 ==> r.0@ == filename@ && r.1@.len() == 0,
            forall|i: int| 0 <= i < r.1@.len() ==> r.1@[i] != '.',
    {
        split_at_last_dot(filename)
    }

    /// The short name that the receiver stores a file under.
    pub fn filename_to_short(filename: &str) -> (r: String)
        ensures
            r@ == short_name(filename@),
    {
        filename_to_short(filename)
    }
}

} // verus!
