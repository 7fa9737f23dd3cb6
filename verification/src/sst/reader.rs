//! What the engine asks of a reader of segment files.

use crate::entry::Entry;
use crate::sst::file::SstMetaData;
use vstd::prelude::*;

verus! {

/// Why a file cannot be read.
#[derive(Clone, Copy, Debug, PartialEq, Eq, Structural)]
pub enum Error {
    /// The file has been read before; its rows are handed out once.
    ReadAgain,
    /// The file could not be fetched from the store.
    ReadPersist,
    /// The rows of the file could not be decoded.
    DecodeRecordBatch,
    /// The meta data of the file could not be decoded.
    DecodeSstMeta,
    /// The file carries no meta data.
    SstMetaNotFound,
    /// The rows could not be projected.
    Projection,
    /// The meta data of the file is empty.
    EmptySstMeta,
    /// The schema of the file breaks a rule of schemas.
    InvalidSchema { source: crate::schema::Error },
    /// Any other failure.
    Other,
}

/// Reads one segment file.
pub trait SstReader {
    /// The meta data of the file.
    fn meta_data(&mut self) -> Result<&SstMetaData, Error>;

    /// The rows of the file, in the order of their keys.
    fn read(&mut self) -> Result<Vec<Entry>, Error>;
}

} // verus!
