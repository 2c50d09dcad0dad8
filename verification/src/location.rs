//! Abstract locations for binary data.
//!
//! Data is either already in memory or backed by a path in the filesystem.
//! The library works on in-memory bytes only: reading a path requires file
//! access, which lives with the caller, who resolves the path and hands the
//! bytes back as a `Memory` value.

use crate::util::clone_bytes;
use vstd::prelude::*;

verus! {

/// Represents an abstract location for binary data.
#[derive(Clone, Debug, PartialEq)]
pub enum DataLocation {
    Path(String),
    Memory(Vec<u8>),
}

/// Why a location's content could not be produced here.
#[derive(Clone, Debug, PartialEq)]
pub enum LocationError {
    /// The data is backed by a path; the caller must read the file and supply
    /// the bytes as a `Memory` value. Carries the path for diagnostics.
    UnresolvedPath(String),
}

impl DataLocation {
    /// Resolve the raw content of this instance.
    ///
    /// Succeeds exactly on `Memory` values, with a copy of the bytes; a
    /// `Path` value is reported back unresolved, since reading it takes file
    /// access that the library does not perform.
    pub fn resolve(&self) -> (r: Result<Vec<u8>, LocationError>)
        ensures
            (*self) matches DataLocation::Memory(data) ==> (r matches Ok(b) && b@ == data@),
            (*self) matches DataLocation::Path(p) ==> (r matches Err(
                LocationError::UnresolvedPath(q),
            ) && q@ == p@),
    {
        match self {
            DataLocation::Path(p) => Err(LocationError::UnresolvedPath(p.clone())),
            DataLocation::Memory(data) => Ok(clone_bytes(data)),
        }
    }

    /// Resolve the instance to a `Memory` variant holding the same bytes.
    pub fn to_memory(&self) -> (r: Result<DataLocation, LocationError>)
        ensures
            (*self) matches DataLocation::Memory(data) ==> (r matches Ok(d) && d matches
                DataLocation::Memory(b) && b@ == data@),
            (*self) matches DataLocation::Path(p) ==> (r matches Err(
                LocationError::UnresolvedPath(q),
            ) && q@ == p@),
    {
        match self.resolve() {
            Ok(data) => Ok(DataLocation::Memory(data)),
            Err(e) => Err(e),
        }
    }
}

} // verus!
