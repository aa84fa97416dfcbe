//! How an operation on a backlight device can fail.

use vstd::prelude::*;

verus! {

/// Why a toggle or a scan failed.
///
/// The two variants keep apart a device that cannot be reached from one that
/// is there but reports something other than a number. `E` is the cause that
/// the file system gave, passed through untouched.
#[derive(Debug, Clone, PartialEq, Eq)]
pub enum Error<E> {
    /// The file system failed: a directory could not be opened, or a control
    /// file could not be read or written.
    Io(E),
    /// The control file was read, but its text is no integer.
    MalformedData,
}

} // verus!
