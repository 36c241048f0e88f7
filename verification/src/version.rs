//! The version that `-v/--version` reports.  It defaults to the crate's
//! own version and can be set once before it is first read: the first
//! read or set fixes it for the rest of the process.
use vstd::prelude::*;

verus! {

/// The crate's own version, the default of [`version`].
pub const CRATE_VERSION: &'static str = "0.1.0";

/// A version that is fixed by its first read or its first set.
#[derive(Debug)]
pub struct VersionCell {
    value: Option<&'static str>,
}

impl VersionCell {
    /// The fixed version, if one was read or set already.
    pub closed spec fn fixed(&self) -> Option<Seq<char>> {
        match self.value {
            Some(v) => Some(v@),
            None => None,
        }
    }

    /// Whether the version is fixed.
    pub fn is_fixed(&self) -> (b: bool)
        ensures
            b == self.fixed() is Some,
    {
        self.value.is_some()
    }

    /// A cell whose version is not fixed yet.
    pub fn new() -> (c: VersionCell)
        ensures
            c.fixed() is None,
    {
        VersionCell { value: None }
    }
}

/// The version reported: the one set earlier, else `default`; reading
/// fixes it.
pub fn version_or(cell: &mut VersionCell, default: &'static str) -> (v: &'static str)
    ensures
        old(cell).fixed() is Some ==> v@ == old(cell).fixed()->Some_0,
        old(cell).fixed() is None ==> v@ == default@,
        final(cell).fixed() == Some(v@),
{
    match cell.value {
        Some(v) => v,
        None => {
            cell.value = Some(default);
            default
        },
    }
}

/// The current version (the crate version unless set before).
pub fn version(cell: &mut VersionCell) -> (v: &'static str)
    ensures
        old(cell).fixed() is Some ==> v@ == old(cell).fixed()->Some_0,
        old(cell).fixed() is None ==> v@ == CRATE_VERSION@,
        final(cell).fixed() == Some(v@),
{
    version_or(cell, CRATE_VERSION)
}

/// Sets the version; it has effect only before the version is first read
/// or set.
pub fn set_version(cell: &mut VersionCell, v: &'static str)
    ensures
        final(cell).fixed() == (match old(cell).fixed() {
            Some(f) => Some(f),
            None => Some(v@),
        }),
{
    if cell.value.is_none() {
        cell.value = Some(v);
    }
}

} // verus!
