//! The trusted boundary to the `zip` crate.
//!
//! The trace container is a zip archive held in memory as plain bytes.  The
//! one function here extracts a named member's decompressed bytes; everything
//! done with those bytes afterwards is verified code.

use vstd::prelude::*;
use std::io::Read;

verus! {

/// What the archive holds under a member name: the member's decompressed
/// bytes when a sound member of that name is present, nothing otherwise.
/// Reading a zip archive held fully in memory depends on the archive's bytes
/// and the requested name alone, so the result deserves a name.
pub uninterp spec fn member_of(archive: Seq<u8>, name: Seq<char>) -> Option<Seq<u8>>;

#[verifier::external_type_specification]
#[verifier::external_body]
pub struct ExZipError(zip::result::ZipError);

/// Relies on `zip::ZipArchive::new` over an in-memory reader, `by_name`, and
/// a full read of the member: deterministic in the archive bytes and the
/// name, succeeding exactly when the archive has a sound member of that name
/// and then yielding that member's bytes.
#[verifier::external_body]
pub(crate) fn archive_member(archive: &Vec<u8>, name: &str) -> (r: Result<
    Vec<u8>,
    zip::result::ZipError,
>)
    ensures
        r.is_ok() == member_of(archive@, name@).is_some(),
        r matches Ok(b) ==> member_of(archive@, name@) == Some(b@),
{
    let mut ach = zip::ZipArchive::new(std::io::Cursor::new(archive.as_slice()))?;
    let mut member = ach.by_name(name)?;
    let mut out = Vec::new();
    member.read_to_end(&mut out)?;
    Ok(out)
}

} // verus!
