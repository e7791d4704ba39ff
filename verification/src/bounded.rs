//! Bounded reads of regular files: the checks on what the file's metadata
//! says before it is opened and again once it is open, and the running
//! byte count while it is streamed.

use vstd::prelude::*;
use vstd::string::StringExecFns;

verus! {

/// The most bytes a bounded read accepts from one file.
pub const MAX_BOUNDED_FILE_BYTES: u64 = 536870912;

pub open spec fn not_regular_message(description: Seq<char>, path: Seq<char>) -> Seq<char> {
    description + " "@ + path + " must be a regular file"@
}

pub open spec fn too_large_message(description: Seq<char>, path: Seq<char>) -> Seq<char> {
    description + " "@ + path + " exceeds the 536870912-byte limit"@
}

fn not_regular_error(description: &str, path: &str) -> (m: String)
    ensures
        m@ == not_regular_message(description@, path@),
{
    let mut m = String::new();
    m.append(description);
    m.append(" ");
    m.append(path);
    m.append(" must be a regular file");
    assert(m@ =~= not_regular_message(description@, path@));
    m
}

fn too_large_error(description: &str, path: &str) -> (m: String)
    ensures
        m@ == too_large_message(description@, path@),
{
    let mut m = String::new();
    m.append(description);
    m.append(" ");
    m.append(path);
    m.append(" exceeds the 536870912-byte limit");
    assert(m@ =~= too_large_message(description@, path@));
    m
}

/// The check on a file's metadata, made on the path and again on the
/// opened file: it must be a regular file within the byte limit.
pub fn check_bounded_metadata(description: &str, path: &str, is_file: bool, len: u64) -> (r: Result<(), String>)
    ensures
        !is_file ==> (r matches Err(m) && m@ == not_regular_message(description@, path@)),
        is_file && len > MAX_BOUNDED_FILE_BYTES ==> (r matches Err(m) && m@ == too_large_message(description@, path@)),
        is_file && len <= MAX_BOUNDED_FILE_BYTES ==> r is Ok,
{
    if !is_file {
        return Err(not_regular_error(description, path));
    }
    if len > MAX_BOUNDED_FILE_BYTES {
        return Err(too_large_error(description, path));
    }
    Ok(())
}

/// One read of a bounded stream: `read` bytes after `total` bytes. An
/// empty read ends the stream (`None`); otherwise the new total
/// (saturating), refused past the limit, before the chunk is consumed.
pub fn bounded_read_step(total: u64, read: usize, description: &str, path: &str) -> (r: Result<Option<u64>, String>)
    ensures
        read == 0 ==> r == Ok::<Option<u64>, String>(None),
        read > 0 ==> ({
            let t = if total + read <= u64::MAX { (total + read) as u64 } else { u64::MAX };
            if t > MAX_BOUNDED_FILE_BYTES {
                r matches Err(m) && m@ == too_large_message(description@, path@)
            } else {
                r == Ok::<Option<u64>, String>(Some(t))
            }
        }),
{
    if read == 0 {
        return Ok(None);
    }
    let t = total.saturating_add(read as u64);
    if t > MAX_BOUNDED_FILE_BYTES {
        return Err(too_large_error(description, path));
    }
    Ok(Some(t))
}

} // verus!
