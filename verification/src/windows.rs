//! What only the Windows filesystem needs: names, times, attributes, and
//! listings that continue after a name.

use vstd::prelude::*;
use crate::host::HostOs;
use crate::order;
use crate::order::text_before;
use crate::path;
use crate::path::names;
use crate::text;
use crate::text::cat2;

verus! {

/// The access rights of an open that can write.
pub const FILE_GENERIC_WRITE: u32 = 0x0012_0116;

/// The attribute of a directory.
pub const FILE_ATTRIBUTE_DIRECTORY: u32 = 0x0000_0010;

/// The attribute of a file without any other.
pub const FILE_ATTRIBUTE_NORMAL: u32 = 0x0000_0080;

/// The flag of a handle that was opened for deletion.
pub const FSP_CLEANUP_DELETE: u32 = 1;

/// The option of a create that asks for a directory.
pub const FILE_DIRECTORY_FILE: u32 = 1;

/// The components of a name on the volume. A drive, a share or a device that
/// the name begins with is left out, and so is a parent directory: no name leads
/// out of the volume.
pub open spec fn volume_path(name: Seq<char>) -> Seq<Seq<char>> {
    path::names_of(path::comps(HostOs::Windows, name))
}

/// The components of a name on the volume.
pub fn rel_of(name: &str) -> (r: Vec<String>)
    ensures
        text::texts(r@) == volume_path(name@),
        text::texts(r@) == path::names_of(path::comps(HostOs::Windows, name@)),
{
    names(HostOs::Windows, name)
}

/// No name leads out of the volume: none of its components is the current or the
/// parent directory, and none holds a separator.
pub proof fn law_names_stay_inside(name: Seq<char>, i: int)
    requires
        0 <= i < volume_path(name).len(),
    ensures
        volume_path(name)[i] != "."@,
        volume_path(name)[i] != ".."@,
        volume_path(name)[i].len() > 0,
        !volume_path(name)[i].contains('\\'),
{
    path::lemma_names(HostOs::Windows, name, i);
    reveal_strlit(".");
    reveal_strlit("..");
    assert("."@ =~= seq!['.']);
    assert(".."@ =~= seq!['.', '.']);
}

/// A time since 1970 as the system counts it: in units of 100 nanoseconds since
/// 1601, in 64 bits.
pub open spec fn filetime(secs: int, nanos: int) -> int {
    ((secs + 11_644_473_600) * 10_000_000 + nanos / 100) % 0x1_0000_0000_0000_0000
}

/// A time as the system counts it; 0 where there is none. A time before 1970
/// counts as 1970.
pub fn to_filetime(since_epoch: Option<(u64, u32)>) -> (r: u64)
    ensures
        r == match since_epoch {
            Some((secs, nanos)) => filetime(secs as int, nanos as int),
            None => 0,
        },
        since_epoch matches Some((secs, nanos)) ==> r == (10_000_000 * (secs + 11_644_473_600)
            + nanos / 100) % 0x1_0000_0000_0000_0000,
{
    match since_epoch {
        Some((secs, nanos)) => {
            let s: u128 = secs as u128 + 11_644_473_600;
            let sub: u128 = (nanos / 100) as u128;
            let all: u128 = s * 10_000_000 + sub;
            (all % 0x1_0000_0000_0000_0000) as u64
        },
        None => 0,
    }
}

/// What a handle tells of its file.
#[derive(Clone, Copy, Debug, PartialEq, Eq, Structural)]
pub struct FileFacts {
    pub attributes: u32,
    pub allocation_size: u64,
    pub file_size: u64,
    pub creation_time: u64,
    pub last_access_time: u64,
    pub last_write_time: u64,
    pub change_time: u64,
    pub hard_links: u32,
}

/// What a handle tells of its file: the change time is the write time.
pub fn fill_file_info(
    attributes: u32,
    len: u64,
    created: Option<(u64, u32)>,
    accessed: Option<(u64, u32)>,
    modified: Option<(u64, u32)>,
) -> (r: FileFacts)
    ensures
        r.attributes == attributes,
        r.allocation_size == len,
        r.file_size == len,
        r.creation_time == match created {
            Some((s, n)) => filetime(s as int, n as int),
            None => 0,
        },
        r.last_access_time == match accessed {
            Some((s, n)) => filetime(s as int, n as int),
            None => 0,
        },
        r.last_write_time == match modified {
            Some((s, n)) => filetime(s as int, n as int),
            None => 0,
        },
        r.change_time == r.last_write_time,
        r.hard_links == 1,
{
    let written: u64 = to_filetime(modified);
    FileFacts {
        attributes,
        allocation_size: len,
        file_size: len,
        creation_time: to_filetime(created),
        last_access_time: to_filetime(accessed),
        last_write_time: written,
        change_time: written,
        hard_links: 1,
    }
}

/// The attributes of an entry.
pub fn attributes(is_dir: bool) -> (r: u32)
    ensures
        r == if is_dir {
            FILE_ATTRIBUTE_DIRECTORY
        } else {
            FILE_ATTRIBUTE_NORMAL
        },
        is_dir ==> r == 0x10,
        !is_dir ==> r == 0x80,
{
    if is_dir {
        FILE_ATTRIBUTE_DIRECTORY
    } else {
        FILE_ATTRIBUTE_NORMAL
    }
}

/// What a request for an entry's security is answered: the attributes, the
/// length of the descriptor, and how much of it fits into the buffer. An entry
/// that is not there counts as a file.
#[derive(Clone, Copy, Debug, PartialEq, Eq, Structural)]
pub struct Security {
    pub attributes: u32,
    pub length: usize,
    pub copied: usize,
}

/// What a request for an entry's security is answered.
pub fn get_security_by_name(is_dir: Option<bool>, descriptor: usize, buffer: usize) -> (r: Security)
    ensures
        r.attributes == if is_dir == Some(true) {
            FILE_ATTRIBUTE_DIRECTORY
        } else {
            FILE_ATTRIBUTE_NORMAL
        },
        r.length == descriptor,
        r.copied == if descriptor <= buffer {
            descriptor
        } else {
            buffer
        },
{
    let dir = match is_dir {
        Some(d) => d,
        None => false,
    };
    let copied: usize = if descriptor <= buffer {
        descriptor
    } else {
        buffer
    };
    Security { attributes: attributes(dir), length: descriptor, copied }
}

/// The open can write.
pub fn wants_write(granted_access: u32) -> (r: bool)
    ensures
        r == (granted_access & FILE_GENERIC_WRITE != 0),
        r == (granted_access & 0x0012_0116 != 0),
{
    granted_access & FILE_GENERIC_WRITE != 0
}

/// The create asks for a directory.
pub fn creates_directory(file_attributes: u32, create_options: u32) -> (r: bool)
    ensures
        r == (file_attributes & FILE_ATTRIBUTE_DIRECTORY != 0 || create_options
            & FILE_DIRECTORY_FILE != 0),
        r == (file_attributes & 0x10 != 0 || create_options & 1 != 0),
{
    file_attributes & FILE_ATTRIBUTE_DIRECTORY != 0 || create_options & FILE_DIRECTORY_FILE != 0
}

/// The handle that is cleaned up was opened for deletion, and has a name.
pub fn cleanup_deletes(flags: u32, named: bool) -> (r: bool)
    ensures
        r == (named && flags & FSP_CLEANUP_DELETE != 0),
        r == (named && flags & 1 != 0),
{
    named && flags & FSP_CLEANUP_DELETE != 0
}

/// Where a write starts. One at the end of a file starts there, as far as the
/// numbers reach.
pub fn write_offset(write_to_eof: bool, len: u64, offset: u64) -> (r: u64)
    ensures
        r == if !write_to_eof {
            offset as int
        } else if len + offset > u64::MAX {
            u64::MAX as int
        } else {
            len + offset
        },
{
    if write_to_eof {
        len.saturating_add(offset)
    } else {
        offset
    }
}

/// The size of a volume and what is free of it; nothing where the system does
/// not tell.
pub fn get_volume_info(sizes: Option<(u64, u64)>) -> (r: (u64, u64))
    ensures
        r == match sizes {
            Some(s) => s,
            None => (0u64, 0u64),
        },
{
    match sizes {
        Some(s) => s,
        None => (0, 0),
    }
}

/// The place of the first entry after `marker`, from place `i` on.
pub open spec fn after_marker(entries: Seq<Seq<char>>, marker: Seq<char>, i: int) -> int
    decreases entries.len() - i,
{
    if i < 0 || i >= entries.len() {
        entries.len() as int
    } else if order::before(marker, entries[i]) {
        i
    } else {
        after_marker(entries, marker, i + 1)
    }
}

/// The place of the first entry that a listing gives: the first one where it
/// starts, else the first one after the name that was given last. The entries
/// are sorted.
pub fn read_directory(entries: &Vec<String>, marker: Option<String>) -> (r: usize)
    ensures
        r == match marker {
            Some(m) => after_marker(text::texts(entries@), m@, 0),
            None => 0,
        },
        r <= entries@.len(),
        marker matches Some(m) ==> forall|j: int|
            0 <= j < r ==> !order::before(m@, (#[trigger] entries@[j])@),
        marker matches Some(m) ==> (r < entries@.len() ==> order::before(
            m@,
            entries@[r as int]@,
        )),
{
    let Some(m) = marker else {
        return 0;
    };
    let mut i: usize = 0;
    while i < entries.len()
        invariant
            i <= entries@.len(),
            marker == Some(m),
            forall|j: int| 0 <= j < i ==> !order::before(m@, (#[trigger] entries@[j])@),
            after_marker(text::texts(entries@), m@, 0) == after_marker(
                text::texts(entries@),
                m@,
                i as int,
            ),
        decreases entries@.len() - i,
    {
        assert(text::texts(entries@)[i as int] == entries@[i as int]@);
        if text_before(m.as_str(), entries[i].as_str()) {
            return i;
        }
        i = i + 1;
    }
    entries.len()
}

/// Sorted, and without an entry twice.
pub open spec fn strictly_sorted(s: Seq<Seq<char>>) -> bool {
    forall|i: int, j: int| 0 <= i < j < s.len() ==> order::before(#[trigger] s[i], #[trigger] s[j])
}

proof fn lemma_after_marker(entries: Seq<Seq<char>>, k: int, i: int)
    requires
        strictly_sorted(entries),
        0 <= i <= k < entries.len(),
    ensures
        after_marker(entries, entries[k], i) == k + 1,
    decreases k - i,
{
    order::lemma_before_total(entries[i], entries[k]);
    if i < k {
        assert(order::before(entries[i], entries[k]));
        lemma_after_marker(entries, k, i + 1);
    } else if k + 1 < entries.len() {
        assert(order::before(entries[k], entries[k + 1]));
        assert(after_marker(entries, entries[k], k + 1) == k + 1);
    } else {
        assert(after_marker(entries, entries[k], k + 1) == k + 1);
    }
}

/// A listing that is continued after the name that was given last goes on with
/// the entry after it: none is given twice, and none is left out.
pub proof fn law_listing_resumes(entries: Seq<Seq<char>>, k: int)
    requires
        strictly_sorted(entries),
        0 <= k < entries.len(),
    ensures
        after_marker(entries, entries[k], 0) == k + 1,
{
    lemma_after_marker(entries, k, 0);
}

/// The warning for a deletion that failed.
pub fn delete_warning(name: &str, error: &str) -> (r: String)
    ensures
        r@ == "cowt: warning: delete of "@ + name@ + " failed: "@ + error@,
{
    cat2("cowt: warning: delete of ", name).concat(" failed: ").concat(error)
}

} // verus!
