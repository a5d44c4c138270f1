//! Writing members back out as a COFF archive container.

use vstd::prelude::*;
use crate::member::{ArchiveMember, MemberView, member_views};
use ar_archive_writer::{ArchiveKind, NewArchiveMember, DEFAULT_OBJECT_READER, write_archive_to_stream};
use crate::indexing::{OFFSET_LIMIT, can_index, capped, indexable, is_utf8, symbol_bytes, symbol_bytes_capped, utf8_valid};

verus! {

/// The error type of std's I/O traits, which the archive writer returns.
#[verifier::external_type_specification]
#[verifier::external_body]
pub struct ExIoError(std::io::Error);

/// Largest modification time that fits the 12 decimal digits of its field, plus one.
pub const MTIME_LIMIT: u64 = 1_000_000_000_000;
/// Largest owner or group id that fits the 6 decimal digits of its field, plus one.
pub const ID_LIMIT: u64 = 1_000_000;
/// Largest mode that fits the 8 octal digits of its field, plus one.
pub const MODE_LIMIT: u64 = 0o100000000;
/// Largest data length that fits the 10 decimal digits of its field, plus one.
pub const SIZE_LIMIT: u64 = 10_000_000_000;
/// The mode written for a member whose header had none.
pub const DEFAULT_MODE: u64 = 0o644;

/// A header field of a member.
#[derive(Debug, Clone, Copy, PartialEq, Eq, Structural)]
pub enum HeaderField {
    /// The name, which must be UTF-8 text.
    Name,
    Mtime,
    Uid,
    Gid,
    Mode,
    Size,
}

/// Why members could not be written out.
#[derive(Debug)]
pub enum EncodeError {
    /// The value of `field` of member `member_index` does not fit its header field.
    FieldOverflow { field: HeaderField, member_index: usize },
    /// The archive writer cannot index the symbols of member `member_index`
    /// (see `indexable`).
    UnreadableSymbols { member_index: usize },
    /// The members together are too large for the 32-bit offsets of a COFF
    /// archive's linker members (see `fits_offsets`).
    ArchiveTooLarge,
}

/// A member as handed to the archive writer: its name, its header values
/// with defaults filled in, and its data.
pub struct NewEntry {
    pub name: Vec<u8>,
    pub mtime: u64,
    pub uid: u32,
    pub gid: u32,
    pub perms: u32,
    pub data: Vec<u8>,
}

/// The value of a [`NewEntry`] as a tuple of plain values.
pub open spec fn entry_view(e: NewEntry) -> (Seq<u8>, u64, u32, u32, u32, Seq<u8>) {
    (e.name@, e.mtime, e.uid, e.gid, e.perms, e.data@)
}

/// The bytes of the COFF archive that the `ar_archive_writer` crate writes
/// for the given members (name, mtime, uid, gid, mode, data) in order, or
/// `None` when it refuses them.
pub uninterp spec fn coff_archive_of(entries: Seq<(Seq<u8>, u64, u32, u32, u32, Seq<u8>)>) -> Option<Seq<u8>>;

/// An upper bound on what the archive writer allots to the linker members
/// and the long-name table apart from the members' own shares.
pub const ARCHIVE_BASE: u64 = 256;

/// An upper bound on the bytes a member adds to the written archive: its
/// header, data, padding, long name and share of the linker members.
pub open spec fn entry_bytes(e: (Seq<u8>, u64, u32, u32, u32, Seq<u8>)) -> nat {
    (66 + e.0.len() + e.5.len() + symbol_bytes(e.5)) as nat
}

/// The sum of `entry_bytes` over the entries.
pub open spec fn entries_bytes(es: Seq<(Seq<u8>, u64, u32, u32, u32, Seq<u8>)>) -> nat
    decreases es.len(),
{
    if es.len() == 0 {
        0
    } else {
        entries_bytes(es.drop_last()) + entry_bytes(es.last())
    }
}

/// Whether every offset the writer puts into the COFF linker members fits
/// 32 bits. The writer converts them with `try_into().unwrap()` and
/// `checked_add(..).unwrap()`, and so panics where they do not.
pub open spec fn fits_offsets(es: Seq<(Seq<u8>, u64, u32, u32, u32, Seq<u8>)>) -> bool {
    ARCHIVE_BASE + entries_bytes(es) < OFFSET_LIMIT
}

/// Relies on `ar_archive_writer::write_archive_to_stream` (COFF kind, not
/// thin, no EC symbol map) to write the members, with names converted to
/// text, into an in-memory buffer. The output depends on the members alone.
/// The writer panics on a member whose symbols it cannot index (see
/// `indexable`) and on offsets beyond 32 bits (see `fits_offsets`), which
/// `requires` leaves out; names are required to be UTF-8 so that their
/// conversion to text keeps them as they are. Writing into memory, the
/// writer fails only on a member of more than 9,999,999,999 bytes.
#[verifier::external_body]
fn write_coff_archive(entries: &Vec<NewEntry>) -> (r: Result<Vec<u8>, std::io::Error>)
    requires
        forall|i: int| 0 <= i < entries@.len() ==> indexable(#[trigger] entries@[i].data@),
        forall|i: int| 0 <= i < entries@.len() ==> is_utf8(#[trigger] entries@[i].name@),
        fits_offsets(entries@.map_values(|e: NewEntry| entry_view(e))),
    ensures
        (forall|i: int| 0 <= i < entries@.len() ==> (#[trigger] entries@[i]).data@.len() <= 9_999_999_999) ==> r is Ok,
        match r {
            Ok(bytes) => coff_archive_of(entries@.map_values(|e: NewEntry| entry_view(e))) == Some(bytes@),
            Err(_) => coff_archive_of(entries@.map_values(|e: NewEntry| entry_view(e))) is None,
        },
{
    let members: Vec<NewArchiveMember> = entries.iter().map(|e| NewArchiveMember {
        buf: Box::new(e.data.as_slice()),
        object_reader: &DEFAULT_OBJECT_READER,
        member_name: String::from_utf8_lossy(&e.name).into_owned(),
        mtime: e.mtime,
        uid: e.uid,
        gid: e.gid,
        perms: e.perms,
    }).collect();
    let mut out = std::io::Cursor::new(Vec::new());
    write_archive_to_stream(&mut out, &members, ArchiveKind::Coff, false, Some(false))?;
    Ok(out.into_inner())
}

/// The first header field of `m` whose value does not fit, with absent
/// values taking their defaults.
#[verifier::opaque]
pub open spec fn field_overflow(m: MemberView) -> Option<HeaderField> {
    if !is_utf8(m.name) {
        Some(HeaderField::Name)
    } else if m.mtime.unwrap_or(0) >= MTIME_LIMIT {
        Some(HeaderField::Mtime)
    } else if m.uid.unwrap_or(0) >= ID_LIMIT {
        Some(HeaderField::Uid)
    } else if m.gid.unwrap_or(0) >= ID_LIMIT {
        Some(HeaderField::Gid)
    } else if m.mode.unwrap_or(DEFAULT_MODE) >= MODE_LIMIT {
        Some(HeaderField::Mode)
    } else if m.payload.len() >= SIZE_LIMIT {
        Some(HeaderField::Size)
    } else {
        None
    }
}

/// Why member `m` cannot be written: `Some(f)` for a header field `f` that
/// does not fit, `None` for symbols the writer cannot index; checked in
/// that order.
#[verifier::opaque]
pub open spec fn member_fault(m: MemberView) -> Option<Option<HeaderField>> {
    match field_overflow(m) {
        Some(f) => Some(Some(f)),
        None => if indexable(m.payload) {
            None
        } else {
            Some(None)
        },
    }
}

/// What is handed to the writer for a member whose fields fit.
pub open spec fn new_entry_of(m: MemberView) -> (Seq<u8>, u64, u32, u32, u32, Seq<u8>) {
    (
        m.name,
        m.mtime.unwrap_or(0),
        m.uid.unwrap_or(0) as u32,
        m.gid.unwrap_or(0) as u32,
        m.mode.unwrap_or(DEFAULT_MODE) as u32,
        m.payload,
    )
}

/// The plain outcome of an encode: the archive bytes, or the fault of the
/// first member that cannot be written with its index, or `None` when the
/// members together are too large.
pub open spec fn encoded(ms: Seq<MemberView>) -> Result<Seq<u8>, Option<(Option<HeaderField>, nat)>> {
    if forall|i: int| 0 <= i < ms.len() ==> (#[trigger] member_fault(ms[i])) is None {
        let es = ms.map_values(|m: MemberView| new_entry_of(m));
        if fits_offsets(es) {
            Ok(coff_archive_of(es)->Some_0)
        } else {
            Err(None)
        }
    } else {
        let k = choose|k: int|
            0 <= k < ms.len() && member_fault(ms[k]) is Some && forall|j: int|
                0 <= j < k ==> (#[trigger] member_fault(ms[j])) is None;
        Err(Some((member_fault(ms[k])->Some_0, k as nat)))
    }
}

/// The plain outcome of an encode result.
pub open spec fn encode_outcome(r: Result<Vec<u8>, EncodeError>) -> Result<Seq<u8>, Option<(Option<HeaderField>, nat)>> {
    match r {
        Ok(b) => Ok(b@),
        Err(EncodeError::FieldOverflow { field, member_index }) => Err(Some((Some(field), member_index as nat))),
        Err(EncodeError::UnreadableSymbols { member_index }) => Err(Some((None, member_index as nat))),
        Err(EncodeError::ArchiveTooLarge) => Err(None),
    }
}

/// The writer's entry for `m`, or why it cannot be written.
fn new_entry(m: &ArchiveMember) -> (r: Result<NewEntry, Option<HeaderField>>)
    ensures
        match r {
            Ok(e) => member_fault(m@) is None && entry_view(e) == new_entry_of(m@),
            Err(f) => member_fault(m@) == Some(f),
        },
{
    reveal(field_overflow);
    reveal(member_fault);
    let mtime = match m.mtime { Some(v) => v, None => 0 };
    let uid = match m.uid { Some(v) => v, None => 0 };
    let gid = match m.gid { Some(v) => v, None => 0 };
    let mode = match m.mode { Some(v) => v, None => DEFAULT_MODE };
    if !utf8_valid(m.name.as_slice()) {
        return Err(Some(HeaderField::Name));
    }
    if mtime >= MTIME_LIMIT {
        return Err(Some(HeaderField::Mtime));
    }
    if uid >= ID_LIMIT {
        return Err(Some(HeaderField::Uid));
    }
    if gid >= ID_LIMIT {
        return Err(Some(HeaderField::Gid));
    }
    if mode >= MODE_LIMIT {
        return Err(Some(HeaderField::Mode));
    }
    if m.payload.len() as u64 >= SIZE_LIMIT {
        return Err(Some(HeaderField::Size));
    }
    if !can_index(m.payload.as_slice()) {
        return Err(None);
    }
    Ok(NewEntry {
        name: vstd::slice::slice_to_vec(m.name.as_slice()),
        mtime,
        uid: uid as u32,
        gid: gid as u32,
        perms: mode as u32,
        data: vstd::slice::slice_to_vec(m.payload.as_slice()),
    })
}

/// Writes `members`, in order, as a COFF archive container with a long-name
/// table for names that do not fit inline. Absent metadata is written as
/// mtime 0, uid 0, gid 0 and mode 0o644. Besides a value too large for its
/// header field, the archive writer sets these limits, each an error that
/// names the member where it can:
/// - a name must be UTF-8 text (the writer takes names as `String`);
/// - the writer must be able to index the member's symbols (`indexable`);
/// - the members together must fit 32-bit offsets (`fits_offsets`).
/// The writer also emits the COFF linker members (the symbol index) ahead of
/// the members. Within these limits the encode succeeds.
pub fn encode(members: &Vec<ArchiveMember>) -> (r: Result<Vec<u8>, EncodeError>)
    ensures
        encode_outcome(r) == encoded(member_views(members@)),
{
    let ghost ms = member_views(members@);
    let mut entries: Vec<NewEntry> = Vec::new();
    let mut i: usize = 0;
    while i < members.len()
        invariant
            0 <= i <= members@.len(),
            ms == member_views(members@),
            entries@.len() == i,
            forall|j: int| 0 <= j < i ==> (#[trigger] member_fault(ms[j])) is None,
            forall|j: int| 0 <= j < i ==> #[trigger] entry_view(entries@[j]) == new_entry_of(ms[j]),
        decreases members@.len() - i,
    {
        match new_entry(&members[i]) {
            Ok(e) => {
                entries.push(e);
            },
            Err(fault) => {
                proof {
                    let k = choose|k: int|
                        0 <= k < ms.len() && member_fault(ms[k]) is Some && forall|j: int|
                            0 <= j < k ==> (#[trigger] member_fault(ms[j])) is None;
                    if k < i {
                        assert(member_fault(ms[k]) is None);
                    } else if k > i {
                        assert(member_fault(ms[i as int]) is None);
                    }
                }
                return Err(match fault {
                    Some(field) => EncodeError::FieldOverflow { field, member_index: i },
                    None => EncodeError::UnreadableSymbols { member_index: i },
                });
            },
        }
        i = i + 1;
    }
    proof {
        assert(entries@.map_values(|e: NewEntry| entry_view(e)) =~= ms.map_values(|m: MemberView| new_entry_of(m)));
    }
    assert forall|i: int| 0 <= i < entries@.len() implies indexable(#[trigger] entries@[i].data@) by {
        assert(member_fault(ms[i]) is None);
        assert(entry_view(entries@[i]) == new_entry_of(ms[i]));
        reveal(member_fault);
    }
    assert forall|i: int| 0 <= i < entries@.len() implies is_utf8(#[trigger] entries@[i].name@) by {
        assert(member_fault(ms[i]) is None);
        assert(entry_view(entries@[i]) == new_entry_of(ms[i]));
        reveal(field_overflow);
        reveal(member_fault);
    }
    let ghost es = entries@.map_values(|e: NewEntry| entry_view(e));
    let mut total: u64 = ARCHIVE_BASE;
    let mut k: usize = 0;
    while k < entries.len()
        invariant
            0 <= k <= entries@.len(),
            es == entries@.map_values(|e: NewEntry| entry_view(e)),
            total == capped((ARCHIVE_BASE + entries_bytes(es.subrange(0, k as int))) as nat),
        decreases entries@.len() - k,
    {
        let e = &entries[k];
        let sb = symbol_bytes_capped(e.data.as_slice());
        let n = e.name.len() as u64;
        let d = e.data.len() as u64;
        proof {
            let pre = es.subrange(0, k + 1);
            assert(pre.drop_last() =~= es.subrange(0, k as int));
            assert(pre.last() == entry_view(*e));
        }
        if total >= OFFSET_LIMIT || sb >= OFFSET_LIMIT || n >= OFFSET_LIMIT || d >= OFFSET_LIMIT
            || total + 66 + n + d + sb >= OFFSET_LIMIT {
            total = OFFSET_LIMIT;
        } else {
            total = total + 66 + n + d + sb;
        }
        k = k + 1;
    }
    assert(es.subrange(0, es.len() as int) =~= es);
    if total >= OFFSET_LIMIT {
        return Err(EncodeError::ArchiveTooLarge);
    }
    assert forall|i: int| 0 <= i < entries@.len() implies (#[trigger] entries@[i]).data@.len() <= 9_999_999_999 by {
        assert(member_fault(ms[i]) is None);
        assert(entry_view(entries@[i]) == new_entry_of(ms[i]));
        reveal(field_overflow);
        reveal(member_fault);
    }
    match write_coff_archive(&entries) {
        Ok(bytes) => Ok(bytes),
        Err(_) => Err(EncodeError::ArchiveTooLarge),
    }
}

} // verus!
