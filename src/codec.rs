//! Reading an archive container into its members, and listing them.

use vstd::prelude::*;
use crate::member::{ArchiveMember, MemberView, member_views};
use object::read::archive::ArchiveFile;

verus! {

/// Length of the container's magic signature; member data always lies past it.
pub const MAGIC_LEN: u64 = 8;

/// A member's header as the archive reader reports it: its name (long names
/// already resolved), the offset and length of its data, and its metadata.
#[derive(Debug)]
pub struct MemberEntry {
    pub name: Vec<u8>,
    pub offset: u64,
    pub size: u64,
    pub mtime: Option<u64>,
    pub uid: Option<u64>,
    pub gid: Option<u64>,
    pub mode: Option<u64>,
}

/// The mathematical value of a [`MemberEntry`].
pub ghost struct EntryView {
    pub name: Seq<u8>,
    pub offset: u64,
    pub size: u64,
    pub mtime: Option<u64>,
    pub uid: Option<u64>,
    pub gid: Option<u64>,
    pub mode: Option<u64>,
}

impl View for MemberEntry {
    type V = EntryView;

    open spec fn view(&self) -> EntryView {
        EntryView {
            name: self.name@,
            offset: self.offset,
            size: self.size,
            mtime: self.mtime,
            uid: self.uid,
            gid: self.gid,
            mode: self.mode,
        }
    }
}

/// The ordinary members of an archive as the `object` crate reads them:
/// `None` when the container is refused, else one entry per member in
/// container order, `None` for a member that could not be read (the reader
/// stops there). The symbol index and long-name table are not members.
pub uninterp spec fn archive_entries_of(data: Seq<u8>) -> Option<Seq<Option<EntryView>>>;

/// The view of what the reader returned for each member.
pub open spec fn entries_view(es: Seq<Result<MemberEntry, object::read::Error>>) -> Seq<Option<EntryView>> {
    es.map_values(
        |e: Result<MemberEntry, object::read::Error>|
            match e {
                Ok(m) => Some(m@),
                Err(_) => None,
            },
    )
}

/// Relies on object's `ArchiveFile::parse` and `ArchiveFile::members`, and on
/// `ArchiveMember::{name, file_range, date, uid, gid, mode}`: the container's
/// ordinary members with their resolved names, data ranges and header fields.
#[verifier::external_body]
fn read_archive_entries(data: &[u8]) -> (r: Result<Vec<Result<MemberEntry, object::read::Error>>, object::read::Error>)
    ensures
        match r {
            Ok(es) => archive_entries_of(data@) == Some(entries_view(es@)),
            Err(_) => archive_entries_of(data@) is None,
        },
{
    let archive = ArchiveFile::parse(data)?;
    Ok(archive.members().map(|m| m.map(|m| MemberEntry {
        name: m.name().to_vec(),
        offset: m.file_range().0,
        size: m.file_range().1,
        mtime: m.date(),
        uid: m.uid(),
        gid: m.gid(),
        mode: m.mode(),
    })).collect())
}

/// Why an archive could not be read.
#[derive(Debug)]
pub enum CodecError {
    /// The input is not an archive container; `cause` is the reader's error.
    NotAnArchive { cause: object::read::Error },
    /// A member is malformed or its data lies outside the input; `offset` is
    /// where the fault was found.
    CorruptMember { offset: u64 },
}

/// The plain outcome of a codec error: `None` for a refused container,
/// `Some(offset)` for a corrupt member.
pub open spec fn codec_fault(e: CodecError) -> Option<u64> {
    match e {
        CodecError::NotAnArchive { .. } => None,
        CodecError::CorruptMember { offset } => Some(offset),
    }
}

/// Where the data of the member before entry `i` ends (the end of the magic
/// for the first entry), saturated at the largest `u64`.
pub open spec fn end_before(es: Seq<Option<EntryView>>, i: int) -> u64 {
    if i <= 0 {
        MAGIC_LEN
    } else {
        match es[i - 1] {
            Some(e) => if e.offset + e.size <= u64::MAX {
                (e.offset + e.size) as u64
            } else {
                u64::MAX
            },
            None => MAGIC_LEN,
        }
    }
}

/// Entry `i` was read, its data starts after the previous member's data and
/// lies within `src`.
pub open spec fn entry_fits(es: Seq<Option<EntryView>>, src: Seq<u8>, i: int) -> bool {
    match es[i] {
        Some(e) => end_before(es, i) < e.offset && e.offset + e.size <= src.len(),
        None => false,
    }
}

/// All entries before `n` fit.
pub open spec fn fit_upto(es: Seq<Option<EntryView>>, src: Seq<u8>, n: int) -> bool {
    forall|i: int| 0 <= i < n ==> #[trigger] entry_fits(es, src, i)
}

/// Where the fault of entry `k` is reported: past the previous member for
/// an entry that could not be read, else at the entry's data.
pub open spec fn fault_offset(es: Seq<Option<EntryView>>, k: int) -> u64 {
    match es[k] {
        Some(e) => e.offset,
        None => end_before(es, k),
    }
}

/// The member that entry `e` describes in `src`.
pub open spec fn member_of(e: EntryView, src: Seq<u8>) -> MemberView {
    MemberView {
        name: e.name,
        offset: e.offset,
        payload: src.subrange(e.offset as int, e.offset + e.size),
        mtime: e.mtime,
        uid: e.uid,
        gid: e.gid,
        mode: e.mode,
    }
}

/// The members that the reader's entries describe in `src`, in container
/// order, when every entry fits; else the fault of the first entry that does
/// not.
pub open spec fn members_of(es: Seq<Option<EntryView>>, src: Seq<u8>) -> Result<Seq<MemberView>, u64> {
    if fit_upto(es, src, es.len() as int) {
        Ok(es.map_values(|e: Option<EntryView>| member_of(e->Some_0, src)))
    } else {
        Err(fault_offset(es, choose|k: int| 0 <= k < es.len() && !entry_fits(es, src, k) && fit_upto(es, src, k)))
    }
}

/// What decoding `src` yields.
pub open spec fn decoded(src: Seq<u8>) -> Result<Seq<MemberView>, Option<u64>> {
    match archive_entries_of(src) {
        None => Err(None),
        Some(es) => match members_of(es, src) {
            Ok(ms) => Ok(ms),
            Err(offset) => Err(Some(offset)),
        },
    }
}

/// The plain outcome of a decode.
pub open spec fn decode_outcome(r: Result<Vec<ArchiveMember>, CodecError>) -> Result<Seq<MemberView>, Option<u64>> {
    match r {
        Ok(ms) => Ok(member_views(ms@)),
        Err(e) => Err(codec_fault(e)),
    }
}

/// Data ranges of decoded members are increasing and do not overlap.
pub open spec fn ranges_ordered(ms: Seq<MemberView>) -> bool {
    forall|i: int, j: int| 0 <= i < j < ms.len() ==> #[trigger] ms[i].offset + ms[i].payload.len() < #[trigger] ms[j].offset
}

proof fn lemma_first_fault(es: Seq<Option<EntryView>>, src: Seq<u8>, k: int)
    requires
        0 <= k < es.len(),
        !entry_fits(es, src, k),
        fit_upto(es, src, k),
    ensures
        (choose|j: int| 0 <= j < es.len() && !entry_fits(es, src, j) && fit_upto(es, src, j)) == k,
{
    let j = choose|j: int| 0 <= j < es.len() && !entry_fits(es, src, j) && fit_upto(es, src, j);
    if j < k {
        assert(entry_fits(es, src, j));
    } else if j > k {
        assert(entry_fits(es, src, k));
    }
}

/// When every entry fits, the entries' data offsets strictly increase.
pub proof fn lemma_fitting_offsets_increase(es: Seq<Option<EntryView>>, src: Seq<u8>, i: int, j: int)
    requires
        fit_upto(es, src, es.len() as int),
        0 <= i < j < es.len(),
    ensures
        es[i]->Some_0.offset < es[j]->Some_0.offset,
    decreases j - i,
{
    assert(entry_fits(es, src, j));
    assert(entry_fits(es, src, j - 1));
    if i < j - 1 {
        lemma_fitting_offsets_increase(es, src, i, j - 1);
    }
}

/// Builds the members that the reader's entries describe in `src`: each
/// member's data must start after the previous member's data and lie within
/// `src`.
pub fn members_from_entries(src: &[u8], entries: &Vec<Result<MemberEntry, object::read::Error>>) -> (r: Result<Vec<ArchiveMember>, CodecError>)
    ensures
        decode_outcome(r) == match members_of(entries_view(entries@), src@) {
            Ok(ms) => Ok(ms),
            Err(offset) => Err(Some(offset)),
        },
        r is Ok ==> ranges_ordered(member_views(r->Ok_0@)),
{
    let ghost es = entries_view(entries@);
    let mut members: Vec<ArchiveMember> = Vec::new();
    let mut end: u64 = MAGIC_LEN;
    let mut i: usize = 0;
    while i < entries.len()
        invariant
            0 <= i <= entries@.len(),
            es == entries_view(entries@),
            fit_upto(es, src@, i as int),
            end == end_before(es, i as int),
            end <= src@.len() || i == 0,
            members@.len() == i,
            forall|j: int| 0 <= j < i ==> #[trigger] members@[j]@ == member_of(es[j]->Some_0, src@),
            forall|j: int| 0 <= j < i ==> #[trigger] members@[j]@.offset + members@[j]@.payload.len() <= end,
            ranges_ordered(member_views(members@)),
        decreases entries@.len() - i,
    {
        match &entries[i] {
            Err(_) => {
                proof {
                    lemma_first_fault(es, src@, i as int);
                }
                return Err(CodecError::CorruptMember { offset: end });
            },
            Ok(e) => {
                if !(end < e.offset && e.offset <= src.len() as u64 && e.size <= src.len() as u64 - e.offset) {
                    proof {
                        lemma_first_fault(es, src@, i as int);
                    }
                    return Err(CodecError::CorruptMember { offset: e.offset });
                }
                let start = e.offset as usize;
                let stop = (e.offset + e.size) as usize;
                let payload = vstd::slice::slice_to_vec(vstd::slice::slice_subrange(src, start, stop));
                let m = ArchiveMember {
                    name: vstd::slice::slice_to_vec(e.name.as_slice()),
                    offset: e.offset,
                    payload,
                    mtime: e.mtime,
                    uid: e.uid,
                    gid: e.gid,
                    mode: e.mode,
                };
                let ghost before = members@;
                members.push(m);
                end = e.offset + e.size;
                proof {
                    assert(entry_fits(es, src@, i as int));
                    assert(member_views(members@) == member_views(before).push(m@));
                }
            },
        }
        i = i + 1;
    }
    proof {
        assert(member_views(members@) =~= es.map_values(|e: Option<EntryView>| member_of(e->Some_0, src@)));
    }
    Ok(members)
}

/// Reads the members of an archive, in container order. A member's data must
/// start after the previous member's data and lie within `src`.
pub fn decode(src: &[u8]) -> (r: Result<Vec<ArchiveMember>, CodecError>)
    ensures
        decode_outcome(r) == decoded(src@),
        r is Ok ==> ranges_ordered(member_views(r->Ok_0@)),
{
    match read_archive_entries(src) {
        Ok(entries) => members_from_entries(src, &entries),
        Err(cause) => Err(CodecError::NotAnArchive { cause }),
    }
}

/// One line of an archive listing: where a member's data starts, its length
/// and its name.
#[derive(Debug)]
pub struct ListedMember {
    pub offset: u64,
    pub size: u64,
    pub name: Vec<u8>,
}

/// The (offset, size, name) of each entry in container order when every
/// entry fits in `src` (as for decoding); else the fault of the first entry
/// that does not.
pub open spec fn listing_of(es: Seq<Option<EntryView>>, src: Seq<u8>) -> Result<Seq<(u64, u64, Seq<u8>)>, u64> {
    if fit_upto(es, src, es.len() as int) {
        Ok(es.map_values(|e: Option<EntryView>| (e->Some_0.offset, e->Some_0.size, e->Some_0.name)))
    } else {
        Err(fault_offset(es, choose|k: int| 0 <= k < es.len() && !entry_fits(es, src, k) && fit_upto(es, src, k)))
    }
}

/// Listed ranges increase, do not overlap, and lie within `src`.
pub open spec fn listed_ordered(ls: Seq<(u64, u64, Seq<u8>)>, src: Seq<u8>) -> bool {
    &&& forall|i: int| 0 <= i < ls.len() ==> #[trigger] ls[i].0 + ls[i].1 <= src.len()
    &&& forall|i: int, j: int| 0 <= i < j < ls.len() ==> #[trigger] ls[i].0 + ls[i].1 < #[trigger] ls[j].0
}

/// What listing `src` yields.
pub open spec fn listing(src: Seq<u8>) -> Result<Seq<(u64, u64, Seq<u8>)>, Option<u64>> {
    match archive_entries_of(src) {
        None => Err(None),
        Some(es) => match listing_of(es, src) {
            Ok(l) => Ok(l),
            Err(offset) => Err(Some(offset)),
        },
    }
}

/// The plain outcome of a listing.
pub open spec fn listing_outcome(r: Result<Vec<ListedMember>, CodecError>) -> Result<Seq<(u64, u64, Seq<u8>)>, Option<u64>> {
    match r {
        Ok(ls) => Ok(ls@.map_values(|l: ListedMember| (l.offset, l.size, l.name@))),
        Err(e) => Err(codec_fault(e)),
    }
}

/// The listing lines for the reader's entries: each member's data must
/// start after the previous member's data and lie within `src`.
pub fn listed_from_entries(src: &[u8], entries: &Vec<Result<MemberEntry, object::read::Error>>) -> (r: Result<Vec<ListedMember>, CodecError>)
    ensures
        listing_outcome(r) == match listing_of(entries_view(entries@), src@) {
            Ok(l) => Ok(l),
            Err(offset) => Err(Some(offset)),
        },
        r is Ok ==> listed_ordered(listing_outcome(r)->Ok_0, src@),
{
    let ghost es = entries_view(entries@);
    let ghost line = |l: ListedMember| (l.offset, l.size, l.name@);
    let mut out: Vec<ListedMember> = Vec::new();
    let mut end: u64 = MAGIC_LEN;
    let mut i: usize = 0;
    while i < entries.len()
        invariant
            0 <= i <= entries@.len(),
            es == entries_view(entries@),
            fit_upto(es, src@, i as int),
            end == end_before(es, i as int),
            end <= src@.len() || i == 0,
            out@.len() == i,
            forall|l: ListedMember| #[trigger] line(l) == (l.offset, l.size, l.name@),
            forall|j: int| 0 <= j < i ==> (#[trigger] out@[j]).offset == es[j]->Some_0.offset
                && out@[j].size == es[j]->Some_0.size && out@[j].name@ == es[j]->Some_0.name,
            forall|j: int| 0 <= j < i ==> #[trigger] out@[j].offset + out@[j].size <= end,
            listed_ordered(out@.map_values(line), src@),
        decreases entries@.len() - i,
    {
        match &entries[i] {
            Err(_) => {
                proof {
                    lemma_first_fault(es, src@, i as int);
                }
                return Err(CodecError::CorruptMember { offset: end });
            },
            Ok(e) => {
                if !(end < e.offset && e.offset <= src.len() as u64 && e.size <= src.len() as u64 - e.offset) {
                    proof {
                        lemma_first_fault(es, src@, i as int);
                    }
                    return Err(CodecError::CorruptMember { offset: e.offset });
                }
                let l = ListedMember { offset: e.offset, size: e.size, name: vstd::slice::slice_to_vec(e.name.as_slice()) };
                let ghost before = out@;
                out.push(l);
                end = e.offset + e.size;
                proof {
                    assert(entry_fits(es, src@, i as int));
                    assert(out@.map_values(line) =~= before.map_values(line).push(line(l)));
                }
            },
        }
        i = i + 1;
    }
    proof {
        assert(out@.map_values(line) =~= es.map_values(
            |e: Option<EntryView>| (e->Some_0.offset, e->Some_0.size, e->Some_0.name),
        ));
        assert(out@.map_values(|l: ListedMember| (l.offset, l.size, l.name@)) =~= out@.map_values(line));
    }
    Ok(out)
}

/// Lists the members of an archive without copying their data. A member's
/// data must start after the previous member's data and lie within `src`.
pub fn list_members(src: &[u8]) -> (r: Result<Vec<ListedMember>, CodecError>)
    ensures
        listing_outcome(r) == listing(src@),
        r is Ok ==> listed_ordered(listing_outcome(r)->Ok_0, src@),
{
    match read_archive_entries(src) {
        Ok(entries) => listed_from_entries(src, &entries),
        Err(cause) => Err(CodecError::NotAnArchive { cause }),
    }
}

/// Listing the same archive twice gives the same (offset, size, name)
/// sequence, or the same fault.
pub proof fn lemma_listing_repeatable(
    src: Seq<u8>,
    first: Result<Vec<ListedMember>, CodecError>,
    second: Result<Vec<ListedMember>, CodecError>,
)
    requires
        listing_outcome(first) == listing(src),
        listing_outcome(second) == listing(src),
    ensures
        listing_outcome(first) == listing_outcome(second),
{
}

} // verus!
