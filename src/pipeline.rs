//! The whole filtering run: decode, classify, partition, encode.

use vstd::prelude::*;
use crate::classify::{ClassifyError, classification, classify, coff_section_names_of, is_import_record, outcome};
use crate::codec::{CodecError, EntryView, archive_entries_of, codec_fault, decode, decoded, lemma_fitting_offsets_increase, member_of};
use crate::encode::{EncodeError, HeaderField, encode, encode_outcome, encoded};
use crate::member::{ArchiveMember, ClassifiedMember, MemberKind, MemberView, classified_views, member_views};
use crate::partition::{PartitionPolicy, excluded_of, kept_of, lemma_offset_exclusion_wins, lemma_partition_complete, offset_key, offsets_distinct, partition};

verus! {

/// Why a run failed; the first fault met, in pipeline order.
#[derive(Debug)]
pub enum PipelineError {
    Decode(CodecError),
    /// The member whose data starts at `offset` could not be classified.
    Classify { offset: u64, error: ClassifyError },
    Encode(EncodeError),
}

/// The classification of a decoded member, as a plain outcome.
#[verifier::opaque]
pub open spec fn kind_of(m: MemberView) -> Result<MemberKind, Option<nat>> {
    classification(coff_section_names_of(m.payload), is_import_record(m.payload))
}

/// Every member paired with its kind, or the offset and fault of the first
/// member that cannot be classified.
pub open spec fn classified_all(ms: Seq<MemberView>) -> Result<Seq<(MemberView, MemberKind)>, (u64, Option<nat>)> {
    if forall|i: int| 0 <= i < ms.len() ==> (#[trigger] kind_of(ms[i])) is Ok {
        Ok(ms.map_values(|m: MemberView| (m, kind_of(m)->Ok_0)))
    } else {
        let k = choose|k: int|
            0 <= k < ms.len() && kind_of(ms[k]) is Err && forall|j: int|
                0 <= j < k ==> (#[trigger] kind_of(ms[j])) is Ok;
        Err((ms[k].offset, kind_of(ms[k])->Err_0))
    }
}

/// The fault of a failed run, as plain values.
pub ghost enum RunFault {
    Decode(Option<u64>),
    Classify(u64, Option<nat>),
    Encode(Option<(Option<HeaderField>, nat)>),
}

/// What a run on `src` under `policy` yields: the kept archive, and the
/// excluded archive when the policy captures it; or the first fault.
pub open spec fn run_result(src: Seq<u8>, policy: PartitionPolicy) -> Result<(Seq<u8>, Option<Seq<u8>>), RunFault> {
    match decoded(src) {
        Err(f) => Err(RunFault::Decode(f)),
        Ok(ms) => match classified_all(ms) {
            Err((offset, c)) => Err(RunFault::Classify(offset, c)),
            Ok(items) => match encoded(kept_of(items, policy)) {
                Err(e) => Err(RunFault::Encode(e)),
                Ok(kept) => if policy.capture_excluded {
                    match encoded(excluded_of(items, policy)) {
                        Err(e) => Err(RunFault::Encode(e)),
                        Ok(excluded) => Ok((kept, Some(excluded))),
                    }
                } else {
                    Ok((kept, None))
                },
            },
        },
    }
}

/// The plain outcome of a run.
pub open spec fn run_outcome(r: Result<(Vec<u8>, Option<Vec<u8>>), PipelineError>) -> Result<(Seq<u8>, Option<Seq<u8>>), RunFault> {
    match r {
        Ok((kept, excluded)) => Ok((
            kept@,
            match excluded {
                Some(x) => Some(x@),
                None => None,
            },
        )),
        Err(PipelineError::Decode(e)) => Err(RunFault::Decode(codec_fault(e))),
        Err(PipelineError::Classify { offset, error }) => Err(RunFault::Classify(offset, outcome(Err(error))->Err_0)),
        Err(PipelineError::Encode(e)) => Err(RunFault::Encode(encode_outcome(Err(e))->Err_0)),
    }
}

/// The classified members of one decoded archive have distinct data offsets.
pub proof fn lemma_run_offsets_distinct(src: Seq<u8>)
    requires
        decoded(src) is Ok,
        classified_all(decoded(src)->Ok_0) is Ok,
    ensures
        offsets_distinct(classified_all(decoded(src)->Ok_0)->Ok_0),
{
    let es = archive_entries_of(src)->Some_0;
    let ms = decoded(src)->Ok_0;
    let items = classified_all(ms)->Ok_0;
    assert(ms == es.map_values(|e: Option<EntryView>| member_of(e->Some_0, src)));
    assert(items == ms.map_values(|m: MemberView| (m, kind_of(m)->Ok_0)));
    assert forall|i: int, j: int|
        0 <= i < items.len() && 0 <= j < items.len() && i != j implies #[trigger] items[i].0.offset
        != #[trigger] items[j].0.offset by {
        if i < j {
            lemma_fitting_offsets_increase(es, src, i, j);
        } else {
            lemma_fitting_offsets_increase(es, src, j, i);
        }
    }
}

/// In a run that gets past classification, every member of the archive goes
/// to exactly one of the kept and the excluded lists that are encoded: the
/// excluded list holds it exactly when the policy excludes it, and the two
/// lengths add up to the number of members.
pub proof fn lemma_run_split_complete(src: Seq<u8>, policy: PartitionPolicy)
    requires
        decoded(src) is Ok,
        classified_all(decoded(src)->Ok_0) is Ok,
    ensures
        ({
            let items = classified_all(decoded(src)->Ok_0)->Ok_0;
            &&& items.len() == decoded(src)->Ok_0.len()
            &&& kept_of(items, policy).len() + excluded_of(items, policy).len() == items.len()
            &&& forall|i: int|
                0 <= i < items.len() ==> (kept_of(items, policy).contains(#[trigger] items[i].0)
                    <==> !policy.excludes(items[i]))
            &&& forall|i: int|
                0 <= i < items.len() ==> (excluded_of(items, policy).contains(#[trigger] items[i].0)
                    <==> policy.excludes(items[i]))
        }),
{
    lemma_run_offsets_distinct(src);
    lemma_partition_complete(classified_all(decoded(src)->Ok_0)->Ok_0, policy);
}

/// In a run that gets past classification, a member whose offset is listed
/// in the policy is left out of the kept list and is in the excluded list,
/// whatever its kind.
pub proof fn lemma_run_offset_exclusion(src: Seq<u8>, policy: PartitionPolicy, i: int)
    requires
        decoded(src) is Ok,
        classified_all(decoded(src)->Ok_0) is Ok,
        0 <= i < decoded(src)->Ok_0.len(),
        policy.exclude_offsets@.contains(offset_key(decoded(src)->Ok_0[i].offset)),
    ensures
        !kept_of(classified_all(decoded(src)->Ok_0)->Ok_0, policy).contains(decoded(src)->Ok_0[i]),
        excluded_of(classified_all(decoded(src)->Ok_0)->Ok_0, policy).contains(decoded(src)->Ok_0[i]),
{
    let items = classified_all(decoded(src)->Ok_0)->Ok_0;
    lemma_run_offsets_distinct(src);
    assert(items[i].0 == decoded(src)->Ok_0[i]);
    lemma_offset_exclusion_wins(items, policy, i);
}

/// Pairs a member with its kind.
fn classify_member(m: &ArchiveMember) -> (r: Result<ClassifiedMember, ClassifyError>)
    ensures
        match r {
            Ok(c) => kind_of(m@) is Ok && c@ == (m@, kind_of(m@)->Ok_0),
            Err(e) => kind_of(m@) == outcome(Err(e)),
        },
{
    reveal(kind_of);
    match classify(m.payload.as_slice()) {
        Ok(kind) => Ok(ClassifiedMember { member: m.duplicate(), kind }),
        Err(e) => Err(e),
    }
}

/// Pairs every member with its kind, stopping at the first member that
/// cannot be classified.
fn classify_members(members: &Vec<ArchiveMember>) -> (r: Result<Vec<ClassifiedMember>, PipelineError>)
    ensures
        match (r, classified_all(member_views(members@))) {
            (Ok(items), Ok(cs)) => classified_views(items@) == cs,
            (Err(PipelineError::Classify { offset, error }), Err((o, c))) => offset == o && outcome(Err(error))->Err_0 == c,
            _ => false,
        },
{
    let ghost ms = member_views(members@);
    let mut items: Vec<ClassifiedMember> = Vec::new();
    let mut i: usize = 0;
    while i < members.len()
        invariant
            0 <= i <= members@.len(),
            ms == member_views(members@),
            items@.len() == i,
            forall|j: int| 0 <= j < i ==> (#[trigger] kind_of(ms[j])) is Ok,
            forall|j: int| 0 <= j < i ==> #[trigger] items@[j]@ == (ms[j], kind_of(ms[j])->Ok_0),
        decreases members@.len() - i,
    {
        let m = &members[i];
        assert(ms[i as int] == m@);
        match classify_member(m) {
            Ok(item) => {
                items.push(item);
            },
            Err(error) => {
                proof {
                    let k = choose|k: int|
                        0 <= k < ms.len() && kind_of(ms[k]) is Err && forall|j: int|
                            0 <= j < k ==> (#[trigger] kind_of(ms[j])) is Ok;
                    if k < i {
                        assert(kind_of(ms[k]) is Ok);
                    } else if k > i {
                        assert(kind_of(ms[i as int]) is Ok);
                    }
                }
                return Err(PipelineError::Classify { offset: m.offset, error });
            },
        }
        i = i + 1;
    }
    proof {
        assert(classified_views(items@) =~= ms.map_values(|m: MemberView| (m, kind_of(m)->Ok_0)));
    }
    Ok(items)
}

/// Decodes `src`, classifies every member, partitions the members by
/// `policy` and encodes the kept members, and the excluded ones when the
/// policy captures them. Either every requested archive is produced or none
/// is, and the error is the first fault met.
pub fn run(src: &[u8], policy: &PartitionPolicy) -> (r: Result<(Vec<u8>, Option<Vec<u8>>), PipelineError>)
    ensures
        run_outcome(r) == run_result(src@, *policy),
        r is Ok ==> (r->Ok_0.1 is Some <==> policy.capture_excluded),
{
    let members = match decode(src) {
        Ok(ms) => ms,
        Err(e) => {
            return Err(PipelineError::Decode(e));
        },
    };
    let items = match classify_members(&members) {
        Ok(items) => items,
        Err(e) => {
            return Err(e);
        },
    };
    let parts = partition(&items, policy);
    let kept = match encode(&parts.kept) {
        Ok(b) => b,
        Err(e) => {
            return Err(PipelineError::Encode(e));
        },
    };
    if policy.capture_excluded {
        match encode(&parts.excluded) {
            Ok(x) => Ok((kept, Some(x))),
            Err(e) => Err(PipelineError::Encode(e)),
        }
    } else {
        Ok((kept, None))
    }
}

} // verus!
