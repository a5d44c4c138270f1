//! Splitting classified members into the kept and the excluded lists.

use vstd::prelude::*;
use crate::member::{ArchiveMember, ClassifiedMember, MemberKind, MemberView, classified_views, member_views};

verus! {

/// Which members to leave out of the rebuilt archive.
#[derive(Debug)]
pub struct PartitionPolicy {
    /// Data offsets of members to exclude whatever their kind; an offset is
    /// compared after truncation to 32 bits.
    pub exclude_offsets: Vec<u32>,
    /// Exclude every member that contributes to an import table.
    pub exclude_import_members: bool,
    /// Keep the excluded members, so that they can be written out too.
    pub capture_excluded: bool,
}

/// The two lists that a partition produces, each in container order.
#[derive(Debug)]
pub struct PartitionResult {
    pub kept: Vec<ArchiveMember>,
    pub excluded: Vec<ArchiveMember>,
}

/// The 32-bit key under which a member's offset is looked up.
pub open spec fn offset_key(offset: u64) -> u32 {
    (offset % 0x1_0000_0000) as u32
}

impl PartitionPolicy {
    /// The policy's decision for one member: excluded by its offset, or by
    /// its kind when import contributors are excluded.
    pub open spec fn excludes(&self, item: (MemberView, MemberKind)) -> bool {
        ||| self.exclude_offsets@.contains(offset_key(item.0.offset))
        ||| (self.exclude_import_members && item.1.contributes_imports())
    }

    /// Whether `offset`, truncated to 32 bits, is one of the excluded offsets.
    pub fn excludes_offset(&self, offset: u64) -> (r: bool)
        ensures
            r == self.exclude_offsets@.contains(offset_key(offset)),
    {
        let key = (offset % 0x1_0000_0000u64) as u32;
        let mut i: usize = 0;
        while i < self.exclude_offsets.len()
            invariant
                0 <= i <= self.exclude_offsets@.len(),
                key == offset_key(offset),
                forall|j: int| 0 <= j < i ==> self.exclude_offsets@[j] != key,
            decreases self.exclude_offsets@.len() - i,
        {
            if self.exclude_offsets[i] == key {
                assert(self.exclude_offsets@[i as int] == offset_key(offset));
                return true;
            }
            i = i + 1;
        }
        proof {
            if self.exclude_offsets@.contains(key) {
                let j = choose|j: int| 0 <= j < self.exclude_offsets@.len() && self.exclude_offsets@[j] == key;
                assert(self.exclude_offsets@[j] != key);
            }
        }
        false
    }

    /// The policy's decision for one classified member.
    pub fn decide(&self, item: &ClassifiedMember) -> (r: bool)
        ensures
            r == self.excludes(item@),
    {
        if self.excludes_offset(item.member.offset) {
            true
        } else {
            self.exclude_import_members && item.kind.is_import_contributor()
        }
    }
}

/// The members that `policy` keeps, in order.
pub open spec fn kept_of(items: Seq<(MemberView, MemberKind)>, policy: PartitionPolicy) -> Seq<MemberView> {
    items.filter(|x: (MemberView, MemberKind)| !policy.excludes(x)).map_values(|x: (MemberView, MemberKind)| x.0)
}

/// The members that `policy` excludes, in order.
pub open spec fn excluded_of(items: Seq<(MemberView, MemberKind)>, policy: PartitionPolicy) -> Seq<MemberView> {
    items.filter(|x: (MemberView, MemberKind)| policy.excludes(x)).map_values(|x: (MemberView, MemberKind)| x.0)
}

/// The excluded list as a partition hands it out: empty unless the policy
/// captures excluded members.
pub open spec fn captured_of(items: Seq<(MemberView, MemberKind)>, policy: PartitionPolicy) -> Seq<MemberView> {
    if policy.capture_excluded {
        excluded_of(items, policy)
    } else {
        Seq::empty()
    }
}

/// No two members share a data offset, as in a decoded archive.
pub open spec fn offsets_distinct(items: Seq<(MemberView, MemberKind)>) -> bool {
    forall|i: int, j: int|
        0 <= i < items.len() && 0 <= j < items.len() && i != j ==> #[trigger] items[i].0.offset
            != #[trigger] items[j].0.offset
}

/// Every member lands in exactly one of the two lists: the kept list holds
/// it exactly when the policy does not exclude it, the excluded list exactly
/// when it does, and both lists only hold members of the input. Hence the
/// two lengths add up to the number of members (which the handed-out lists
/// do whenever excluded members are captured), and the kept list is never
/// longer than the input.
pub proof fn lemma_partition_complete(items: Seq<(MemberView, MemberKind)>, policy: PartitionPolicy)
    requires
        offsets_distinct(items),
    ensures
        kept_of(items, policy).len() + excluded_of(items, policy).len() == items.len(),
        policy.capture_excluded ==> kept_of(items, policy).len() + captured_of(items, policy).len()
            == items.len(),
        kept_of(items, policy).len() <= items.len(),
        forall|i: int|
            0 <= i < items.len() ==> (kept_of(items, policy).contains(#[trigger] items[i].0)
                <==> !policy.excludes(items[i])),
        forall|i: int|
            0 <= i < items.len() ==> (excluded_of(items, policy).contains(#[trigger] items[i].0)
                <==> policy.excludes(items[i])),
        forall|m: MemberView|
            #[trigger] kept_of(items, policy).contains(m) ==> exists|i: int|
                0 <= i < items.len() && items[i].0 == m,
        forall|m: MemberView|
            #[trigger] excluded_of(items, policy).contains(m) ==> exists|i: int|
                0 <= i < items.len() && items[i].0 == m,
    decreases items.len(),
{
    let keep = |x: (MemberView, MemberKind)| !policy.excludes(x);
    let drop = |x: (MemberView, MemberKind)| policy.excludes(x);
    let first = |x: (MemberView, MemberKind)| x.0;
    if items.len() == 0 {
        reveal(Seq::filter);
        assert(kept_of(items, policy) =~= Seq::empty());
        assert(excluded_of(items, policy) =~= Seq::empty());
    } else {
        let s = items.drop_last();
        let e = items.last();
        assert(items == s.push(e));
        assert(offsets_distinct(s)) by {
            assert forall|i: int, j: int|
                0 <= i < s.len() && 0 <= j < s.len() && i != j implies #[trigger] s[i].0.offset
                != #[trigger] s[j].0.offset by {
                assert(s[i] == items[i] && s[j] == items[j]);
            }
        }
        lemma_partition_complete(s, policy);
        s.lemma_filter_push(e, keep);
        s.lemma_filter_push(e, drop);
        s.filter(keep).lemma_push_map_commute(first, e);
        s.filter(drop).lemma_push_map_commute(first, e);
        let ks = kept_of(s, policy);
        let xs = excluded_of(s, policy);
        let k = kept_of(items, policy);
        let x = excluded_of(items, policy);
        if keep(e) {
            assert(k == ks.push(e.0));
            assert(x == xs);
        } else {
            assert(k == ks);
            assert(x == xs.push(e.0));
        }
        assert forall|m: MemberView| #[trigger] k.contains(m) implies exists|i: int|
            0 <= i < items.len() && items[i].0 == m by {
            if m == e.0 {
                assert(items[items.len() - 1].0 == m);
            } else {
                let j = choose|j: int| 0 <= j < k.len() && k[j] == m;
                assert(ks.contains(m)) by {
                    assert(ks[j] == m);
                }
                let i = choose|i: int| 0 <= i < s.len() && s[i].0 == m;
                assert(items[i].0 == m);
            }
        }
        assert forall|m: MemberView| #[trigger] x.contains(m) implies exists|i: int|
            0 <= i < items.len() && items[i].0 == m by {
            if m == e.0 {
                assert(items[items.len() - 1].0 == m);
            } else {
                let j = choose|j: int| 0 <= j < x.len() && x[j] == m;
                assert(xs.contains(m)) by {
                    assert(xs[j] == m);
                }
                let i = choose|i: int| 0 <= i < s.len() && s[i].0 == m;
                assert(items[i].0 == m);
            }
        }
        assert forall|i: int| 0 <= i < items.len() implies (k.contains(#[trigger] items[i].0)
            <==> !policy.excludes(items[i])) && (x.contains(items[i].0) <==> policy.excludes(
            items[i],
        )) by {
            let last = items.len() - 1;
            if i == last {
                if keep(e) {
                    assert(k[k.len() - 1] == e.0);
                    if xs.contains(e.0) {
                        let j = choose|j: int| 0 <= j < s.len() && s[j].0 == e.0;
                        assert(items[j].0.offset == items[last].0.offset);
                    }
                } else {
                    assert(x[x.len() - 1] == e.0);
                    if ks.contains(e.0) {
                        let j = choose|j: int| 0 <= j < s.len() && s[j].0 == e.0;
                        assert(items[j].0.offset == items[last].0.offset);
                    }
                }
            } else {
                assert(items[i] == s[i]);
                assert(items[i].0 != e.0) by {
                    assert(items[i].0.offset != items[last].0.offset);
                }
                if ks.contains(items[i].0) {
                    let j = choose|j: int| 0 <= j < ks.len() && ks[j] == items[i].0;
                    assert(k[j] == items[i].0);
                }
                if xs.contains(items[i].0) {
                    let j = choose|j: int| 0 <= j < xs.len() && xs[j] == items[i].0;
                    assert(x[j] == items[i].0);
                }
                if k.contains(items[i].0) {
                    let j = choose|j: int| 0 <= j < k.len() && k[j] == items[i].0;
                    assert(ks[j] == items[i].0);
                }
                if x.contains(items[i].0) {
                    let j = choose|j: int| 0 <= j < x.len() && x[j] == items[i].0;
                    assert(xs[j] == items[i].0);
                }
            }
        }
    }
}

/// A member whose offset is listed in the policy is excluded, whatever its
/// kind and whether or not import contributors are excluded.
pub proof fn lemma_offset_exclusion_wins(
    items: Seq<(MemberView, MemberKind)>,
    policy: PartitionPolicy,
    i: int,
)
    requires
        offsets_distinct(items),
        0 <= i < items.len(),
        policy.exclude_offsets@.contains(offset_key(items[i].0.offset)),
    ensures
        !kept_of(items, policy).contains(items[i].0),
        excluded_of(items, policy).contains(items[i].0),
        policy.capture_excluded ==> captured_of(items, policy).contains(items[i].0),
{
    lemma_partition_complete(items, policy);
}

/// Splits `items` into the members that `policy` keeps and those it
/// excludes, keeping container order in both lists. Excluded members are
/// only collected when the policy captures them.
pub fn partition(items: &Vec<ClassifiedMember>, policy: &PartitionPolicy) -> (r: PartitionResult)
    ensures
        member_views(r.kept@) == kept_of(classified_views(items@), *policy),
        member_views(r.excluded@) == captured_of(classified_views(items@), *policy),
{
    let ghost all = classified_views(items@);
    let ghost keep = |x: (MemberView, MemberKind)| !policy.excludes(x);
    let ghost drop = |x: (MemberView, MemberKind)| policy.excludes(x);
    let ghost first = |x: (MemberView, MemberKind)| x.0;
    let mut kept: Vec<ArchiveMember> = Vec::new();
    let mut excluded: Vec<ArchiveMember> = Vec::new();
    let mut i: usize = 0;
    while i < items.len()
        invariant
            0 <= i <= items@.len(),
            all == classified_views(items@),
            forall|x: (MemberView, MemberKind)| #[trigger] keep(x) == !policy.excludes(x),
            forall|x: (MemberView, MemberKind)| #[trigger] drop(x) == policy.excludes(x),
            forall|x: (MemberView, MemberKind)| #[trigger] first(x) == x.0,
            member_views(kept@) == all.subrange(0, i as int).filter(keep).map_values(first),
            member_views(excluded@) == if policy.capture_excluded {
                all.subrange(0, i as int).filter(drop).map_values(first)
            } else {
                Seq::empty()
            },
        decreases items@.len() - i,
    {
        let item = &items[i];
        let out = policy.decide(item);
        let ghost before = all.subrange(0, i as int);
        proof {
            assert(all.subrange(0, i + 1) == before.push(item@));
            before.lemma_filter_push(item@, keep);
            before.lemma_filter_push(item@, drop);
            assert(keep(item@) == !out);
            assert(drop(item@) == out);
            assert(first(item@) == item.member@);
        }
        if out {
            if policy.capture_excluded {
                let ghost old_ex = excluded@;
                excluded.push(item.member.duplicate());
                proof {
                    before.filter(drop).lemma_push_map_commute(first, item@);
                    assert(member_views(excluded@) == member_views(old_ex).push(item.member@));
                }
            }
        } else {
            let ghost old_kept = kept@;
            kept.push(item.member.duplicate());
            proof {
                before.filter(keep).lemma_push_map_commute(first, item@);
                assert(member_views(kept@) == member_views(old_kept).push(item.member@));
            }
        }
        i = i + 1;
    }
    proof {
        assert(all.subrange(0, items@.len() as int) == all);
    }
    PartitionResult { kept, excluded }
}

} // verus!
