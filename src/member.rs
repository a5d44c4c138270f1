//! The data model shared by the codec, the classifier and the partition.

use vstd::prelude::*;

verus! {

/// One member of an archive, as read from the container.
///
/// `offset` is the position of the member's data (just past its header) in
/// the source buffer; it is the identity used for offset-based exclusion.
/// The length of the member's data is `payload.len()`.
#[derive(Debug)]
pub struct ArchiveMember {
    pub name: Vec<u8>,
    pub offset: u64,
    pub payload: Vec<u8>,
    pub mtime: Option<u64>,
    pub uid: Option<u64>,
    pub gid: Option<u64>,
    pub mode: Option<u64>,
}

/// The mathematical value of an [`ArchiveMember`].
pub ghost struct MemberView {
    pub name: Seq<u8>,
    pub offset: u64,
    pub payload: Seq<u8>,
    pub mtime: Option<u64>,
    pub uid: Option<u64>,
    pub gid: Option<u64>,
    pub mode: Option<u64>,
}

impl View for ArchiveMember {
    type V = MemberView;

    open spec fn view(&self) -> MemberView {
        MemberView {
            name: self.name@,
            offset: self.offset,
            payload: self.payload@,
            mtime: self.mtime,
            uid: self.uid,
            gid: self.gid,
            mode: self.mode,
        }
    }
}

impl ArchiveMember {
    /// A copy of the member with the same value.
    pub fn duplicate(&self) -> (r: ArchiveMember)
        ensures
            r@ == self@,
    {
        ArchiveMember {
            name: vstd::slice::slice_to_vec(self.name.as_slice()),
            offset: self.offset,
            payload: vstd::slice::slice_to_vec(self.payload.as_slice()),
            mtime: self.mtime,
            uid: self.uid,
            gid: self.gid,
            mode: self.mode,
        }
    }
}

/// What a member's payload turned out to be.
#[derive(Debug, Clone, Copy, PartialEq, Eq, Structural)]
pub enum MemberKind {
    /// A COFF object; `has_import_section` tells whether one of its sections
    /// is named with the `.idata$` prefix.
    RegularObject { has_import_section: bool },
    /// A short import descriptor record.
    ImportDescriptor,
}

impl MemberKind {
    /// True of the kinds that contribute to a DLL import table.
    pub open spec fn contributes_imports(self) -> bool {
        match self {
            MemberKind::RegularObject { has_import_section } => has_import_section,
            MemberKind::ImportDescriptor => true,
        }
    }

    pub fn is_import_contributor(&self) -> (r: bool)
        ensures
            r == self.contributes_imports(),
    {
        match self {
            MemberKind::RegularObject { has_import_section } => *has_import_section,
            MemberKind::ImportDescriptor => true,
        }
    }
}

/// A member together with its classification.
#[derive(Debug)]
pub struct ClassifiedMember {
    pub member: ArchiveMember,
    pub kind: MemberKind,
}

impl View for ClassifiedMember {
    type V = (MemberView, MemberKind);

    open spec fn view(&self) -> (MemberView, MemberKind) {
        (self.member@, self.kind)
    }
}

/// The view of a sequence of classified members.
pub open spec fn classified_views(items: Seq<ClassifiedMember>) -> Seq<(MemberView, MemberKind)> {
    items.map_values(|c: ClassifiedMember| c@)
}

/// The view of a sequence of members.
pub open spec fn member_views(ms: Seq<ArchiveMember>) -> Seq<MemberView> {
    ms.map_values(|m: ArchiveMember| m@)
}

} // verus!
