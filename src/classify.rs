//! Deciding what an archive member's payload is: a COFF object (and whether
//! it contributes to an import table) or a short import descriptor.

use vstd::prelude::*;
use crate::member::MemberKind;
use object::coff::{CoffFile, ImportFile};
use object::pe::ImageFileHeader;

verus! {

/// The error type of the `object` crate's readers.
#[verifier::external_type_specification]
#[verifier::external_body]
pub struct ExObjectError(object::read::Error);

/// The section names of a COFF object, as the `object` crate resolves them:
/// `None` when the payload does not parse as a COFF object, else one entry
/// per section-table entry in table order, `None` where the name could not
/// be resolved.
pub uninterp spec fn coff_section_names_of(payload: Seq<u8>) -> Option<Seq<Option<Seq<u8>>>>;

/// Whether the `object` crate accepts the payload as a short import
/// descriptor.
pub uninterp spec fn is_import_record(payload: Seq<u8>) -> bool;

/// The view of one resolved section name.
pub open spec fn name_view(n: Result<Vec<u8>, object::read::Error>) -> Option<Seq<u8>> {
    match n {
        Ok(v) => Some(v@),
        Err(_) => None,
    }
}

/// The views of the resolved section names.
pub open spec fn names_view(names: Seq<Result<Vec<u8>, object::read::Error>>) -> Seq<Option<Seq<u8>>> {
    names.map_values(|n: Result<Vec<u8>, object::read::Error>| name_view(n))
}

/// Relies on object's `CoffFile::<_, pe::ImageFileHeader>::parse` to read the
/// file header and section table, and on `SymbolTable::strings` and
/// `ImageSectionHeader::name` to resolve each section name (inline, or
/// through the COFF string table).
#[verifier::external_body]
fn read_section_names(payload: &[u8]) -> (r: Result<Vec<Result<Vec<u8>, object::read::Error>>, object::read::Error>)
    ensures
        match r {
            Ok(names) => coff_section_names_of(payload@) == Some(names_view(names@)),
            Err(_) => coff_section_names_of(payload@) is None,
        },
{
    let file = CoffFile::<&[u8], ImageFileHeader>::parse(payload)?;
    let strings = file.coff_symbol_table().strings();
    Ok(file.coff_section_table().iter().map(|s| s.name(strings).map(|n| n.to_vec())).collect())
}

/// Relies on object's `ImportFile::parse`: whether the payload is a short
/// import descriptor record.
#[verifier::external_body]
fn parses_as_import(payload: &[u8]) -> (r: bool)
    ensures
        r == is_import_record(payload@),
{
    ImportFile::parse(payload).is_ok()
}

/// The bytes of the section-name prefix that marks import-table data.
pub open spec fn idata_prefix() -> Seq<u8> {
    seq![0x2eu8, 0x69u8, 0x64u8, 0x61u8, 0x74u8, 0x61u8, 0x24u8]
}

/// Whether a section name begins with `.idata$`.
pub open spec fn has_idata_prefix(name: Seq<u8>) -> bool {
    name.len() >= idata_prefix().len() && name.subrange(0, idata_prefix().len() as int) == idata_prefix()
}

/// Whether `name` begins with `.idata$`, compared as raw bytes.
pub fn is_idata_name(name: &[u8]) -> (r: bool)
    ensures
        r == has_idata_prefix(name@),
{
    let prefix: [u8; 7] = [0x2e, 0x69, 0x64, 0x61, 0x74, 0x61, 0x24];
    assert(prefix@ == idata_prefix());
    if name.len() < 7 {
        return false;
    }
    let mut i: usize = 0;
    while i < 7
        invariant
            0 <= i <= 7,
            name@.len() >= 7,
            prefix@ == idata_prefix(),
            forall|j: int| 0 <= j < i ==> name@[j] == prefix@[j],
        decreases 7 - i,
    {
        if name[i] != prefix[i] {
            assert(name@.subrange(0, 7)[i as int] != idata_prefix()[i as int]);
            return false;
        }
        i = i + 1;
    }
    assert(name@.subrange(0, 7) =~= idata_prefix());
    true
}

/// The outcome of scanning section names in order: `Ok(true)` at the first
/// `.idata$` name, `Ok(false)` when there is none, `Err(k)` when the name of
/// section `k` could not be resolved before either.
pub open spec fn section_scan(names: Seq<Option<Seq<u8>>>) -> Result<bool, nat>
    decreases names.len(),
{
    if names.len() == 0 {
        Ok(false)
    } else {
        match names[0] {
            None => Err(0),
            Some(n) => if has_idata_prefix(n) {
                Ok(true)
            } else {
                match section_scan(names.drop_first()) {
                    Ok(b) => Ok(b),
                    Err(k) => Err(k + 1),
                }
            },
        }
    }
}

/// A COFF object in which some section name begins with `.idata$`, and
/// every name before it can be resolved, classifies as an object with an
/// import section.
pub proof fn lemma_idata_section_classifies(names: Seq<Option<Seq<u8>>>, k: int, import_record: bool)
    requires
        0 <= k < names.len(),
        names[k] is Some,
        has_idata_prefix(names[k]->Some_0),
        forall|j: int| 0 <= j < k ==> (#[trigger] names[j]) is Some,
    ensures
        classification(Some(names), import_record) == Ok::<MemberKind, Option<nat>>(
            MemberKind::RegularObject { has_import_section: true },
        ),
{
    lemma_scan_finds_idata(names, k);
}

proof fn lemma_scan_finds_idata(names: Seq<Option<Seq<u8>>>, k: int)
    requires
        0 <= k < names.len(),
        names[k] is Some,
        has_idata_prefix(names[k]->Some_0),
        forall|j: int| 0 <= j < k ==> (#[trigger] names[j]) is Some,
    ensures
        section_scan(names) == Ok::<bool, nat>(true),
    decreases k,
{
    if k > 0 && !has_idata_prefix(names[0]->Some_0) {
        let rest = names.drop_first();
        assert(rest[k - 1] == names[k]);
        assert forall|j: int| 0 <= j < k - 1 implies (#[trigger] rest[j]) is Some by {
            assert(rest[j] == names[j + 1]);
        }
        lemma_scan_finds_idata(rest, k - 1);
    }
}

/// A COFF object whose section names can all be resolved and none of which
/// begins with `.idata$` (say, only `.text` and `.data`) classifies as an
/// object without an import section.
pub proof fn lemma_no_idata_section_classifies(names: Seq<Option<Seq<u8>>>, import_record: bool)
    requires
        forall|j: int| 0 <= j < names.len() ==> (#[trigger] names[j]) is Some && !has_idata_prefix(names[j]->Some_0),
    ensures
        classification(Some(names), import_record) == Ok::<MemberKind, Option<nat>>(
            MemberKind::RegularObject { has_import_section: false },
        ),
{
    lemma_scan_finds_none(names);
}

proof fn lemma_scan_finds_none(names: Seq<Option<Seq<u8>>>)
    requires
        forall|j: int| 0 <= j < names.len() ==> (#[trigger] names[j]) is Some && !has_idata_prefix(names[j]->Some_0),
    ensures
        section_scan(names) == Ok::<bool, nat>(false),
    decreases names.len(),
{
    if names.len() > 0 {
        let rest = names.drop_first();
        assert(names[0] is Some);
        assert forall|j: int| 0 <= j < rest.len() implies (#[trigger] rest[j]) is Some && !has_idata_prefix(rest[j]->Some_0) by {
            assert(rest[j] == names[j + 1]);
        }
        lemma_scan_finds_none(rest);
    }
}

/// Why a payload could not be classified.
#[derive(Debug)]
pub enum ClassifyError {
    /// Neither a COFF object nor an import descriptor; `cause` is why the
    /// object reader refused it.
    Unrecognized { cause: object::read::Error },
    /// The object's section `section` (counted from 0) has a name that
    /// cannot be resolved.
    SectionName { section: usize, cause: object::read::Error },
}

/// The classification as a plain outcome: `Err(None)` for an unrecognized
/// payload, `Err(Some(k))` for an unresolvable name of section `k`.
pub open spec fn classification(names: Option<Seq<Option<Seq<u8>>>>, import_record: bool) -> Result<MemberKind, Option<nat>> {
    match names {
        Some(ns) => match section_scan(ns) {
            Ok(b) => Ok(MemberKind::RegularObject { has_import_section: b }),
            Err(k) => Err(Some(k)),
        },
        None => if import_record {
            Ok(MemberKind::ImportDescriptor)
        } else {
            Err(None)
        },
    }
}

/// The plain outcome of a classification result.
pub open spec fn outcome(r: Result<MemberKind, ClassifyError>) -> Result<MemberKind, Option<nat>> {
    match r {
        Ok(k) => Ok(k),
        Err(ClassifyError::Unrecognized { .. }) => Err(None),
        Err(ClassifyError::SectionName { section, .. }) => Err(Some(section as nat)),
    }
}

/// Scans resolved section names in table order for one that begins with
/// `.idata$`, stopping at the first such name; a name that could not be
/// resolved before it is an error.
pub fn scan_section_names(names: &Vec<Result<Vec<u8>, object::read::Error>>) -> (r: Result<bool, ClassifyError>)
    ensures
        match (r, section_scan(names_view(names@))) {
            (Ok(b), Ok(c)) => b == c,
            (Err(ClassifyError::SectionName { section, .. }), Err(k)) => section as nat == k,
            _ => false,
        },
{
    let ghost all = names_view(names@);
    assert(all.subrange(0, all.len() as int) =~= all);
    let mut i: usize = 0;
    while i < names.len()
        invariant
            0 <= i <= names@.len(),
            all == names_view(names@),
            section_scan(all) == match section_scan(all.subrange(i as int, all.len() as int)) {
                Ok(b) => Ok(b),
                Err(k) => Err::<bool, nat>((k + i) as nat),
            },
        decreases names@.len() - i,
    {
        let ghost rest = all.subrange(i as int, all.len() as int);
        assert(rest.drop_first() =~= all.subrange(i + 1, all.len() as int));
        assert(rest[0] == name_view(names@[i as int]));
        match &names[i] {
            Ok(name) => {
                if is_idata_name(name.as_slice()) {
                    return Ok(true);
                }
            },
            Err(e) => {
                return Err(ClassifyError::SectionName { section: i, cause: *e });
            },
        }
        i = i + 1;
    }
    assert(all.subrange(i as int, all.len() as int) =~= Seq::empty());
    Ok(false)
}

/// Classifies a payload from what the object reader made of it: the section
/// names of a COFF object, or the reader's error, and whether the payload is
/// an import descriptor. The object reading comes first; the import
/// descriptor is the fallback.
pub fn classify_parsed(
    names: Result<Vec<Result<Vec<u8>, object::read::Error>>, object::read::Error>,
    import_record: bool,
) -> (r: Result<MemberKind, ClassifyError>)
    ensures
        outcome(r) == classification(
            match names {
                Ok(ns) => Some(names_view(ns@)),
                Err(_) => None,
            },
            import_record,
        ),
{
    match names {
        Ok(ns) => match scan_section_names(&ns) {
            Ok(b) => Ok(MemberKind::RegularObject { has_import_section: b }),
            Err(e) => Err(e),
        },
        Err(cause) => {
            if import_record {
                Ok(MemberKind::ImportDescriptor)
            } else {
                Err(ClassifyError::Unrecognized { cause })
            }
        },
    }
}

/// Classifies a member's payload: a COFF object, with whether one of its
/// section names begins with `.idata$`, or else a short import descriptor.
pub fn classify(payload: &[u8]) -> (r: Result<MemberKind, ClassifyError>)
    ensures
        outcome(r) == classification(coff_section_names_of(payload@), is_import_record(payload@)),
{
    let names = read_section_names(payload);
    let import_record = match &names {
        Ok(_) => false,
        Err(_) => parses_as_import(payload),
    };
    classify_parsed(names, import_record)
}

} // verus!
