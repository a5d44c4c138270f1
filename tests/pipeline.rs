use winlib::classify::{classify, classify_parsed, is_idata_name, scan_section_names, ClassifyError};
use winlib::codec::{decode, list_members, listed_from_entries, members_from_entries, CodecError, MemberEntry};
use winlib::encode::{encode, EncodeError, HeaderField};
use winlib::member::{ArchiveMember, ClassifiedMember, MemberKind};
use winlib::partition::{partition, PartitionPolicy};
use winlib::pipeline::{run, PipelineError};

fn push_u16(out: &mut Vec<u8>, v: u16) {
    out.extend_from_slice(&v.to_le_bytes());
}

fn push_u32(out: &mut Vec<u8>, v: u32) {
    out.extend_from_slice(&v.to_le_bytes());
}

/// A COFF object with the given inline section names, zero-padded to `len` bytes.
fn coff_object(sections: &[&str], len: usize) -> Vec<u8> {
    let mut out = Vec::new();
    push_u16(&mut out, 0x8664);
    push_u16(&mut out, sections.len() as u16);
    push_u32(&mut out, 0);
    push_u32(&mut out, 0);
    push_u32(&mut out, 0);
    push_u16(&mut out, 0);
    push_u16(&mut out, 0);
    for name in sections {
        let mut field = [0u8; 8];
        field[..name.len()].copy_from_slice(name.as_bytes());
        out.extend_from_slice(&field);
        out.extend_from_slice(&[0u8; 32]);
    }
    assert!(out.len() <= len);
    out.resize(len, 0);
    out
}

/// A short import descriptor for `symbol` in `dll`.
fn import_record(symbol: &str, dll: &str) -> Vec<u8> {
    import_record_for(0x8664, symbol.as_bytes(), dll)
}

fn import_record_for(machine: u16, symbol: &[u8], dll: &str) -> Vec<u8> {
    let mut data = Vec::new();
    data.extend_from_slice(symbol);
    data.push(0);
    data.extend_from_slice(dll.as_bytes());
    data.push(0);
    let mut out = Vec::new();
    push_u16(&mut out, 0);
    push_u16(&mut out, 0xffff);
    push_u16(&mut out, 0);
    push_u16(&mut out, machine);
    push_u32(&mut out, 0);
    push_u32(&mut out, data.len() as u32);
    push_u16(&mut out, 0);
    push_u16(&mut out, 1 << 2);
    out.extend_from_slice(&data);
    out
}

/// An archive with the given (name, data) members and no special members.
fn archive(members: &[(&str, Vec<u8>)]) -> Vec<u8> {
    let mut out = b"!<arch>\n".to_vec();
    for (name, data) in members {
        let header = format!(
            "{:<16}{:<12}{:<6}{:<6}{:<8}{:<10}`\n",
            format!("{}/", name),
            1234,
            5,
            7,
            "100644",
            data.len()
        );
        assert_eq!(header.len(), 60);
        out.extend_from_slice(header.as_bytes());
        out.extend_from_slice(data);
        if data.len() % 2 == 1 {
            out.push(b'\n');
        }
    }
    out
}

/// Members at data offsets 0x44, 0x120 and 0x200: a plain object, an
/// object with an `.idata$3` section, and an import descriptor.
fn three_member_archive() -> Vec<u8> {
    archive(&[
        ("plain.obj", coff_object(&[".text", ".data"], 160)),
        ("imp.obj", coff_object(&[".text", ".idata$3"], 164)),
        ("foo.dll", import_record("foo", "foo.dll")),
    ])
}

fn offsets(ms: &[ArchiveMember]) -> Vec<u64> {
    ms.iter().map(|m| m.offset).collect()
}

fn names(ms: &[ArchiveMember]) -> Vec<Vec<u8>> {
    ms.iter().map(|m| m.name.clone()).collect()
}

fn policy(offsets: Vec<u32>, imports: bool, capture: bool) -> PartitionPolicy {
    PartitionPolicy { exclude_offsets: offsets, exclude_import_members: imports, capture_excluded: capture }
}

fn classified(bytes: &[u8]) -> Vec<ClassifiedMember> {
    decode(bytes)
        .unwrap()
        .into_iter()
        .map(|m| {
            let kind = classify(&m.payload).unwrap();
            ClassifiedMember { member: m, kind }
        })
        .collect()
}

#[test]
fn idata_prefix_is_matched_on_raw_bytes() {
    assert!(is_idata_name(b".idata$2"));
    assert!(is_idata_name(b".idata$"));
    assert!(!is_idata_name(b".idata"));
    assert!(!is_idata_name(b".IDATA$2"));
    assert!(!is_idata_name(b""));
    assert!(!is_idata_name(b"x.idata$2"));
}

#[test]
fn object_with_idata_section_contributes_imports() {
    let obj = coff_object(&[".text", ".idata$2"], 100);
    assert_eq!(classify(&obj).unwrap(), MemberKind::RegularObject { has_import_section: true });
}

#[test]
fn object_with_text_and_data_does_not_contribute() {
    let obj = coff_object(&[".text", ".data"], 100);
    assert_eq!(classify(&obj).unwrap(), MemberKind::RegularObject { has_import_section: false });
}

#[test]
fn import_record_is_an_import_descriptor() {
    assert_eq!(classify(&import_record("bar", "bar.dll")).unwrap(), MemberKind::ImportDescriptor);
}

#[test]
fn garbage_payload_is_unrecognized() {
    assert!(matches!(classify(b"garbage"), Err(ClassifyError::Unrecognized { .. })));
}

#[test]
fn unresolvable_section_name_is_an_error() {
    let mut obj = coff_object(&[".text", "/99"], 100);
    obj.truncate(100);
    assert!(matches!(classify(&obj), Err(ClassifyError::SectionName { section: 1, .. })));
}

#[test]
fn decode_reads_members_in_order() {
    let bytes = three_member_archive();
    let ms = decode(&bytes).unwrap();
    assert_eq!(offsets(&ms), vec![0x44, 0x120, 0x200]);
    assert_eq!(names(&ms), vec![b"plain.obj".to_vec(), b"imp.obj".to_vec(), b"foo.dll".to_vec()]);
    assert_eq!(ms[0].payload, coff_object(&[".text", ".data"], 160));
    assert_eq!(ms[2].payload, import_record("foo", "foo.dll"));
    assert_eq!(ms[1].mtime, Some(1234));
    assert_eq!(ms[1].uid, Some(5));
    assert_eq!(ms[1].gid, Some(7));
    assert_eq!(ms[1].mode, Some(0o100644));
}

#[test]
fn decode_refuses_missing_magic() {
    assert!(matches!(decode(b"not an archive at all"), Err(CodecError::NotAnArchive { .. })));
}

#[test]
fn decode_refuses_truncated_payload() {
    let mut bytes = archive(&[("a.obj", coff_object(&[".text"], 100))]);
    bytes.truncate(bytes.len() - 10);
    assert!(matches!(decode(&bytes), Err(CodecError::CorruptMember { offset: 0x44 })));
}

#[test]
fn decode_refuses_bad_header_terminator() {
    let mut bytes = three_member_archive();
    bytes[0x120 - 2] = b'x';
    assert!(matches!(decode(&bytes), Err(CodecError::CorruptMember { offset: 228 })));
}

#[test]
fn listing_gives_offsets_sizes_and_names() {
    let bytes = three_member_archive();
    let listed = list_members(&bytes).unwrap();
    let triples: Vec<(u64, u64, Vec<u8>)> = listed.into_iter().map(|l| (l.offset, l.size, l.name)).collect();
    assert_eq!(triples[0], (0x44, 160, b"plain.obj".to_vec()));
    assert_eq!(triples[1], (0x120, 164, b"imp.obj".to_vec()));
    assert_eq!(triples[2].0, 0x200);
}

#[test]
fn listing_twice_gives_the_same_sequence() {
    let bytes = three_member_archive();
    let a: Vec<(u64, u64, Vec<u8>)> = list_members(&bytes).unwrap().into_iter().map(|l| (l.offset, l.size, l.name)).collect();
    let b: Vec<(u64, u64, Vec<u8>)> = list_members(&bytes).unwrap().into_iter().map(|l| (l.offset, l.size, l.name)).collect();
    assert_eq!(a, b);
}

#[test]
fn partition_by_import_kind_with_capture() {
    let items = classified(&three_member_archive());
    let parts = partition(&items, &policy(vec![], true, true));
    assert_eq!(offsets(&parts.kept), vec![0x44]);
    assert_eq!(offsets(&parts.excluded), vec![0x120, 0x200]);
}

#[test]
fn partition_counts_add_up() {
    let items = classified(&three_member_archive());
    for (offs, imports, capture) in [(vec![], true, true), (vec![0x44u32], false, true), (vec![0x200u32], true, false)] {
        let parts = partition(&items, &policy(offs, imports, capture));
        if capture {
            assert_eq!(parts.kept.len() + parts.excluded.len(), items.len());
        } else {
            assert!(parts.kept.len() <= items.len());
            assert!(parts.excluded.is_empty());
        }
    }
}

#[test]
fn offset_exclusion_applies_to_plain_objects() {
    let items = classified(&three_member_archive());
    assert_eq!(items[0].kind, MemberKind::RegularObject { has_import_section: false });
    let parts = partition(&items, &policy(vec![0x44], false, true));
    assert_eq!(offsets(&parts.kept), vec![0x120, 0x200]);
    assert_eq!(offsets(&parts.excluded), vec![0x44]);
}

#[test]
fn run_excludes_import_members_into_second_archive() {
    let (kept, excluded) = run(&three_member_archive(), &policy(vec![], true, true)).unwrap();
    assert_eq!(names(&decode(&kept).unwrap()), vec![b"plain.obj".to_vec()]);
    let excluded = excluded.unwrap();
    assert_eq!(names(&decode(&excluded).unwrap()), vec![b"imp.obj".to_vec(), b"foo.dll".to_vec()]);
}

#[test]
fn run_excludes_by_offset_without_capture() {
    let (kept, excluded) = run(&three_member_archive(), &policy(vec![0x44], false, false)).unwrap();
    assert!(excluded.is_none());
    let ms = decode(&kept).unwrap();
    assert_eq!(names(&ms), vec![b"imp.obj".to_vec(), b"foo.dll".to_vec()]);
    assert_eq!(ms[0].payload, coff_object(&[".text", ".idata$3"], 164));
}

#[test]
fn run_fails_on_unrecognized_member() {
    let bytes = archive(&[
        ("plain.obj", coff_object(&[".text", ".data"], 160)),
        ("junk.bin", b"junk".to_vec()),
    ]);
    match run(&bytes, &policy(vec![], false, true)) {
        Err(PipelineError::Classify { offset, error: ClassifyError::Unrecognized { .. } }) => {
            assert_eq!(offset, 0x44 + 160 + 60)
        }
        other => panic!("unexpected result: {:?}", other.map(|_| ())),
    }
}

#[test]
fn run_reports_decode_errors() {
    assert!(matches!(run(b"!<arch", &policy(vec![], false, false)), Err(PipelineError::Decode(_))));
}

#[test]
fn round_trip_keeps_members() {
    let first = decode(&three_member_archive()).unwrap();
    let again = decode(&encode(&first).unwrap()).unwrap();
    assert_eq!(names(&first), names(&again));
    for (a, b) in first.iter().zip(again.iter()) {
        assert_eq!(a.payload, b.payload);
        assert_eq!((a.mtime, a.uid, a.gid, a.mode), (b.mtime, b.uid, b.gid, b.mode));
    }
}

#[test]
fn long_names_survive_encoding() {
    let member = ArchiveMember {
        name: b"a_rather_long_member_name.obj".to_vec(),
        offset: 0x44,
        payload: coff_object(&[".text"], 61),
        mtime: None,
        uid: None,
        gid: None,
        mode: None,
    };
    let back = decode(&encode(&vec![member]).unwrap()).unwrap();
    assert_eq!(back.len(), 1);
    assert_eq!(back[0].name, b"a_rather_long_member_name.obj".to_vec());
    assert_eq!(back[0].payload.len(), 61);
    assert_eq!((back[0].mtime, back[0].uid, back[0].gid, back[0].mode), (Some(0), Some(0), Some(0), Some(0o644)));
}

#[test]
fn encode_of_nothing_is_an_archive() {
    let bytes = encode(&vec![]).unwrap();
    assert!(bytes.starts_with(b"!<arch>\n"));
    assert!(decode(&bytes).unwrap().is_empty());
}

fn member_with(mtime: Option<u64>, uid: Option<u64>, gid: Option<u64>, mode: Option<u64>) -> ArchiveMember {
    ArchiveMember { name: b"m.obj".to_vec(), offset: 0x44, payload: vec![1, 2, 3], mtime, uid, gid, mode }
}

#[test]
fn encode_refuses_values_too_wide_for_their_fields() {
    let cases = [
        (member_with(Some(1_000_000_000_000), None, None, None), HeaderField::Mtime),
        (member_with(None, Some(1_000_000), None, None), HeaderField::Uid),
        (member_with(None, None, Some(1_000_000), None), HeaderField::Gid),
        (member_with(None, None, None, Some(0o100000000)), HeaderField::Mode),
    ];
    for (m, field) in cases {
        let ok = member_with(Some(999_999_999_999), Some(999_999), Some(999_999), Some(0o77777777));
        match encode(&vec![ok, m]) {
            Err(EncodeError::FieldOverflow { field: f, member_index: 1 }) => assert_eq!(f, field),
            other => panic!("unexpected result: {:?}", other.map(|_| ())),
        }
    }
}

#[test]
fn encode_accepts_the_widest_values() {
    let m = member_with(Some(999_999_999_999), Some(999_999), Some(999_999), Some(0o77777777));
    let back = decode(&encode(&vec![m]).unwrap()).unwrap();
    assert_eq!(back[0].mtime, Some(999_999_999_999));
    assert_eq!(back[0].mode, Some(0o77777777));
}


/// A COFF object with one `.text` section and one external symbol whose
/// name points outside the string table.
fn object_with_broken_symbol() -> Vec<u8> {
    object_with_broken_symbol_of_class(2)
}

fn object_with_broken_symbol_of_class(class: u8) -> Vec<u8> {
    let mut out = coff_object(&[".text"], 60);
    out[8..12].copy_from_slice(&60u32.to_le_bytes());
    out[12..16].copy_from_slice(&1u32.to_le_bytes());
    out.extend_from_slice(&[0, 0, 0, 0]);
    push_u32(&mut out, 1000);
    push_u32(&mut out, 0);
    push_u16(&mut out, 1);
    push_u16(&mut out, 0);
    out.push(class);
    out.push(0);
    push_u32(&mut out, 4);
    out
}

#[test]
fn encode_refuses_unreadable_symbol_names() {
    let m = ArchiveMember {
        name: b"bad.obj".to_vec(),
        offset: 0x44,
        payload: object_with_broken_symbol(),
        mtime: None,
        uid: None,
        gid: None,
        mode: None,
    };
    assert_eq!(classify(&m.payload).unwrap(), MemberKind::RegularObject { has_import_section: false });
    assert!(matches!(encode(&vec![m]), Err(EncodeError::UnreadableSymbols { member_index: 0 })));
}

#[test]
fn run_reports_unreadable_symbols_of_a_kept_member() {
    let bytes = archive(&[("plain.obj", coff_object(&[".text"], 60)), ("bad.obj", object_with_broken_symbol())]);
    assert!(matches!(
        run(&bytes, &policy(vec![], false, false)),
        Err(PipelineError::Encode(EncodeError::UnreadableSymbols { member_index: 1 }))
    ));
    let (kept, _) = run(&bytes, &policy(vec![0x44 + 60 + 60], false, false)).unwrap();
    assert_eq!(names(&decode(&kept).unwrap()), vec![b"plain.obj".to_vec()]);
}

#[test]
fn defaults_fill_absent_metadata() {
    let m = member_with(None, None, None, None);
    let back = decode(&encode(&vec![m]).unwrap()).unwrap();
    assert_eq!((back[0].mtime, back[0].uid, back[0].gid, back[0].mode), (Some(0), Some(0), Some(0), Some(0o644)));
    assert_eq!(back[0].payload, vec![1, 2, 3]);
}

fn entry(name: &str, offset: u64, size: u64) -> Result<MemberEntry, object::read::Error> {
    Ok(MemberEntry { name: name.as_bytes().to_vec(), offset, size, mtime: None, uid: Some(1), gid: None, mode: None })
}

#[test]
fn entries_become_members_with_their_data() {
    let src: Vec<u8> = (0u8..40).collect();
    let ms = members_from_entries(&src, &vec![entry("a", 10, 4), entry("b", 20, 0), entry("c", 30, 10)]).unwrap();
    assert_eq!(offsets(&ms), vec![10, 20, 30]);
    assert_eq!(ms[0].payload, vec![10, 11, 12, 13]);
    assert!(ms[1].payload.is_empty());
    assert_eq!(ms[2].payload, (30u8..40).collect::<Vec<u8>>());
    assert_eq!(ms[0].uid, Some(1));
}

#[test]
fn entries_out_of_order_or_out_of_bounds_are_corrupt() {
    let src = vec![0u8; 40];
    let overlapping = vec![entry("a", 10, 10), entry("b", 15, 2)];
    assert!(matches!(members_from_entries(&src, &overlapping), Err(CodecError::CorruptMember { offset: 15 })));
    let too_long = vec![entry("a", 10, 4), entry("b", 30, 11)];
    assert!(matches!(members_from_entries(&src, &too_long), Err(CodecError::CorruptMember { offset: 30 })));
    let inside_magic = vec![entry("a", 8, 1)];
    assert!(matches!(members_from_entries(&src, &inside_magic), Err(CodecError::CorruptMember { offset: 8 })));
}

#[test]
fn listing_lines_follow_entries() {
    let src = vec![0u8; 0x48 + 100];
    let lines = listed_from_entries(&src, &vec![entry("x.obj", 0x44, 3), entry("y.obj", 0x48, 100)]).unwrap();
    assert_eq!(lines.len(), 2);
    assert_eq!((lines[1].offset, lines[1].size, lines[1].name.clone()), (0x48, 100, b"y.obj".to_vec()));
}

#[test]
fn section_scan_stops_at_first_idata_name() {
    let names = vec![Ok(b".text".to_vec()), Ok(b".idata$5".to_vec())];
    assert!(scan_section_names(&names).unwrap());
    assert!(!scan_section_names(&vec![Ok(b".text".to_vec()), Ok(b".rdata".to_vec())]).unwrap());
    assert!(!scan_section_names(&vec![]).unwrap());
    assert_eq!(classify_parsed(Ok(names), false).unwrap(), MemberKind::RegularObject { has_import_section: true });
}

#[test]
fn listing_refuses_data_past_the_end() {
    let mut bytes = archive(&[("a.obj", coff_object(&[".text"], 100))]);
    bytes.truncate(bytes.len() - 10);
    assert!(matches!(list_members(&bytes), Err(CodecError::CorruptMember { offset: 0x44 })));
    let src = vec![0u8; 40];
    assert!(matches!(
        listed_from_entries(&src, &vec![entry("a", 10, 10), entry("b", 15, 2)]),
        Err(CodecError::CorruptMember { offset: 15 })
    ));
}

fn member_named(name: &[u8], payload: Vec<u8>) -> ArchiveMember {
    ArchiveMember { name: name.to_vec(), offset: 0x44, payload, mtime: None, uid: None, gid: None, mode: None }
}

#[test]
fn encode_refuses_names_that_are_not_text() {
    let ok = member_named(b"ok.obj", vec![1]);
    let bad = member_named(b"bad\xff.obj", vec![1]);
    assert!(matches!(
        encode(&vec![ok, bad]),
        Err(EncodeError::FieldOverflow { field: HeaderField::Name, member_index: 1 })
    ));
}

#[test]
fn encode_refuses_arm64ec_import_with_non_text_symbol() {
    let record = import_record_for(0xA641, b"sym\xfe", "x.dll");
    assert_eq!(classify(&record).unwrap(), MemberKind::ImportDescriptor);
    assert!(matches!(
        encode(&vec![member_named(b"x.dll", record)]),
        Err(EncodeError::UnreadableSymbols { member_index: 0 })
    ));
    let empty = import_record_for(0xA641, b"", "x.dll");
    assert!(matches!(
        encode(&vec![member_named(b"x.dll", empty)]),
        Err(EncodeError::UnreadableSymbols { member_index: 0 })
    ));
}

#[test]
fn encode_accepts_arm64ec_import_with_text_symbol() {
    let record = import_record_for(0xA641, b"#sym", "x.dll");
    let back = decode(&encode(&vec![member_named(b"x.dll", record.clone())]).unwrap()).unwrap();
    assert_eq!(back[0].payload, record);
    let other = import_record_for(0x8664, b"sym\xfe", "x.dll");
    assert!(encode(&vec![member_named(b"y.dll", other)]).is_ok());
}

#[test]
fn encode_accepts_unreadable_names_of_local_symbols() {
    let m = member_named(b"local.obj", object_with_broken_symbol_of_class(3));
    assert!(encode(&vec![m]).is_ok());
}

/// A COFF object with `count` defined external symbols that all share one
/// name of `name_len` bytes.
fn object_with_repeated_symbols(count: u32, name_len: usize) -> Vec<u8> {
    let mut out = coff_object(&[".text"], 60);
    out[8..12].copy_from_slice(&60u32.to_le_bytes());
    out[12..16].copy_from_slice(&count.to_le_bytes());
    for _ in 0..count {
        out.extend_from_slice(&[0, 0, 0, 0]);
        push_u32(&mut out, 4);
        push_u32(&mut out, 0);
        push_u16(&mut out, 1);
        push_u16(&mut out, 0);
        out.push(2);
        out.push(0);
    }
    push_u32(&mut out, (4 + name_len + 1) as u32);
    out.extend(std::iter::repeat(b'a').take(name_len));
    out.push(0);
    out
}

#[test]
fn encode_refuses_archives_beyond_32_bit_offsets() {
    let big = member_named(b"big.obj", object_with_repeated_symbols(32_800, 65_536));
    assert!(matches!(encode(&vec![big]), Err(EncodeError::ArchiveTooLarge)));
    let small = member_named(b"small.obj", object_with_repeated_symbols(4, 100));
    assert!(encode(&vec![small]).is_ok());
}
