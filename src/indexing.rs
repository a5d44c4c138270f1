//! What the archive writer reads from each member to index its symbols, and
//! the condition under which it can do so.

use vstd::prelude::*;
use object::{LittleEndian, Object, ObjectSymbol, SymbolKind};
use object::pe::ImportObjectHeader;

verus! {

/// The machine type of ARM64EC COFF files and import records.
pub const MACHINE_ARM64EC: u16 = 0xA641;

/// What the `object` crate reports of one symbol of an object file.
#[derive(Debug, Clone, Copy)]
pub struct SymbolFacts {
    pub is_file: bool,
    pub is_section: bool,
    pub is_global: bool,
    pub is_undefined: bool,
    pub name_readable: bool,
    /// The length of the name, 0 when it cannot be read.
    pub name_len: usize,
}

/// The symbols of the payload read as an object file by the `object` crate,
/// in symbol-table order; `None` when it does not parse as an object file.
pub uninterp spec fn object_symbols_of(payload: Seq<u8>) -> Option<Seq<SymbolFacts>>;

/// The machine type and symbol name of the payload read as a short import
/// record by the `object` crate (header, then data); `None` when either
/// part does not parse.
pub uninterp spec fn short_import_of(payload: Seq<u8>) -> Option<(u16, Seq<u8>)>;

/// Whether the bytes are valid UTF-8.
pub uninterp spec fn is_utf8(bytes: Seq<u8>) -> bool;

/// Relies on object's `File::parse`, `Object::symbols` and, for each symbol,
/// `ObjectSymbol::{kind, is_global, is_undefined, name_bytes}`.
#[verifier::external_body]
fn read_object_symbols(payload: &[u8]) -> (r: Option<Vec<SymbolFacts>>)
    ensures
        match r {
            Some(v) => object_symbols_of(payload@) == Some(v@),
            None => object_symbols_of(payload@) is None,
        },
{
    let file = object::File::parse(payload).ok()?;
    Some(file.symbols().map(|s| SymbolFacts {
        is_file: s.kind() == SymbolKind::File,
        is_section: s.kind() == SymbolKind::Section,
        is_global: s.is_global(),
        is_undefined: s.is_undefined(),
        name_readable: s.name_bytes().is_ok(),
        name_len: s.name_bytes().map_or(0, |n| n.len()),
    }).collect())
}

/// Relies on object's `pe::ImportObjectHeader::parse` and `parse_data`: the
/// record's machine type and its symbol name.
#[verifier::external_body]
fn read_short_import(payload: &[u8]) -> (r: Option<(u16, Vec<u8>)>)
    ensures
        match r {
            Some((machine, symbol)) => short_import_of(payload@) == Some((machine, symbol@)),
            None => short_import_of(payload@) is None,
        },
{
    let mut offset: u64 = 0;
    let header = ImportObjectHeader::parse(payload, &mut offset).ok()?;
    let data = header.parse_data(payload, &mut offset).ok()?;
    Some((header.machine.get(LittleEndian), data.symbol().to_vec()))
}

/// Relies on `std::str::from_utf8`: whether the bytes are valid UTF-8.
#[verifier::external_body]
pub(crate) fn utf8_valid(bytes: &[u8]) -> (r: bool)
    ensures
        r == is_utf8(bytes@),
{
    std::str::from_utf8(bytes).is_ok()
}

/// Whether the archive writer indexes a symbol: a defined global symbol
/// that is neither a file nor a section symbol.
pub open spec fn indexed(s: SymbolFacts) -> bool {
    !s.is_file && !s.is_section && s.is_global && !s.is_undefined
}

/// Whether the archive writer can index the symbols of a member with this
/// payload. Of an object file it reads the name of every indexed symbol. Of
/// anything else that reads as a short import record it reads the symbol
/// name, which for ARM64EC it takes as non-empty UTF-8 text.
#[verifier::opaque]
pub open spec fn indexable(payload: Seq<u8>) -> bool {
    match object_symbols_of(payload) {
        Some(syms) => forall|i: int| 0 <= i < syms.len() && indexed(#[trigger] syms[i]) ==> syms[i].name_readable,
        None => match short_import_of(payload) {
            Some((machine, symbol)) => machine == MACHINE_ARM64EC ==> symbol.len() > 0 && is_utf8(symbol),
            None => true,
        },
    }
}

/// Sizes at or above this bound do not fit the 32-bit offsets of a COFF
/// archive's linker members.
pub const OFFSET_LIMIT: u64 = 0x1_0000_0000;

/// An upper bound on what the indexed symbols among `syms` add to the
/// writer's linker members: per name, a 4-byte offset, a 2-byte index and
/// the name twice with its terminator.
pub open spec fn object_symbol_bytes(syms: Seq<SymbolFacts>) -> nat
    decreases syms.len(),
{
    if syms.len() == 0 {
        0
    } else {
        object_symbol_bytes(syms.drop_last()) + if indexed(syms.last()) {
            (2 * syms.last().name_len + 8) as nat
        } else {
            0nat
        }
    }
}

/// An upper bound on what a member with this payload adds to the writer's
/// linker members. A short import record gives at most four names, each at
/// most ten bytes longer than its symbol.
pub open spec fn symbol_bytes(payload: Seq<u8>) -> nat {
    match object_symbols_of(payload) {
        Some(syms) => object_symbol_bytes(syms),
        None => match short_import_of(payload) {
            Some((_, symbol)) => 8 * symbol.len() + 112,
            None => 0,
        },
    }
}

/// The smaller of `n` and the offset limit.
pub open spec fn capped(n: nat) -> u64 {
    if n < OFFSET_LIMIT {
        n as u64
    } else {
        OFFSET_LIMIT
    }
}

/// `symbol_bytes(payload)`, capped at the offset limit.
pub fn symbol_bytes_capped(payload: &[u8]) -> (r: u64)
    ensures
        r == capped(symbol_bytes(payload@)),
{
    match read_object_symbols(payload) {
        Some(syms) => {
            let mut acc: u64 = 0;
            let mut i: usize = 0;
            while i < syms.len()
                invariant
                    0 <= i <= syms@.len(),
                    object_symbols_of(payload@) == Some(syms@),
                    acc == capped(object_symbol_bytes(syms@.subrange(0, i as int))),
                decreases syms@.len() - i,
            {
                let s = syms[i];
                proof {
                    let pre = syms@.subrange(0, i + 1);
                    assert(pre.drop_last() =~= syms@.subrange(0, i as int));
                    assert(pre.last() == s);
                }
                if !s.is_file && !s.is_section && s.is_global && !s.is_undefined {
                    let len = s.name_len as u64;
                    if len >= OFFSET_LIMIT || acc + 2 * len + 8 >= OFFSET_LIMIT {
                        acc = OFFSET_LIMIT;
                    } else {
                        acc = acc + 2 * len + 8;
                    }
                }
                i = i + 1;
            }
            assert(syms@.subrange(0, syms@.len() as int) =~= syms@);
            acc
        },
        None => match read_short_import(payload) {
            Some((_, symbol)) => {
                let len = symbol.len() as u64;
                if len >= OFFSET_LIMIT {
                    OFFSET_LIMIT
                } else if 8 * len + 112 >= OFFSET_LIMIT {
                    OFFSET_LIMIT
                } else {
                    8 * len + 112
                }
            },
            None => 0,
        },
    }
}

/// Whether the archive writer can index the symbols of a member with this payload.
pub fn can_index(payload: &[u8]) -> (r: bool)
    ensures
        r == indexable(payload@),
{
    reveal(indexable);
    match read_object_symbols(payload) {
        Some(syms) => {
            let mut i: usize = 0;
            while i < syms.len()
                invariant
                    0 <= i <= syms@.len(),
                    object_symbols_of(payload@) == Some(syms@),
                    forall|j: int| 0 <= j < i && indexed(#[trigger] syms@[j]) ==> syms@[j].name_readable,
                decreases syms@.len() - i,
            {
                let s = syms[i];
                if !s.is_file && !s.is_section && s.is_global && !s.is_undefined && !s.name_readable {
                    assert(s == syms@[i as int]);
                    proof {
                        let ss = object_symbols_of(payload@)->Some_0;
                        assert(ss == syms@);
                        assert(indexed(ss[i as int]) && !ss[i as int].name_readable);
                        reveal(indexable);
                        assert(!indexable(payload@));
                    }
                    return false;
                }
                i = i + 1;
            }
            true
        },
        None => match read_short_import(payload) {
            Some((machine, symbol)) => machine != MACHINE_ARM64EC || (symbol.len() > 0 && utf8_valid(symbol.as_slice())),
            None => true,
        },
    }
}

} // verus!
