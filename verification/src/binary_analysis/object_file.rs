//! Reading an object file with the `object` crate, as plain values.
//!
//! Each read takes the bytes of the object file; what the `object` crate makes of those bytes
//! is named by a spec function of the bytes, and the library's own logic works on what the
//! reads return.

use vstd::prelude::*;
use object::{Endian, Object, ObjectSection, ObjectSymbol};
use crate::binary_analysis::build_error::SectionRelocations;
use crate::binary_analysis::dwarf::SymbolPlace;
use crate::binary_analysis::SymbolInfo;

verus! {

/// How an object file flags a section.
#[derive(Clone, Copy, Debug, PartialEq, Eq, Structural)]
pub enum RawSectionFlags {
    /// No flags.
    Unflagged,
    /// ELF `sh_flags`.
    Elf(u64),
    /// Flags of another object format.
    Foreign,
}

/// A section as the object file lists it.
#[derive(Clone, Copy, Debug, PartialEq, Eq, Structural)]
pub struct RawSection {
    pub index: usize,
    pub flags: RawSectionFlags,
    pub size: u64,
    pub align: u64,
}

/// What a relocation of the object file points at.
#[derive(Clone, Copy, Debug, PartialEq, Eq, Structural)]
pub enum RawTarget {
    Symbol(usize),
    Section(usize),
    Absolute,
    /// A kind of target that `object` may add.
    Other,
}

/// A relocation as the object file lists it.
#[derive(Clone, Copy, Debug, PartialEq, Eq, Structural)]
pub struct RawRelocation {
    pub offset: u64,
    /// Whether the relocation kind is `RelocationKind::Absolute`.
    pub absolute: bool,
    pub target: RawTarget,
    pub addend: i64,
    pub size: u8,
    pub implicit_addend: bool,
}

/// Whether `object::File::parse` accepts `data`.
pub uninterp spec fn parses_as_object(data: Seq<u8>) -> bool;

/// The sections that `object::Object::sections` lists for `data`, in order.
pub uninterp spec fn object_sections(data: Seq<u8>) -> Seq<RawSection>;

/// The uncompressed bytes of the section named `name`: `Some(None)` when there is no such
/// section, `None` when reading them fails.
pub uninterp spec fn object_section_data(data: Seq<u8>, name: Seq<char>) -> Option<Option<Seq<u8>>>;

/// The relocations of the section named `name`, in order; none when there is no such section.
pub uninterp spec fn object_section_relocations(data: Seq<u8>, name: Seq<char>) -> Seq<RawRelocation>;

/// The symbol of index `index`, if the object file has one.
pub uninterp spec fn object_symbol(data: Seq<u8>, index: usize) -> Option<SymbolPlace>;

/// The address of the section of index `index`, if the object file has one.
pub uninterp spec fn object_section_address(data: Seq<u8>, index: usize) -> Option<u64>;

/// The symbols that `object::Object::symbols` lists for `data`, in order.
pub uninterp spec fn object_symbols(data: Seq<u8>) -> Seq<SymbolInfo>;

/// The index of the first symbol named `name`, and whether it is undefined.
pub uninterp spec fn object_symbol_by_name(data: Seq<u8>, name: Seq<char>) -> Option<(usize, bool)>;

/// For each section in order, its index and the offsets and symbol targets of its relocations.
pub uninterp spec fn object_relocation_targets(data: Seq<u8>) -> Seq<SectionRelocations>;

/// Whether the object file's `endianness()` is little endian.
pub uninterp spec fn object_little_endian(data: Seq<u8>) -> bool;

/// `object::File::parse(data).is_ok()`.
#[verifier::external_body]
pub(crate) fn parse_ok(data: &[u8]) -> (b: bool)
    ensures
        b == parses_as_object(data@),
{
    object::File::parse(data).is_ok()
}

/// `endianness().is_little_endian()` of the object file.
#[verifier::external_body]
pub(crate) fn read_little_endian(data: &[u8]) -> (b: bool)
    requires
        parses_as_object(data@),
    ensures
        b == object_little_endian(data@),
{
    object::File::parse(data).unwrap().endianness().is_little_endian()
}

/// The sections of the object file, through `Object::sections` and the section accessors
/// `index`, `flags`, `size` and `align`. Besides that the result depends on the bytes alone,
/// the contract claims that a section with ELF flags has an index no other section has: only
/// ELF files give ELF flags, and their section iterator numbers the section headers in order.
#[verifier::external_body]
pub(crate) fn read_sections(data: &[u8]) -> (v: Vec<RawSection>)
    requires
        parses_as_object(data@),
    ensures
        v@ == object_sections(data@),
        forall|i: int, j: int|
            0 <= i < v@.len() && 0 <= j < v@.len() && i != j && (#[trigger] v@[i]).flags is Elf
                ==> v@[i].index != (#[trigger] v@[j]).index,
{
    let file = object::File::parse(data).unwrap();
    file.sections().map(|s| RawSection {
        index: s.index().0,
        flags: match s.flags() {
            object::SectionFlags::None => RawSectionFlags::Unflagged,
            object::SectionFlags::Elf { sh_flags, .. } => RawSectionFlags::Elf(sh_flags.0),
            _ => RawSectionFlags::Foreign,
        },
        size: s.size(),
        align: s.align(),
    }).collect()
}

/// `section_by_name(name)` and then `uncompressed_data()`: the bytes of the section, none when
/// there is no such section, or the error of reading them.
#[verifier::external_body]
pub(crate) fn read_section_data(data: &[u8], name: &str) -> (r: Result<Option<Vec<u8>>, object::read::Error>)
    requires
        parses_as_object(data@),
    ensures
        match r {
            Ok(None) => object_section_data(data@, name@) == Some(None::<Seq<u8>>),
            Ok(Some(v)) => object_section_data(data@, name@) == Some(Some(v@)),
            Err(_) => object_section_data(data@, name@) is None,
        },
{
    let file = object::File::parse(data).unwrap();
    match file.section_by_name(name) {
        None => Ok(None),
        Some(s) => s.uncompressed_data().map(|d| Some(d.into_owned())),
    }
}

/// `section_by_name(name)` and then `relocations()`, each relocation's `kind`, `target`,
/// `addend`, `size` and `has_implicit_addend`.
#[verifier::external_body]
pub(crate) fn read_section_relocations(data: &[u8], name: &str) -> (v: Vec<RawRelocation>)
    requires
        parses_as_object(data@),
    ensures
        v@ == object_section_relocations(data@, name@),
{
    let file = object::File::parse(data).unwrap();
    let Some(section) = file.section_by_name(name) else { return Vec::new() };
    section.relocations().map(|(offset, r)| RawRelocation {
        offset,
        absolute: matches!(r.kind(), object::RelocationKind::Absolute),
        target: match r.target() {
            object::RelocationTarget::Symbol(i) => RawTarget::Symbol(i.0),
            object::RelocationTarget::Section(i) => RawTarget::Section(i.0),
            object::RelocationTarget::Absolute => RawTarget::Absolute,
            _ => RawTarget::Other,
        },
        addend: r.addend(), size: r.size(), implicit_addend: r.has_implicit_addend(),
    }).collect()
}

/// `symbol_by_index(index)`, with the symbol's section index (`SymbolSection::index`) and
/// address; `None` when there is no such symbol.
#[verifier::external_body]
pub(crate) fn read_symbol(data: &[u8], index: usize) -> (r: Option<SymbolPlace>)
    requires
        parses_as_object(data@),
    ensures
        r == object_symbol(data@, index),
{
    let file = object::File::parse(data).unwrap();
    file.symbol_by_index(object::SymbolIndex(index)).ok().map(|s| SymbolPlace {
        section: s.section().index().map(|i| i.0),
        address: s.address(),
    })
}

/// `section_by_index(index)` and its `address`; `None` when there is no such section.
#[verifier::external_body]
pub(crate) fn read_section_address(data: &[u8], index: usize) -> (r: Option<u64>)
    requires
        parses_as_object(data@),
    ensures
        r == object_section_address(data@, index),
{
    let file = object::File::parse(data).unwrap();
    file.section_by_index(object::SectionIndex(index)).ok().map(|s| s.address())
}

/// `symbols()`, each symbol's section index (`SymbolSection::Section`), address, size and name
/// (`None` when the name cannot be read).
#[verifier::external_body]
pub(crate) fn read_symbols(data: &[u8]) -> (v: Vec<SymbolInfo>)
    requires
        parses_as_object(data@),
    ensures
        v@ == object_symbols(data@),
{
    let file = object::File::parse(data).unwrap();
    file.symbols().map(|s| SymbolInfo {
        section: match s.section() {
            object::SymbolSection::Section(i) => Some(i.0),
            _ => None,
        },
        address: s.address(), size: s.size(), name: s.name().ok().map(|n| n.to_string()),
    }).collect()
}

/// `symbol_by_name(name)`, with the symbol's index and `is_undefined`.
#[verifier::external_body]
pub(crate) fn read_symbol_by_name(data: &[u8], name: &str) -> (r: Option<(usize, bool)>)
    requires
        parses_as_object(data@),
    ensures
        r == object_symbol_by_name(data@, name@),
{
    let file = object::File::parse(data).unwrap();
    file.symbol_by_name(name).map(|s| (s.index().0, s.is_undefined()))
}

/// `sections()`, and for each its index and the offsets and symbol targets
/// (`RelocationTarget::Symbol`) of its `relocations()`.
#[verifier::external_body]
pub(crate) fn read_relocation_targets(data: &[u8]) -> (v: Vec<SectionRelocations>)
    requires
        parses_as_object(data@),
    ensures
        v@ == object_relocation_targets(data@),
{
    let file = object::File::parse(data).unwrap();
    file.sections().map(|s| SectionRelocations {
        index: s.index().0,
        relocations: s.relocations().map(|(offset, r)| match r.target() {
            object::RelocationTarget::Symbol(i) => (offset, Some(i.0)),
            _ => (offset, None),
        }).collect(),
    }).collect()
}

} // verus!
