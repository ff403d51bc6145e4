use klint::binary_analysis::build_error::{build_error_references_of, Reference};
use klint::binary_analysis::dwarf::{load_dwarf, load_section, DwarfError, SectionLayout, SECTION_GAP};
use klint::binary_analysis::find_symbol_from_section_offset;
use object::write::{Object as WriteObject, Relocation, StandardSection, Symbol, SymbolSection};
use object::{
    Architecture, BinaryFormat, Endianness, Object, ObjectSection, RelocationEncoding,
    RelocationFlags, RelocationKind, SectionKind, SymbolFlags, SymbolKind, SymbolScope,
};

fn symbol(name: &str, value: u64, size: u64, section: SymbolSection) -> Symbol {
    Symbol {
        name: name.as_bytes().to_vec(),
        value,
        size,
        kind: SymbolKind::Text,
        scope: SymbolScope::Linkage,
        weak: false,
        section,
        flags: SymbolFlags::None,
    }
}

/// A relocatable x86-64 object: `f` and `g` in `.text`, a call from `g` to an undefined
/// `rust_build_error`, and a `.debug_info` word pointing 2 bytes into `g`.
fn object_file(define_build_error: bool) -> Vec<u8> {
    let mut obj = WriteObject::new(BinaryFormat::Elf, Architecture::X86_64, Endianness::Little);
    let text = obj.section_id(StandardSection::Text);
    obj.append_section_data(text, &[0x90; 32], 16);
    obj.add_symbol(symbol("f", 0, 16, SymbolSection::Section(text)));
    let g = obj.add_symbol(symbol("g", 16, 16, SymbolSection::Section(text)));
    let target = if define_build_error {
        obj.add_symbol(symbol("rust_build_error", 0, 4, SymbolSection::Section(text)))
    } else {
        obj.add_symbol(symbol("rust_build_error", 0, 0, SymbolSection::Undefined))
    };
    obj.add_relocation(
        text,
        Relocation {
            offset: 20,
            symbol: target,
            addend: -4,
            flags: RelocationFlags::Generic {
                kind: RelocationKind::Relative,
                encoding: RelocationEncoding::Generic,
                size: 32,
            },
        },
    )
    .unwrap();
    let debug = obj.add_section(Vec::new(), b".debug_info".to_vec(), SectionKind::Debug);
    obj.append_section_data(debug, &[0u8; 16], 1);
    obj.add_relocation(
        debug,
        Relocation {
            offset: 8,
            symbol: g,
            addend: 2,
            flags: RelocationFlags::Generic {
                kind: RelocationKind::Absolute,
                encoding: RelocationEncoding::Generic,
                size: 64,
            },
        },
    )
    .unwrap();
    obj.write().unwrap()
}

fn text_index(data: &[u8]) -> usize {
    object::File::parse(data).unwrap().section_by_name(".text").unwrap().index().0
}

#[test]
fn layout_of_an_object_file() {
    let data = object_file(false);
    let layout = SectionLayout::for_object(&data).unwrap().unwrap();
    assert!(layout.check_wf());
    let text = text_index(&data);
    // `.text` is the only allocated section: it starts a gap after the largest unallocated
    // section, aligned.
    let file = object::File::parse(&*data).unwrap();
    let reserve = file
        .sections()
        .filter(|s| match s.flags() {
            object::SectionFlags::Elf { sh_flags, .. } => sh_flags.0 & object::elf::SHF_ALLOC.0 == 0,
            _ => true,
        })
        .map(|s| s.size())
        .max()
        .unwrap_or(0);
    assert!(reserve >= 16);
    assert_eq!(layout.encode(text, 0).unwrap(), (reserve + SECTION_GAP + 15) / 16 * 16);
    assert_eq!(layout.decode(layout.encode(text, 5).unwrap()).unwrap(), (text, 5));
}

#[test]
fn not_an_object_file() {
    assert!(SectionLayout::for_object(b"not an object").is_none());
    assert!(find_symbol_from_section_offset(b"nope", 1, 0).is_none());
    assert!(build_error_references_of(b"nope").is_none());
}

#[test]
fn debug_sections_are_relocated() {
    let data = object_file(false);
    let layout = SectionLayout::for_object(&data).unwrap().unwrap();
    let bytes = load_section(&data, &layout, ".debug_info").unwrap().unwrap();
    assert_eq!(bytes.len(), 16);
    assert_eq!(&bytes[..8], &[0u8; 8]);
    let g = layout.encode(text_index(&data), 16).unwrap();
    assert_eq!(u64::from_le_bytes(bytes[8..].try_into().unwrap()), g + 2);
    assert!(load_section(&data, &layout, ".debug_line").unwrap().unwrap().is_empty());
}

#[test]
fn non_absolute_relocations_are_refused() {
    let data = object_file(false);
    let layout = SectionLayout::for_object(&data).unwrap().unwrap();
    match load_section(&data, &layout, ".text").unwrap() {
        Err(DwarfError::UnexpectedElf(m)) => {
            assert_eq!(m, "non-absolute relocation kind found in DWARF section")
        }
        other => panic!("unexpected {:?}", other),
    }
}

#[test]
fn symbols_by_offset() {
    let data = object_file(false);
    let text = text_index(&data);
    assert_eq!(find_symbol_from_section_offset(&data, text, 20), Some(Some(("g".to_string(), 4))));
    assert_eq!(find_symbol_from_section_offset(&data, text, 3), Some(Some(("f".to_string(), 3))));
    assert_eq!(find_symbol_from_section_offset(&data, text, 40), Some(None));
}

#[test]
fn build_error_reference_is_found() {
    let data = object_file(false);
    let text = text_index(&data);
    assert_eq!(build_error_references_of(&data), Some(vec![Reference { section: text, offset: 20 }]));
    let defining = object_file(true);
    assert_eq!(build_error_references_of(&defining), Some(vec![]));
}

#[test]
fn dwarf_of_an_object_file() {
    let data = object_file(false);
    let dwarf = load_dwarf(&data).unwrap().unwrap();
    let layout = SectionLayout::for_object(&data).unwrap().unwrap();
    let text = text_index(&data);
    assert!(dwarf.section_layout().check_wf());
    assert_eq!(dwarf.section_layout().encode(text, 0).unwrap(), layout.encode(text, 0).unwrap());
    // The relocated `.debug_info` word reaches `gimli`.
    let shown = format!("{:?}", dwarf.dwarf_sections().debug_info);
    let word = load_section(&data, &layout, ".debug_info").unwrap().unwrap();
    assert!(shown.contains(&format!("{:?}", word)));
    assert!(load_dwarf(b"not an object file").is_none());
}

#[test]
fn big_endian_objects_are_refused() {
    let mut obj = WriteObject::new(BinaryFormat::Elf, Architecture::PowerPc64, Endianness::Big);
    let text = obj.section_id(StandardSection::Text);
    obj.append_section_data(text, &[0; 8], 4);
    let data = obj.write().unwrap();
    match load_dwarf(&data) {
        Some(Err(DwarfError::UnexpectedElf(m))) => assert_eq!(m, "only little endian object files are supported"),
        other => panic!("unexpected {:?}", other.map(|r| r.map(|_| ()))),
    }
}
