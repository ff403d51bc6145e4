use klint::binary_analysis::dwarf::{
    apply_relocations, next_multiple_of, try_apply_relocations, DwarfError, Relocation,
    RelocationTarget, SectionInfo, SectionLayout, SymbolPlace, HALF_GAP, SECTION_GAP,
};

fn sec(index: usize, alloc: bool, size: u64, align: u64) -> SectionInfo {
    SectionInfo { index, alloc, size, align }
}

fn elf_err(e: DwarfError) -> &'static str {
    match e {
        DwarfError::UnexpectedElf(m) => m,
        other => panic!("unexpected {:?}", other),
    }
}

fn layout() -> SectionLayout {
    // Section 0 is the null section; 1 and 3 are allocated; 2 is debug info.
    SectionLayout::for_sections(&vec![
        sec(0, false, 0, 0),
        sec(1, true, 100, 16),
        sec(2, false, 5000, 1),
        sec(3, true, 10, 8),
    ])
    .unwrap()
}

#[test]
fn next_multiple() {
    assert_eq!(next_multiple_of(0, 16), Some(0));
    assert_eq!(next_multiple_of(17, 16), Some(32));
    assert_eq!(next_multiple_of(32, 16), Some(32));
    assert_eq!(next_multiple_of(5, 0), None);
    assert_eq!(next_multiple_of(u64::MAX, 2), None);
}

#[test]
fn sections_are_laid_out_after_gaps() {
    let l = layout();
    // The first allocated section starts after the region that the largest unallocated
    // section needs at address 0 plus one gap, aligned; the next one a gap after its end.
    let first = next_multiple_of(5000 + SECTION_GAP, 16).unwrap();
    assert_eq!(l.encode(1, 0).unwrap(), first);
    let second = next_multiple_of(first + 100 + SECTION_GAP, 8).unwrap();
    assert_eq!(l.encode(3, 0).unwrap(), second);
    // Unallocated sections stay at address 0.
    assert_eq!(l.encode(2, 7).unwrap(), 7);
}

#[test]
fn encode_rejects_far_offsets() {
    let l = layout();
    assert_eq!(elf_err(l.encode(1, -(HALF_GAP as i64) - 1).unwrap_err()), "symbol offset too big");
    assert_eq!(elf_err(l.encode(1, 100 + HALF_GAP as i64 + 1).unwrap_err()), "symbol offset too big");
    assert!(l.encode(1, 100 + HALF_GAP as i64).is_ok());
}

#[test]
fn decode_undoes_encode() {
    let l = layout();
    for (s, o) in [(1usize, 0i64), (1, 99), (1, -5), (3, 0), (3, 12), (1, 100 + HALF_GAP as i64)] {
        let a = l.encode(s, o).unwrap();
        assert!(!l.decode_would_panic(a));
        assert_eq!(l.decode(a).unwrap(), (s, o));
    }
}

#[test]
fn decode_errors() {
    let l = layout();
    assert_eq!(elf_err(l.decode(5).unwrap_err()), "address from unallocated section cannot be decoded");
    assert_eq!(elf_err(l.decode(u64::MAX).unwrap_err()), "unexpected symbol offset");
}

#[test]
fn decode_far_past_last_section_would_panic() {
    let l = layout();
    let last = l.encode(3, 0).unwrap();
    assert!(l.decode_would_panic(last + 10 + HALF_GAP + 1));
    assert!(!l.decode_would_panic(last + 10 + HALF_GAP));
}

#[test]
fn layout_overflow() {
    let r = SectionLayout::for_sections(&vec![sec(0, true, u64::MAX - 10, 1)]);
    assert_eq!(elf_err(r.err().unwrap()), "cannot lay all sections in 64-bit address space");
    let r = SectionLayout::for_sections(&vec![sec(0, true, 10, 0)]);
    assert_eq!(elf_err(r.err().unwrap()), "cannot lay all sections in 64-bit address space");
    let r = SectionLayout::for_sections(&vec![sec(1, true, 0x7fff_ffff_ffff_0000, 1)]);
    assert!(r.is_err());
}

#[test]
fn empty_object_has_one_slot() {
    let l = SectionLayout::for_sections(&vec![]).unwrap();
    assert_eq!(l.encode(0, 3).unwrap(), 3);
}

fn reloc(offset: u64, target: RelocationTarget, addend: i64, size: u8, implicit: bool) -> Relocation {
    Relocation { offset, absolute: true, target, addend, size, implicit_addend: implicit, section_address: Some(0) }
}

#[test]
fn relocations_patch_little_endian() {
    let l = layout();
    let base = l.encode(1, 0).unwrap();
    let mut data = vec![0u8; 16];
    let relocs = vec![
        reloc(0, RelocationTarget::Section(1), 4, 64, false),
        reloc(8, RelocationTarget::Symbol(Some(SymbolPlace { section: Some(3), address: 2 })), 0, 32, false),
    ];
    apply_relocations(&mut data, &relocs, &l).unwrap();
    assert_eq!(u64::from_le_bytes(data[0..8].try_into().unwrap()), base + 4);
    let third = l.encode(3, 2).unwrap();
    assert_eq!(u32::from_le_bytes(data[8..12].try_into().unwrap()) as u64, third);
    assert_eq!(&data[12..], &[0, 0, 0, 0]);
}

#[test]
fn implicit_addends_are_read_from_the_section() {
    let l = layout();
    let base = l.encode(1, 0).unwrap();
    let mut data = 7i64.to_le_bytes().to_vec();
    apply_relocations(&mut data, &vec![reloc(0, RelocationTarget::Section(1), 1, 64, true)], &l).unwrap();
    assert_eq!(i64::from_le_bytes(data[..].try_into().unwrap()), base as i64 + 8);
    let mut data = (-3i32).to_le_bytes().to_vec();
    apply_relocations(&mut data, &vec![reloc(0, RelocationTarget::Section(1), 0, 32, true)], &l).unwrap();
    assert_eq!(i32::from_le_bytes(data[..].try_into().unwrap()) as i64, base as i64 - 3);
}

#[test]
fn relocation_errors() {
    let l = layout();
    let run = |mut r: Relocation, section_address: Option<u64>| {
        r.section_address = section_address;
        let mut data = vec![0u8; 8];
        elf_err(apply_relocations(&mut data, &vec![r], &l).unwrap_err())
    };
    let mut r = reloc(0, RelocationTarget::Section(1), 0, 64, false);
    r.absolute = false;
    assert_eq!(run(r, Some(0)), "non-absolute relocation kind found in DWARF section");
    assert_eq!(run(reloc(0, RelocationTarget::Symbol(None), 0, 64, false), Some(0)), "symbol not found");
    assert_eq!(
        run(reloc(0, RelocationTarget::Symbol(Some(SymbolPlace { section: None, address: 0 })), 0, 64, false), Some(0)),
        "symbol is not associated with a section"
    );
    assert_eq!(run(reloc(0, RelocationTarget::Absolute, 0, 64, false), Some(0)), "absolute relocation target found in DWARF section");
    assert_eq!(run(reloc(0, RelocationTarget::Section(3), 0, 64, false), None), "section not found");
    assert_eq!(run(reloc(0, RelocationTarget::Section(1), 0, 64, false), Some(4096)), "section address is non-zero in a relocatable file");
    assert_eq!(run(reloc(0, RelocationTarget::Section(1), 0x7fff_ffff, 32, false), Some(0)), "relocation truncated to fit");
    assert_eq!(run(reloc(0, RelocationTarget::Section(1), 0, 16, false), Some(0)), "unknown relocation size");
    assert_eq!(
        run(reloc(0, RelocationTarget::Symbol(Some(SymbolPlace { section: Some(1), address: 1 << 20 })), 0, 64, false), Some(0)),
        "symbol offset too big"
    );
}

#[test]
fn relocation_past_the_data_would_panic() {
    let l = layout();
    let mut data = vec![0u8; 6];
    assert!(try_apply_relocations(&mut data, &vec![reloc(0, RelocationTarget::Section(1), 0, 64, false)], &l).is_none());
    let mut data = vec![0u8; 8];
    assert!(try_apply_relocations(&mut data, &vec![reloc(0, RelocationTarget::Section(9), 0, 64, false)], &l).is_none());
}

#[test]
fn layout_places_each_section() {
    let sections = vec![
        sec(0, false, 0x30, 0),
        sec(1, true, 0x21, 16),
        sec(2, false, 0x10, 1),
        sec(3, true, 0x8, 64),
    ];
    let l = SectionLayout::for_sections(&sections).unwrap();
    assert!(l.check_wf());
    // Unallocated sections sit at address 0 and are not decoded back to.
    assert_eq!(l.encode(0, 0).unwrap(), 0);
    assert_eq!(l.encode(2, 0).unwrap(), 0);
    let a1 = l.encode(1, 0).unwrap();
    let a3 = l.encode(3, 0).unwrap();
    assert!(a1 >= 0x30 + SECTION_GAP && a1 % 16 == 0);
    assert!(a3 >= a1 + 0x21 + SECTION_GAP && a3 % 64 == 0);
    assert_eq!(l.decode(a3 + 4).unwrap(), (3, 4));
}

#[test]
fn large_unallocated_sections_stay_clear_of_allocated_ones() {
    let l = SectionLayout::for_sections(&vec![sec(1, false, 1_000_000, 1), sec(2, true, 16, 16)]).unwrap();
    assert!(l.encode(2, 0).unwrap() >= 1_000_000 + SECTION_GAP);
    assert_eq!(l.encode(1, 999_999).unwrap(), 999_999);
}
