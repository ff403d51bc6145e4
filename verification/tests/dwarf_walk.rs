use klint::binary_analysis::dwarf::{DwarfError, SectionInfo, SectionLayout, HALF_GAP};
use klint::binary_analysis::dwarf_walk::{
    call_location, decode_ranges, die_ranges, file_name, is_inlined_entry, is_named_entry,
    linkage_name, locate_in_rows, row_location, try_decode_ranges, AttrLookup, FileEntryInfo,
    InlineWalker, LineRow, LineScan, Location, NameAttr, NameLookup, RangeAttr,
};
use std::path::PathBuf;

fn layout() -> SectionLayout {
    SectionLayout::for_sections(&vec![
        SectionInfo { index: 0, alloc: false, size: 0, align: 0 },
        SectionInfo { index: 1, alloc: true, size: 0x100, align: 16 },
        SectionInfo { index: 2, alloc: true, size: 0x100, align: 16 },
    ])
    .unwrap()
}

fn dwarf_err(e: DwarfError) -> &'static str {
    match e {
        DwarfError::UnexpectedDwarf(m) | DwarfError::UnexpectedElf(m) | DwarfError::Other(m) => m,
        other => panic!("unexpected {:?}", other),
    }
}

#[test]
fn ranges_decode_into_one_section() {
    let l = layout();
    let a = l.encode(1, 0x10).unwrap();
    let b = l.encode(1, 0x40).unwrap();
    let (s, r) = decode_ranges(&l, &vec![(a, 0x8), (b, 0x20)]).unwrap();
    assert_eq!(s, 1);
    assert_eq!(r, vec![(0x10, 0x18), (0x40, 0x60)]);
    assert_eq!(decode_ranges(&l, &vec![]).unwrap(), (0, vec![]));
}

#[test]
fn ranges_spanning_sections_are_rejected() {
    let l = layout();
    let a = l.encode(1, 0).unwrap();
    let b = l.encode(2, 0).unwrap();
    assert_eq!(dwarf_err(decode_ranges(&l, &vec![(a, 1), (b, 1)]).unwrap_err()), "Single DIE covers multiple sections");
    assert!(try_decode_ranges(&l, &vec![(a, 1), (b + 0x100 + HALF_GAP + 1, 1)]).is_none());
}

fn name(s: &str) -> Option<String> {
    Some(s.to_string())
}

fn loc(line: u64) -> Location {
    Location { file: PathBuf::from("lib.rs"), line, column: 5 }
}

#[test]
fn inline_walker_builds_a_chain() {
    let mut w = InlineWalker::new();
    w.begin_unit();
    // subprogram `outer` with an inlined `mid`, which inlines `inner`.
    w.enter(1, name("outer"));
    w.enter(1, name("mid"));
    let ranges = (1usize, vec![(0x10i64, 0x20i64)]);
    w.visit_inlined(1, &ranges, 0x18, Ok(Some(loc(3)))).unwrap();
    w.enter(1, None);
    w.enter(1, name("inner"));
    w.visit_inlined(1, &ranges, 0x18, Ok(None)).unwrap();
    // A sibling that does not cover the offset is ignored.
    w.enter(0, name("other"));
    w.visit_inlined(1, &(1usize, vec![(0x30i64, 0x40i64)]), 0x18, Ok(None)).unwrap();
    // Another section is ignored too.
    w.visit_inlined(2, &ranges, 0x18, Ok(None)).unwrap();
    let calls = w.into_calls();
    assert_eq!(calls.len(), 2);
    assert_eq!((calls[0].caller.as_str(), calls[0].callee.as_str()), ("outer", "mid"));
    assert_eq!(calls[0].location.as_ref().unwrap().line, 3);
    assert_eq!((calls[1].caller.as_str(), calls[1].callee.as_str()), ("mid", "inner"));
    assert!(calls[1].location.is_none());
}

#[test]
fn inline_walker_errors() {
    let ranges = (1usize, vec![(0i64, 0x100i64)]);
    let mut w = InlineWalker::new();
    w.enter(1, name("lonely"));
    assert_eq!(dwarf_err(w.visit_inlined(1, &ranges, 4, Ok(None)).unwrap_err()), "DW_TAG_inlined_subroutine is not nested inside DW_TAG_subprogram");

    let mut w = InlineWalker::new();
    w.enter(1, name("a"));
    w.enter(1, name("b"));
    w.visit_inlined(1, &ranges, 4, Ok(None)).unwrap();
    w.enter(-1, name("c"));
    w.enter(1, name("d"));
    assert_eq!(dwarf_err(w.visit_inlined(1, &ranges, 4, Ok(None)).unwrap_err()), "Inlined call does not form a chain");

    let mut w = InlineWalker::new();
    w.enter(1, name("a"));
    w.enter(1, name("b"));
    let e = w.visit_inlined(1, &ranges, 4, Err(DwarfError::Other("bad location"))).unwrap_err();
    assert_eq!(dwarf_err(e), "bad location");
}

#[test]
fn names_prefer_linkage_names() {
    let r = linkage_name(vec![
        NameAttr::Name(Ok("short".to_string())),
        NameAttr::LinkageName(Ok("_ZN4long".to_string())),
    ]);
    assert!(matches!(r, Ok(NameLookup::Found(n)) if n == "_ZN4long"));
    let r = linkage_name(vec![NameAttr::Reference(Some(0x40)), NameAttr::Name(Ok("plain".to_string()))]);
    assert!(matches!(r, Ok(NameLookup::Found(n)) if n == "plain"));
    let r = linkage_name(vec![NameAttr::Reference(Some(0x40))]);
    assert!(matches!(r, Ok(NameLookup::Follow(0x40))));
    assert_eq!(dwarf_err(linkage_name(vec![]).unwrap_err()), "Cannot find name for DW_TAG_subprogram");
    assert_eq!(dwarf_err(linkage_name(vec![NameAttr::Reference(None)]).unwrap_err()), "Unsupported reference type");
    assert_eq!(
        dwarf_err(linkage_name(vec![NameAttr::Failed(DwarfError::Other("x")), NameAttr::LinkageName(Ok("y".to_string()))]).unwrap_err()),
        "x"
    );
}

#[test]
fn call_locations() {
    let f = || Some(Ok(PathBuf::from("a.rs")));
    let r = call_location(AttrLookup::Present(Some(1)), true, f(), AttrLookup::Present(Some(10)), AttrLookup::Missing).unwrap().unwrap();
    assert_eq!((r.line, r.column), (10, 0));
    let r = call_location(AttrLookup::Present(Some(1)), true, f(), AttrLookup::Present(Some(10)), AttrLookup::Present(Some(4))).unwrap().unwrap();
    assert_eq!((r.line, r.column), (10, 4));
    assert!(call_location(AttrLookup::Missing, true, None, AttrLookup::Missing, AttrLookup::Missing).unwrap().is_none());
    assert!(call_location(AttrLookup::Present(Some(1)), true, f(), AttrLookup::Missing, AttrLookup::Missing).unwrap().is_none());
    assert_eq!(dwarf_err(call_location(AttrLookup::Present(Some(1)), false, None, AttrLookup::Missing, AttrLookup::Missing).unwrap_err()), "line number table not present");
    assert_eq!(dwarf_err(call_location(AttrLookup::Present(None), true, None, AttrLookup::Missing, AttrLookup::Missing).unwrap_err()), "file number is not udata");
    assert_eq!(dwarf_err(call_location(AttrLookup::Present(Some(1)), true, f(), AttrLookup::Present(None), AttrLookup::Missing).unwrap_err()), "line number is not udata");
    assert_eq!(dwarf_err(call_location(AttrLookup::Present(Some(1)), true, f(), AttrLookup::Present(Some(2)), AttrLookup::Present(None)).unwrap_err()), "column number is not udata");
}

fn row(l: &SectionLayout, section: usize, off: i64, line: Option<u64>, end: bool) -> LineRow {
    LineRow { address: l.encode(section, off).unwrap(), file_index: 1, line, column: 2, end_sequence: end }
}

#[test]
fn line_scan_finds_the_row_before() {
    let l = layout();
    let mut scan = LineScan::new();
    assert_eq!(scan.step(&l, 1, 0x14, row(&l, 1, 0x10, Some(7), false)).unwrap(), None);
    assert_eq!(scan.step(&l, 1, 0x14, row(&l, 2, 0x10, Some(9), false)).unwrap(), None);
    let found = scan.step(&l, 1, 0x14, row(&l, 1, 0x20, Some(8), false)).unwrap().unwrap();
    assert_eq!(found.line, Some(7));
    let loc = row_location(&found, PathBuf::from("x.rs"));
    assert_eq!((loc.line, loc.column), (7, 2));
}

#[test]
fn line_scan_respects_sequence_ends() {
    let l = layout();
    let mut scan = LineScan::new();
    assert_eq!(scan.step(&l, 1, 0x14, row(&l, 1, 0x10, Some(7), true)).unwrap(), None);
    assert_eq!(scan.step(&l, 1, 0x14, row(&l, 1, 0x20, Some(8), false)).unwrap(), None);
    let mut scan = LineScan::new();
    assert_eq!(scan.step(&l, 1, 0x14, row(&l, 1, 0x10, None, false)).unwrap(), None);
    assert_eq!(scan.step(&l, 1, 0x14, row(&l, 1, 0x20, Some(8), false)).unwrap(), None);
    let r = LineRow { address: 3, file_index: 1, line: Some(1), column: 0, end_sequence: false };
    assert_eq!(dwarf_err(scan.step(&l, 1, 0x14, r).unwrap_err()), "address from unallocated section cannot be decoded");
}

#[test]
fn die_ranges_from_low_pc_and_lists() {
    let l = layout();
    let a = l.encode(1, 0x10).unwrap();
    let b = l.encode(1, 0x40).unwrap();
    let attrs = vec![
        RangeAttr::LowPc { low: Ok(Some(a)), high: Some(Some(0x8)) },
        RangeAttr::Ranges(Some(Ok(vec![(b, b + 0x20)]))),
    ];
    let (s, r) = die_ranges(&l, attrs).unwrap().unwrap();
    assert_eq!(s, 1);
    assert_eq!(r, vec![(0x10, 0x18), (0x40, 0x60)]);
    assert_eq!(die_ranges(&l, vec![]).unwrap().unwrap(), (0, vec![]));
}

#[test]
fn die_ranges_errors() {
    let l = layout();
    let a = l.encode(1, 0x10).unwrap();
    let err = |attrs: Vec<RangeAttr>| dwarf_err(die_ranges(&l, attrs).unwrap().unwrap_err());
    assert_eq!(err(vec![RangeAttr::LowPc { low: Ok(None), high: Some(Some(1)) }]), "DW_AT_low_pc is not an address");
    assert_eq!(err(vec![RangeAttr::LowPc { low: Ok(Some(a)), high: None }]), "DW_AT_high_pc not found at DW_TAG_inlined_subroutine");
    assert_eq!(err(vec![RangeAttr::LowPc { low: Ok(Some(a)), high: Some(None) }]), "DW_AT_high_pc is not udata");
    assert_eq!(err(vec![RangeAttr::Ranges(None)]), "DW_AT_ranges is not rnglist reference");
    // The first malformed attribute decides.
    assert_eq!(
        err(vec![RangeAttr::Ranges(None), RangeAttr::LowPc { low: Ok(None), high: None }]),
        "DW_AT_ranges is not rnglist reference"
    );
}

#[test]
fn file_names_join_the_directory() {
    let entry = |dir: Option<Option<&str>>, name: &str| FileEntryInfo {
        directory: dir.map(|d| d.map(|d| Ok(d.to_string()))),
        path_name: Ok(name.to_string()),
    };
    assert_eq!(file_name(Some(entry(None, "lib.rs"))).unwrap(), PathBuf::from("lib.rs"));
    assert_eq!(file_name(Some(entry(Some(Some("src")), "lib.rs"))).unwrap(), PathBuf::from("src/lib.rs"));
    assert_eq!(dwarf_err(file_name(None).unwrap_err()), "debug_lines referenced non-existent file");
    assert_eq!(
        dwarf_err(file_name(Some(entry(Some(None), "lib.rs"))).unwrap_err()),
        "debug_lines referenced non-existent directory"
    );
}

#[test]
fn entry_kinds_and_depths() {
    assert!(is_named_entry(0x2e) && is_named_entry(0x1d) && !is_named_entry(0x11));
    assert!(is_inlined_entry(0x1d) && !is_inlined_entry(0x2e));
    let mut w = InlineWalker::new();
    w.begin_unit();
    w.enter_at(0, None);
    assert_eq!(w.last_depth(), Some(0));
    w.enter_at(1, Some("f".to_string()));
    w.enter_at(2, Some("g".to_string()));
    // Back up to a sibling of `f`: `f` and `g` leave the stack.
    w.enter_at(1, Some("h".to_string()));
    let l = layout();
    let a = l.encode(1, 0).unwrap();
    w.enter_at(2, Some("i".to_string()));
    w.visit_inlined(1, &decode_ranges(&l, &vec![(a, 0x10)]).unwrap(), 4, Ok(None)).unwrap();
    let calls = w.into_calls();
    assert_eq!(calls.len(), 1);
    assert_eq!((calls[0].caller.as_str(), calls[0].callee.as_str()), ("h", "i"));
}

#[test]
fn locating_in_rows() {
    let l = layout();
    let at = |off: i64| l.encode(1, off).unwrap();
    let row = |addr: u64, line: u64, end: bool| LineRow { address: addr, file_index: 1, line: Some(line), column: 0, end_sequence: end };
    let rows = vec![row(at(0), 3, false), row(at(0x10), 7, false), row(at(0x20), 9, true)];
    assert_eq!(locate_in_rows(&l, 1, 0x14, &rows, None).unwrap().unwrap(), Some(rows[1]));
    assert_eq!(locate_in_rows(&l, 1, 0x30, &rows, None).unwrap().unwrap(), None);
    let stopped = locate_in_rows(&l, 1, 0x30, &rows, Some(DwarfError::Other("stop")));
    assert_eq!(dwarf_err(stopped.unwrap().unwrap_err()), "stop");
    // A row found before the reading stopped still counts.
    assert_eq!(locate_in_rows(&l, 1, 0x4, &rows, Some(DwarfError::Other("stop"))).unwrap().unwrap(), Some(rows[0]));
}
