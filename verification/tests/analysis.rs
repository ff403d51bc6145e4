use klint::binary_analysis::build_error::{build_error_references, check_call_stack_root, Reference, SectionRelocations};
use klint::binary_analysis::dwarf_walk::Call;
use klint::binary_analysis::reconstruct::{line_index, span_in_line};
use klint::binary_analysis::stack_size::{diagnostic_level, frame_limit, DiagLevel, FrameLimit, LintLevel};
use klint::binary_analysis::{find_symbol_in, try_find_symbol_in, SymbolInfo};
use klint::attribute::Span;
use klint::diagnostic_items::{infer_build_error_diagnostic_item, ExportedSymbolInfo};
use klint::util::{push_decimal, str_to_i32, str_to_u32};

fn sym(section: Option<usize>, address: u64, size: u64, name: Option<&str>) -> SymbolInfo {
    SymbolInfo { section, address, size, name: name.map(|s| s.to_string()) }
}

#[test]
fn symbol_lookup_by_offset() {
    let syms = vec![
        sym(Some(2), 0, 0x100, Some("other_section")),
        sym(Some(1), 0, 0x10, Some("first")),
        sym(Some(1), 0x10, 0x20, None),
        sym(Some(1), 0x10, 0x20, Some("second")),
        sym(None, 0x10, 0x20, Some("undefined")),
    ];
    assert_eq!(find_symbol_in(&syms, 1, 4), Some(("first".to_string(), 4)));
    assert_eq!(find_symbol_in(&syms, 1, 0x14), Some(("second".to_string(), 4)));
    assert_eq!(find_symbol_in(&syms, 1, 0x30), None);
    assert_eq!(find_symbol_in(&syms, 3, 0), None);
    let bad = vec![sym(Some(1), u64::MAX, 2, Some("wraps"))];
    assert_eq!(try_find_symbol_in(&bad, 1, 0), None);
}

#[test]
fn build_error_references_only_for_undefined_symbol() {
    let sections = vec![
        SectionRelocations { index: 1, relocations: vec![(0x4, Some(7)), (0x8, Some(3)), (0xc, None)] },
        SectionRelocations { index: 4, relocations: vec![(0x20, Some(7))] },
    ];
    assert_eq!(
        build_error_references(Some((7, true)), &sections),
        vec![Reference { section: 1, offset: 4 }, Reference { section: 4, offset: 0x20 }]
    );
    assert!(build_error_references(Some((7, false)), &sections).is_empty());
    assert!(build_error_references(None, &sections).is_empty());
}

#[test]
fn call_stack_root_check() {
    let calls = vec![Call { caller: "f".to_string(), callee: "g".to_string(), location: None }];
    assert!(check_call_stack_root(&calls, &"f".to_string()).is_ok());
    assert!(check_call_stack_root(&calls, &"h".to_string()).is_err());
    assert!(check_call_stack_root(&vec![], &"h".to_string()).is_ok());
}

#[test]
fn spans_from_lines() {
    assert_eq!(span_in_line(100, 120, 5), Span { lo: 104, hi: 119 });
    assert_eq!(span_in_line(100, 120, 0), Span { lo: 100, hi: 119 });
    assert_eq!(line_index(0), 0);
    assert_eq!(line_index(12), 11);
}

#[test]
fn stack_size_levels() {
    assert_eq!(diagnostic_level(LintLevel::Allow), None);
    assert_eq!(diagnostic_level(LintLevel::Expect), None);
    assert_eq!(diagnostic_level(LintLevel::Warn), Some(DiagLevel::Warning));
    assert_eq!(diagnostic_level(LintLevel::ForceWarn), Some(DiagLevel::ForceWarning));
    assert_eq!(diagnostic_level(LintLevel::Deny), Some(DiagLevel::Error));
    assert_eq!(diagnostic_level(LintLevel::Forbid), Some(DiagLevel::Error));
}

#[test]
fn stack_frame_limit_from_cfg() {
    let cfg = |v: &[(&str, Option<&str>)]| -> Vec<(String, Option<String>)> {
        v.iter().map(|(k, v)| (k.to_string(), v.map(|s| s.to_string()))).collect()
    };
    assert_eq!(frame_limit(&cfg(&[])), FrameLimit::Missing);
    assert_eq!(frame_limit(&cfg(&[("CONFIG_FRAME_WARN", None), ("CONFIG_FRAME_WARN", Some("4096"))])), FrameLimit::Limit(4096));
    assert_eq!(frame_limit(&cfg(&[("CONFIG_FRAME_WARN", Some(""))])), FrameLimit::Missing);
    assert_eq!(frame_limit(&cfg(&[("CONFIG_FRAME_WARN", Some("big"))])), FrameLimit::Invalid);
    assert_eq!(frame_limit(&cfg(&[("OTHER", Some("1")), ("CONFIG_FRAME_WARN", Some("1024")), ("CONFIG_FRAME_WARN", Some("8"))])), FrameLimit::Limit(1024));
}

#[test]
fn build_error_item_is_first_non_generic_match() {
    let s = |g: bool, n: &str| ExportedSymbolInfo { non_generic: g, name: n.to_string() };
    assert_eq!(infer_build_error_diagnostic_item(&vec![s(true, "a"), s(false, "rust_build_error"), s(true, "rust_build_error"), s(true, "rust_build_error")]), Some(2));
    assert_eq!(infer_build_error_diagnostic_item(&vec![s(true, "a")]), None);
}

#[test]
fn integer_parsing_follows_str_parse() {
    for t in ["0", "7", "+7", "-7", "007", "4294967295", "4294967296", "-0", "", "+", "-", "1_0", "0x1", " 1", "2147483647", "2147483648", "-2147483648", "-2147483649", "99999999999999999999"] {
        let s = t.to_string();
        assert_eq!(str_to_u32(&s), t.parse::<u32>().ok(), "u32 {t:?}");
        assert_eq!(str_to_i32(&s), t.parse::<i32>().ok(), "i32 {t:?}");
    }
}

#[test]
fn printed_bounds_parse_back() {
    for n in [0u32, 9, 10, 1234, 2147483647, 2147483648, 4294967295] {
        let mut s = String::new();
        push_decimal(&mut s, n);
        assert_eq!(s, n.to_string());
        assert_eq!(str_to_u32(&s), Some(n));
        assert_eq!(str_to_i32(&s), if n <= i32::MAX as u32 { Some(n as i32) } else { None });
    }
}
