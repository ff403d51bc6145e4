use klint::attribute::{
    check_klint_attribute, klint_attributes, parse_klint_attribute, AttrArgs, AttrDiagnostic,
    AttrItem, AttrPath, Attribute, DelimSpan, KlintAttribute, Lit, LitKind, MetaItemLit,
    PreemptCountHelp, PreemptionCount, Span, Token, TokenKind,
};
use klint::preempt_count::ExpectationRange;

fn sp(lo: u32) -> Span {
    Span { lo, hi: lo + 1 }
}

fn ident(name: &str, at: u32) -> Token {
    Token { kind: TokenKind::Ident(name.to_string()), span: sp(at) }
}

fn punct(kind: TokenKind, at: u32) -> Token {
    Token { kind, span: sp(at) }
}

fn lit_int(text: &str, at: u32) -> Token {
    Token {
        kind: TokenKind::Literal(Lit {
            kind: LitKind::Integer,
            symbol: text.to_string(),
            suffix: None,
        }),
        span: sp(at),
    }
}

const DSPAN: DelimSpan = DelimSpan { open: Span { lo: 100, hi: 101 }, close: Span { lo: 200, hi: 201 } };

fn attr(path: &[&str], args: AttrArgs) -> Attribute {
    Attribute::Unparsed(AttrItem {
        path: AttrPath { segments: path.iter().map(|s| s.to_string()).collect(), span: Span { lo: 50, hi: 60 } },
        args,
        span: Span { lo: 40, hi: 90 },
    })
}

fn preempt(tokens: Vec<Token>) -> Attribute {
    attr(&["klint", "preempt_count"], AttrArgs::Delimited { dspan: DSPAN, tokens })
}

fn pc_err(span: Span, help: PreemptCountHelp) -> AttrDiagnostic {
    AttrDiagnostic::InvalidPreemptCountAttribute { span, help }
}

fn expect_pc(a: Attribute) -> PreemptionCount {
    match parse_klint_attribute(&a) {
        Ok(Some(KlintAttribute::PreemptionCount(pc))) => pc,
        other => panic!("unexpected {:?}", other),
    }
}

fn expect_err(a: Attribute) -> AttrDiagnostic {
    match parse_klint_attribute(&a) {
        Err(d) => d,
        other => panic!("unexpected {:?}", other),
    }
}

#[test]
fn foreign_attributes_are_ignored() {
    assert!(matches!(parse_klint_attribute(&Attribute::Parsed), Ok(None)));
    assert!(matches!(parse_klint_attribute(&attr(&["inline"], AttrArgs::Empty)), Ok(None)));
    assert!(matches!(parse_klint_attribute(&attr(&["rustfmt", "skip"], AttrArgs::Empty)), Ok(None)));
}

#[test]
fn shorthands() {
    let top = expect_pc(attr(&["klint", "any_context"], AttrArgs::Empty));
    assert_eq!(top, PreemptionCount { adjustment: None, expectation: Some(ExpectationRange { lo: 0, hi: None }), unchecked: false });
    assert_eq!(expect_pc(attr(&["klint", "atomic_context"], AttrArgs::Empty)), top);
    assert_eq!(
        expect_pc(attr(&["klint", "atomic_context_only"], AttrArgs::Empty)).expectation,
        Some(ExpectationRange { lo: 1, hi: None })
    );
    assert_eq!(
        expect_pc(attr(&["klint", "process_context"], AttrArgs::Empty)).expectation,
        Some(ExpectationRange { lo: 0, hi: Some(1) })
    );
}

#[test]
fn other_klint_attributes() {
    assert!(matches!(
        parse_klint_attribute(&attr(&["klint", "report_preempt_count"], AttrArgs::Empty)),
        Ok(Some(KlintAttribute::ReportPreeptionCount))
    ));
    assert!(matches!(
        parse_klint_attribute(&attr(&["klint", "dump_mir"], AttrArgs::Empty)),
        Ok(Some(KlintAttribute::DumpMir))
    ));
    let di = attr(
        &["klint", "diagnostic_item"],
        AttrArgs::Eq { eq_span: sp(70), expr: MetaItemLit::Str("c_str".to_string()) },
    );
    match parse_klint_attribute(&di) {
        Ok(Some(KlintAttribute::DiagnosticItem(name))) => assert_eq!(name, "c_str"),
        other => panic!("unexpected {:?}", other),
    }
}

#[test]
fn malformed_paths_and_items() {
    assert_eq!(
        expect_err(attr(&["klint", "a", "b"], AttrArgs::Empty)),
        AttrDiagnostic::InvalidAttribute { span: Span { lo: 40, hi: 90 } }
    );
    assert_eq!(
        expect_err(attr(&["klint", "no_such_thing"], AttrArgs::Empty)),
        AttrDiagnostic::UnknownAttribute { span: Span { lo: 50, hi: 60 } }
    );
    assert_eq!(
        expect_err(attr(&["klint", "diagnostic_item"], AttrArgs::Empty)),
        AttrDiagnostic::InvalidDiagnosticItem { span: Span { lo: 40, hi: 90 } }
    );
    assert_eq!(
        expect_err(attr(
            &["klint", "diagnostic_item"],
            AttrArgs::Eq { eq_span: sp(70), expr: MetaItemLit::Other }
        )),
        AttrDiagnostic::InvalidDiagnosticItem { span: Span { lo: 40, hi: 90 } }
    );
}

#[test]
fn preempt_count_without_arguments() {
    assert_eq!(
        expect_err(attr(&["klint", "preempt_count"], AttrArgs::Empty)),
        pc_err(Span { lo: 40, hi: 90 }, PreemptCountHelp::CorrectUsage)
    );
    assert_eq!(
        expect_err(preempt(vec![])),
        pc_err(Span { lo: 100, hi: 201 }, PreemptCountHelp::PropertyRequired)
    );
    assert_eq!(
        expect_err(preempt(vec![ident("unchecked", 1)])),
        pc_err(Span { lo: 100, hi: 201 }, PreemptCountHelp::PropertyRequired)
    );
}

#[test]
fn missing_values() {
    assert_eq!(
        expect_err(preempt(vec![ident("adjust", 1), punct(TokenKind::Eq, 2)])),
        pc_err(Span { lo: 200, hi: 201 }, PreemptCountHelp::IntegerExpected)
    );
    assert_eq!(
        expect_err(preempt(vec![ident("expect", 1), punct(TokenKind::Eq, 2)])),
        pc_err(Span { lo: 200, hi: 201 }, PreemptCountHelp::RangeExpected)
    );
}

#[test]
fn adjust_values() {
    let pc = expect_pc(preempt(vec![
        ident("adjust", 1),
        punct(TokenKind::Eq, 2),
        lit_int("1", 3),
        punct(TokenKind::Comma, 4),
        ident("unchecked", 5),
    ]));
    assert_eq!(pc, PreemptionCount { adjustment: Some(1), expectation: None, unchecked: true });
    let pc = expect_pc(preempt(vec![
        ident("adjust", 1),
        punct(TokenKind::Eq, 2),
        punct(TokenKind::Minus, 3),
        lit_int("1", 4),
        punct(TokenKind::Comma, 5),
        ident("unchecked", 6),
    ]));
    assert_eq!(pc.adjustment, Some(-1));
}

#[test]
fn expect_ranges() {
    let one = |toks: Vec<Token>| {
        let mut v = vec![ident("expect", 1), punct(TokenKind::Eq, 2)];
        v.extend(toks);
        expect_pc(preempt(v)).expectation.unwrap()
    };
    assert_eq!(one(vec![lit_int("0", 3)]), ExpectationRange { lo: 0, hi: Some(1) });
    assert_eq!(one(vec![lit_int("0", 3), punct(TokenKind::DotDot, 4)]), ExpectationRange { lo: 0, hi: None });
    assert_eq!(one(vec![punct(TokenKind::DotDot, 3)]), ExpectationRange { lo: 0, hi: None });
    assert_eq!(one(vec![lit_int("1", 3), punct(TokenKind::DotDot, 4), lit_int("3", 5)]), ExpectationRange { lo: 1, hi: Some(3) });
    assert_eq!(one(vec![lit_int("1", 3), punct(TokenKind::DotDotEq, 4), lit_int("3", 5)]), ExpectationRange { lo: 1, hi: Some(4) });
    assert_eq!(one(vec![punct(TokenKind::DotDotEq, 3), lit_int("2", 4)]), ExpectationRange { lo: 0, hi: Some(3) });
    assert_eq!(
        one(vec![lit_int("4294967295", 3), punct(TokenKind::DotDot, 4)]),
        ExpectationRange { lo: u32::MAX, hi: None }
    );
}

#[test]
fn empty_range_is_rejected() {
    let err = expect_err(preempt(vec![
        ident("expect", 1),
        punct(TokenKind::Eq, 2),
        lit_int("3", 3),
        punct(TokenKind::DotDot, 4),
        lit_int("3", 5),
    ]));
    assert_eq!(err, pc_err(Span { lo: 3, hi: 200 }, PreemptCountHelp::EmptyRange));
}

#[test]
fn property_syntax_errors() {
    assert_eq!(
        expect_err(preempt(vec![lit_int("1", 1)])),
        pc_err(sp(1), PreemptCountHelp::IdentifierExpected)
    );
    assert_eq!(
        expect_err(preempt(vec![ident("bogus", 1)])),
        pc_err(sp(1), PreemptCountHelp::UnknownProperty)
    );
    assert_eq!(
        expect_err(preempt(vec![ident("adjust", 1), lit_int("1", 2)])),
        pc_err(sp(2), PreemptCountHelp::EqExpected)
    );
    assert_eq!(
        expect_err(preempt(vec![ident("unchecked", 1), punct(TokenKind::Eq, 2)])),
        pc_err(sp(2), PreemptCountHelp::UnexpectedEq)
    );
    assert_eq!(
        expect_err(preempt(vec![
            ident("adjust", 1),
            punct(TokenKind::Eq, 2),
            lit_int("1", 3),
            ident("unchecked", 4)
        ])),
        pc_err(sp(4), PreemptCountHelp::CommaExpected)
    );
    assert_eq!(
        expect_err(preempt(vec![
            ident("adjust", 1),
            punct(TokenKind::Eq, 2),
            Token {
                kind: TokenKind::Literal(Lit { kind: LitKind::Integer, symbol: "1".to_string(), suffix: Some("u8".to_string()) }),
                span: sp(3)
            },
        ])),
        pc_err(sp(3), PreemptCountHelp::IntegerExpected)
    );
    assert_eq!(
        expect_err(preempt(vec![ident("adjust", 1), punct(TokenKind::Eq, 2), lit_int("0x10", 3)])),
        pc_err(sp(3), PreemptCountHelp::IntegerExpected)
    );
    assert_eq!(
        expect_err(preempt(vec![ident("expect", 1), punct(TokenKind::Eq, 2), ident("x", 3)])),
        pc_err(sp(3), PreemptCountHelp::RangeExpected)
    );
}

#[test]
fn later_property_wins() {
    let pc = expect_pc(preempt(vec![
        ident("adjust", 1),
        punct(TokenKind::Eq, 2),
        lit_int("1", 3),
        punct(TokenKind::Comma, 4),
        ident("adjust", 5),
        punct(TokenKind::Eq, 6),
        lit_int("2", 7),
        punct(TokenKind::Comma, 8),
    ]));
    assert_eq!(pc.adjustment, Some(2));
}

#[test]
fn drop_preempt_count() {
    let a = attr(
        &["klint", "drop_preempt_count"],
        AttrArgs::Delimited { dspan: DSPAN, tokens: vec![ident("expect", 1), punct(TokenKind::Eq, 2), lit_int("0", 3)] },
    );
    match parse_klint_attribute(&a) {
        Ok(Some(KlintAttribute::DropPreemptionCount(pc))) => {
            assert_eq!(pc.expectation, Some(ExpectationRange { lo: 0, hi: Some(1) }))
        }
        other => panic!("unexpected {:?}", other),
    }
}

#[test]
fn overflowing_numbers_are_reported() {
    let big = preempt(vec![ident("expect", 1), punct(TokenKind::Eq, 2), lit_int("4294967295", 3)]);
    assert!(check_klint_attribute(&big).is_none());
    let min = preempt(vec![
        ident("adjust", 1),
        punct(TokenKind::Eq, 2),
        punct(TokenKind::Minus, 3),
        lit_int("-2147483648", 4),
    ]);
    assert!(check_klint_attribute(&min).is_none());
    let fine = preempt(vec![ident("adjust", 1), punct(TokenKind::Eq, 2), lit_int("-5", 3)]);
    assert!(matches!(check_klint_attribute(&fine), Some(Ok(Some(_)))));
}

#[test]
fn collects_attributes_and_diagnostics_in_order() {
    let attrs = vec![
        Attribute::Parsed,
        attr(&["klint", "dump_mir"], AttrArgs::Empty),
        attr(&["klint", "bogus"], AttrArgs::Empty),
        attr(&["klint", "any_context"], AttrArgs::Empty),
        attr(&["klint", "x", "y"], AttrArgs::Empty),
    ];
    let (found, diags) = klint_attributes(&attrs);
    assert_eq!(found.len(), 2);
    assert!(matches!(found[0], KlintAttribute::DumpMir));
    assert!(matches!(found[1], KlintAttribute::PreemptionCount(_)));
    assert_eq!(
        diags,
        vec![
            AttrDiagnostic::UnknownAttribute { span: Span { lo: 50, hi: 60 } },
            AttrDiagnostic::InvalidAttribute { span: Span { lo: 40, hi: 90 } },
        ]
    );
}

#[test]
fn help_messages() {
    assert_eq!(PreemptCountHelp::CommaExpected.message(), "`,` expected between property values");
    assert_eq!(
        AttrDiagnostic::UnknownAttribute { span: sp(0) }.message(),
        "unrecognized klint attribute"
    );
}
