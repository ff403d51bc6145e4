//! The `#[klint::...]` attribute grammar.
//!
//! An attribute reaches this module as plain data: its path segments, its spans and, for the
//! delimited form, the flat list of tokens between the delimiters. Parsing either yields the
//! attribute, says that the attribute is not a klint one, or yields the one diagnostic that the
//! compiler should report for it.

use vstd::prelude::*;
use crate::preempt_count::ExpectationRange;
use crate::util::{parse_i32_spec, parse_u32_spec, str_to_i32, str_to_u32};

verus! {

/// A source region, as byte offsets `lo..hi`.
#[derive(Clone, Copy, Debug, PartialEq, Eq, Structural)]
pub struct Span {
    pub lo: u32,
    pub hi: u32,
}

impl Span {
    /// The span from the start of `self` to the start of `end`.
    pub open spec fn until_spec(self, end: Span) -> Span {
        Span { lo: self.lo, hi: end.lo }
    }

    /// The span from the start of `self` to the start of `end`.
    pub fn until(self, end: Span) -> (r: Span)
        ensures
            r == self.until_spec(end),
    {
        Span { lo: self.lo, hi: end.lo }
    }
}

/// Spans of the opening and closing delimiters of a delimited token group.
#[derive(Clone, Copy, Debug, PartialEq, Eq, Structural)]
pub struct DelimSpan {
    pub open: Span,
    pub close: Span,
}

impl DelimSpan {
    /// The span covering both delimiters and everything between them.
    pub open spec fn entire_spec(self) -> Span {
        Span { lo: self.open.lo, hi: self.close.hi }
    }

    /// The span covering both delimiters and everything between them.
    pub fn entire(self) -> (r: Span)
        ensures
            r == self.entire_spec(),
    {
        Span { lo: self.open.lo, hi: self.close.hi }
    }
}

/// The kinds of token literal; only integers matter to klint.
#[derive(Clone, Copy, Debug, PartialEq, Eq, Structural)]
pub enum LitKind {
    Integer,
    Other,
}

/// A literal token: its kind, its text without suffix, and its suffix.
#[derive(Debug)]
pub struct Lit {
    pub kind: LitKind,
    pub symbol: String,
    pub suffix: Option<String>,
}

/// The tokens that klint's attribute grammar tells apart. `Other` stands for every other token
/// and for a delimited group; `Eof` marks the end of the token list.
#[derive(Debug)]
pub enum TokenKind {
    Ident(String),
    Comma,
    Eq,
    Minus,
    DotDot,
    DotDotEq,
    Literal(Lit),
    Other,
    Eof,
}

/// A token with its span.
#[derive(Debug)]
pub struct Token {
    pub kind: TokenKind,
    pub span: Span,
}

/// Preemption-count annotation of a function.
#[derive(Clone, Copy, Debug, PartialEq, Eq, Structural)]
pub struct PreemptionCount {
    pub adjustment: Option<i32>,
    pub expectation: Option<ExpectationRange>,
    pub unchecked: bool,
}

impl Default for PreemptionCount {
    fn default() -> (r: Self)
        ensures
            r == (PreemptionCount { adjustment: None, expectation: None, unchecked: false }),
    {
        PreemptionCount { adjustment: None, expectation: None, unchecked: false }
    }
}

/// An attribute that klint understands.
#[derive(Debug)]
pub enum KlintAttribute {
    PreemptionCount(PreemptionCount),
    DropPreemptionCount(PreemptionCount),
    ReportPreeptionCount,
    DumpMir,
    /// Make an item known to klint as special.
    ///
    /// This is similar to `rustc_diagnostic_item` in the Rust standard library.
    DiagnosticItem(String),
}

/// The literal on the right of `#[path = literal]`.
#[derive(Debug)]
pub enum MetaItemLit {
    Str(String),
    Other,
}

/// The arguments of an attribute.
#[derive(Debug)]
pub enum AttrArgs {
    /// `#[path]`
    Empty,
    /// `#[path(tokens)]`, `#[path[tokens]]` or `#[path{tokens}]`
    Delimited { dspan: DelimSpan, tokens: Vec<Token> },
    /// `#[path = literal]`
    Eq { eq_span: Span, expr: MetaItemLit },
}

/// The path of an attribute: its segment names and its span.
#[derive(Debug)]
pub struct AttrPath {
    pub segments: Vec<String>,
    pub span: Span,
}

/// An attribute that the compiler left for tools to interpret.
#[derive(Debug)]
pub struct AttrItem {
    pub path: AttrPath,
    pub args: AttrArgs,
    /// Span of the whole attribute.
    pub span: Span,
}

/// An attribute on an item: one that the compiler has already interpreted itself, or one it
/// left unparsed.
#[derive(Debug)]
pub enum Attribute {
    Parsed,
    Unparsed(AttrItem),
}

/// Why a `#[klint::preempt_count]` attribute is rejected.
#[derive(Clone, Copy, Debug, PartialEq, Eq, Structural)]
pub enum PreemptCountHelp {
    CommaExpected,
    IdentifierExpected,
    EqExpected,
    UnexpectedEq,
    IntegerExpected,
    RangeExpected,
    EmptyRange,
    UnknownProperty,
    CorrectUsage,
    PropertyRequired,
}

impl PreemptCountHelp {
    /// The help text shown with the diagnostic.
    pub fn message(&self) -> (res: &'static str)
        ensures
            res@ == help_text(*self),
    {
        match self {
            PreemptCountHelp::CommaExpected => "`,` expected between property values",
            PreemptCountHelp::IdentifierExpected => "identifier expected",
            PreemptCountHelp::EqExpected => "`=` expected after property name",
            PreemptCountHelp::UnexpectedEq => "unexpected `=` after property name",
            PreemptCountHelp::IntegerExpected => "an integer expected",
            PreemptCountHelp::RangeExpected => "a range expected",
            PreemptCountHelp::EmptyRange => "the preemption count expectation range must be non-empty",
            PreemptCountHelp::UnknownProperty => "unknown property, expected `adjust`, `expect` or `unchecked`",
            PreemptCountHelp::CorrectUsage => "correct usage looks like `#[kint::preempt_count(...)]`",
            PreemptCountHelp::PropertyRequired => "at least one of `adjust` or `expect` property must be specified",
        }
    }
}

/// The help text of each way a `#[klint::preempt_count]` attribute can be wrong.
pub open spec fn help_text(help: PreemptCountHelp) -> Seq<char> {
    match help {
        PreemptCountHelp::CommaExpected => "`,` expected between property values"@,
        PreemptCountHelp::IdentifierExpected => "identifier expected"@,
        PreemptCountHelp::EqExpected => "`=` expected after property name"@,
        PreemptCountHelp::UnexpectedEq => "unexpected `=` after property name"@,
        PreemptCountHelp::IntegerExpected => "an integer expected"@,
        PreemptCountHelp::RangeExpected => "a range expected"@,
        PreemptCountHelp::EmptyRange => "the preemption count expectation range must be non-empty"@,
        PreemptCountHelp::UnknownProperty => "unknown property, expected `adjust`, `expect` or `unchecked`"@,
        PreemptCountHelp::CorrectUsage => "correct usage looks like `#[kint::preempt_count(...)]`"@,
        PreemptCountHelp::PropertyRequired => "at least one of `adjust` or `expect` property must be specified"@,
    }
}

/// The main message of each kind of attribute diagnostic.
pub open spec fn diagnostic_text(diag: AttrDiagnostic) -> Seq<char> {
    match diag {
        AttrDiagnostic::InvalidPreemptCountAttribute { .. } => "incorrect usage of `#[kint::preempt_count]`"@,
        AttrDiagnostic::UnknownAttribute { .. } => "unrecognized klint attribute"@,
        AttrDiagnostic::InvalidAttribute { .. } => "invalid klint attribute"@,
        AttrDiagnostic::InvalidDiagnosticItem { .. } => "incorrect usage of `#[kint::diagnostic_item]`"@,
    }
}

/// A diagnostic about a klint attribute, for the compiler to emit.
#[derive(Clone, Copy, Debug, PartialEq, Eq, Structural)]
pub enum AttrDiagnostic {
    /// incorrect usage of `#[kint::preempt_count]`
    InvalidPreemptCountAttribute { span: Span, help: PreemptCountHelp },
    /// unrecognized klint attribute
    UnknownAttribute { span: Span },
    /// invalid klint attribute
    InvalidAttribute { span: Span },
    /// incorrect usage of `#[kint::diagnostic_item]`
    InvalidDiagnosticItem { span: Span },
}

impl AttrDiagnostic {
    /// The main message of the diagnostic.
    pub fn message(&self) -> (res: &'static str)
        ensures
            res@ == diagnostic_text(*self),
    {
        match self {
            AttrDiagnostic::InvalidPreemptCountAttribute { .. } => "incorrect usage of `#[kint::preempt_count]`",
            AttrDiagnostic::UnknownAttribute { .. } => "unrecognized klint attribute",
            AttrDiagnostic::InvalidAttribute { .. } => "invalid klint attribute",
            AttrDiagnostic::InvalidDiagnosticItem { .. } => "incorrect usage of `#[kint::diagnostic_item]`",
        }
    }
}

// ---------------------------------------------------------------------------------------------
// The grammar, as spec functions over the token list.
//
// Each step takes the tokens, a position and the end-of-input token, and gives `None` where the
// arithmetic of the step would overflow, `Some(Err(d))` where the attribute is rejected with `d`,
// and `Some(Ok((value, next)))` where it yields `value` and resumes at `next`.
// ---------------------------------------------------------------------------------------------

/// The token at `pos`, or `eof` past the end.
pub open spec fn tok_at(toks: Seq<Token>, pos: nat, eof: Token) -> Token {
    if pos < toks.len() {
        toks[pos as int]
    } else {
        eof
    }
}

/// The position after taking one token at `pos` (the end stays the end).
pub open spec fn adv(toks: Seq<Token>, pos: nat) -> nat {
    if pos < toks.len() {
        pos + 1
    } else {
        pos
    }
}

/// A `#[klint::preempt_count]` diagnostic at `span`.
pub open spec fn pc_err(span: Span, help: PreemptCountHelp) -> AttrDiagnostic {
    AttrDiagnostic::InvalidPreemptCountAttribute { span, help }
}

/// The value of an unsuffixed integer literal token, read as `i32`.
pub open spec fn lit_i32_spec(t: Token) -> Option<i32> {
    match t.kind {
        TokenKind::Literal(lit) => if lit.kind != LitKind::Integer || lit.suffix is Some {
            None
        } else {
            parse_i32_spec(lit.symbol@)
        },
        _ => None,
    }
}

/// The value of an integer literal token, read as `u32`.
pub open spec fn lit_u32_spec(t: Token) -> Option<u32> {
    match t.kind {
        TokenKind::Literal(lit) => if lit.kind != LitKind::Integer {
            None
        } else {
            parse_u32_spec(lit.symbol@)
        },
        _ => None,
    }
}

/// An optionally negated integer: `[-] literal`.
pub open spec fn i32_spec(toks: Seq<Token>, pos: nat, eof: Token) -> Option<
    Result<(i32, nat), AttrDiagnostic>,
> {
    let negative = tok_at(toks, pos, eof).kind is Minus;
    let p = if negative {
        adv(toks, pos)
    } else {
        pos
    };
    let t = tok_at(toks, p, eof);
    match lit_i32_spec(t) {
        None => Some(Err(pc_err(t.span, PreemptCountHelp::IntegerExpected))),
        Some(v) => if negative {
            if v == i32::MIN {
                None
            } else {
                Some(Ok(((-v) as i32, adv(toks, p))))
            }
        } else {
            Some(Ok((v, adv(toks, p))))
        },
    }
}

/// The low end of a range: absent before `..` or `..=` (then 0), else an integer literal.
pub open spec fn range_start_spec(toks: Seq<Token>, pos: nat, eof: Token) -> Result<
    (u32, nat),
    AttrDiagnostic,
> {
    let t = tok_at(toks, pos, eof);
    if t.kind is DotDot || t.kind is DotDotEq {
        Ok((0, pos))
    } else {
        match lit_u32_spec(t) {
            None => Err(pc_err(t.span, PreemptCountHelp::RangeExpected)),
            Some(v) => Ok((v, adv(toks, pos))),
        }
    }
}

/// The exclusive high end of a range that starts with `start`, then the position after it.
pub open spec fn range_end_spec(toks: Seq<Token>, pos: nat, eof: Token, start: u32) -> Option<
    Result<(Option<u32>, nat), AttrDiagnostic>,
> {
    let k = tok_at(toks, pos, eof).kind;
    if !(k is DotDot || k is DotDotEq) {
        if start == u32::MAX {
            None
        } else {
            Some(Ok((Some((start + 1) as u32), pos)))
        }
    } else {
        let inclusive = k is DotDotEq;
        let p2 = adv(toks, pos);
        let k2 = tok_at(toks, p2, eof).kind;
        if k2 is Comma || k2 is Eof {
            Some(Ok((None, p2)))
        } else {
            let t = tok_at(toks, p2, eof);
            match lit_u32_spec(t) {
                None => Some(Err(pc_err(t.span, PreemptCountHelp::RangeExpected))),
                Some(range) => if inclusive {
                    if range == u32::MAX {
                        None
                    } else {
                        Some(Ok((Some((range + 1) as u32), adv(toks, p2))))
                    }
                } else {
                    Some(Ok((Some(range), adv(toks, p2))))
                },
            }
        }
    }
}

/// A range: `a`, `a..`, `a..b`, `a..=b`, `..b`, `..=b` or `..`, which must not be empty.
pub open spec fn range_spec(toks: Seq<Token>, pos: nat, eof: Token) -> Option<
    Result<((u32, Option<u32>), nat), AttrDiagnostic>,
> {
    let start_span = tok_at(toks, pos, eof).span;
    match range_start_spec(toks, pos, eof) {
        Err(d) => Some(Err(d)),
        Ok((start, p1)) => match range_end_spec(toks, p1, eof, start) {
            None => None,
            Some(Err(d)) => Some(Err(d)),
            Some(Ok((end, p))) => if end is Some && end.unwrap() <= start {
                Some(
                    Err(
                        pc_err(
                            start_span.until_spec(tok_at(toks, p, eof).span),
                            PreemptCountHelp::EmptyRange,
                        ),
                    ),
                )
            } else {
                Some(Ok(((start, end), p)))
            },
        },
    }
}

/// A property of `#[klint::preempt_count(...)]`.
#[derive(Clone, Copy, Debug, PartialEq, Eq, Structural)]
pub enum Property {
    Adjust(i32),
    Expect(ExpectationRange),
    Unchecked,
}

/// Whether the property named `name` takes a value after `=`; `None` for an unknown name.
pub open spec fn needs_eq_spec(name: Seq<char>) -> Option<bool> {
    if name == "adjust"@ || name == "expect"@ {
        Some(true)
    } else if name == "unchecked"@ {
        Some(false)
    } else {
        None
    }
}

/// One property: `adjust = int`, `expect = range` or `unchecked`.
pub open spec fn property_spec(toks: Seq<Token>, pos: nat, eof: Token) -> Option<
    Result<(Property, nat), AttrDiagnostic>,
> {
    let t = tok_at(toks, pos, eof);
    let p1 = adv(toks, pos);
    match t.kind {
        TokenKind::Ident(name) => match needs_eq_spec(name@) {
            None => Some(Err(pc_err(t.span, PreemptCountHelp::UnknownProperty))),
            Some(need_eq) => {
                let e = tok_at(toks, p1, eof);
                let is_eq = e.kind is Eq;
                if need_eq && !is_eq {
                    Some(Err(pc_err(e.span, PreemptCountHelp::EqExpected)))
                } else if !need_eq && is_eq {
                    Some(Err(pc_err(e.span, PreemptCountHelp::UnexpectedEq)))
                } else {
                    let p2 = if is_eq {
                        adv(toks, p1)
                    } else {
                        p1
                    };
                    if name@ == "adjust"@ {
                        match i32_spec(toks, p2, eof) {
                            None => None,
                            Some(Err(d)) => Some(Err(d)),
                            Some(Ok((v, p))) => Some(Ok((Property::Adjust(v), p))),
                        }
                    } else if name@ == "expect"@ {
                        match range_spec(toks, p2, eof) {
                            None => None,
                            Some(Err(d)) => Some(Err(d)),
                            Some(Ok(((lo, hi), p))) => Some(
                                Ok((Property::Expect(ExpectationRange { lo, hi }), p)),
                            ),
                        }
                    } else {
                        Some(Ok((Property::Unchecked, p2)))
                    }
                }
            },
        },
        _ => Some(Err(pc_err(t.span, PreemptCountHelp::IdentifierExpected))),
    }
}

/// Records one property in the annotation gathered so far; a later property of the same name
/// replaces an earlier one.
pub open spec fn apply_property(acc: PreemptionCount, p: Property) -> PreemptionCount {
    match p {
        Property::Adjust(v) => PreemptionCount { adjustment: Some(v), ..acc },
        Property::Expect(r) => PreemptionCount { expectation: Some(r), ..acc },
        Property::Unchecked => PreemptionCount { unchecked: true, ..acc },
    }
}

/// A successful property step moves past at least one token.
pub proof fn lemma_property_advances(toks: Seq<Token>, pos: nat, eof: Token)
    requires
        pos < toks.len(),
    ensures
        property_spec(toks, pos, eof) matches Some(Ok((_, np))) ==> pos < np <= toks.len(),
{
}

/// Comma-separated properties up to the end of the tokens, folded into `acc`.
pub open spec fn properties_spec(
    toks: Seq<Token>,
    pos: nat,
    eof: Token,
    acc: PreemptionCount,
) -> Option<Result<PreemptionCount, AttrDiagnostic>>
    decreases toks.len() - pos,
{
    if pos >= toks.len() {
        Some(Ok(acc))
    } else {
        match property_spec(toks, pos, eof) {
            None => None,
            Some(Err(d)) => Some(Err(d)),
            Some(Ok((p, np))) => {
                let acc2 = apply_property(acc, p);
                if np >= toks.len() {
                    Some(Ok(acc2))
                } else if toks[np as int].kind is Comma {
                    proof {
                        lemma_property_advances(toks, pos, eof);
                    }
                    properties_spec(toks, np + 1, eof, acc2)
                } else {
                    Some(Err(pc_err(toks[np as int].span, PreemptCountHelp::CommaExpected)))
                }
            },
        }
    }
}

/// The end-of-input token of a delimited group.
pub open spec fn eof_token(dspan: DelimSpan) -> Token {
    Token { kind: TokenKind::Eof, span: dspan.close }
}

/// `#[klint::preempt_count(...)]` and `#[klint::drop_preempt_count(...)]`.
pub open spec fn preempt_count_spec(item: AttrItem) -> Option<
    Result<PreemptionCount, AttrDiagnostic>,
> {
    match item.args {
        AttrArgs::Delimited { dspan, tokens } => match properties_spec(
            tokens@,
            0,
            eof_token(dspan),
            PreemptionCount { adjustment: None, expectation: None, unchecked: false },
        ) {
            None => None,
            Some(Err(d)) => Some(Err(d)),
            Some(Ok(pc)) => if pc.adjustment is None && pc.expectation is None {
                Some(Err(pc_err(dspan.entire_spec(), PreemptCountHelp::PropertyRequired)))
            } else {
                Some(Ok(pc))
            },
        },
        _ => Some(Err(pc_err(item.span, PreemptCountHelp::CorrectUsage))),
    }
}

/// The annotation that a shorthand attribute stands for.
pub open spec fn shorthand(lo: u32, hi: Option<u32>) -> KlintAttribute {
    KlintAttribute::PreemptionCount(
        PreemptionCount {
            adjustment: None,
            expectation: Some(ExpectationRange { lo, hi }),
            unchecked: false,
        },
    )
}

/// What an attribute means to klint: `Ok(None)` when it is not a klint attribute,
/// `Ok(Some(a))` for klint attribute `a`, `Err(d)` for a malformed one; `None` where parsing
/// would overflow.
pub open spec fn klint_attribute_spec(attr: Attribute) -> Option<
    Result<Option<KlintAttribute>, AttrDiagnostic>,
> {
    match attr {
        Attribute::Parsed => Some(Ok(None)),
        Attribute::Unparsed(item) => {
            let segs = item.path.segments@;
            if segs[0]@ != "klint"@ {
                Some(Ok(None))
            } else if segs.len() != 2 {
                Some(Err(AttrDiagnostic::InvalidAttribute { span: item.span }))
            } else {
                let name = segs[1]@;
                if name == "any_context"@ || name == "atomic_context"@ {
                    Some(Ok(Some(shorthand(0, None))))
                } else if name == "atomic_context_only"@ {
                    Some(Ok(Some(shorthand(1, None))))
                } else if name == "process_context"@ {
                    Some(Ok(Some(shorthand(0, Some(1)))))
                } else if name == "preempt_count"@ {
                    match preempt_count_spec(item) {
                        None => None,
                        Some(Err(d)) => Some(Err(d)),
                        Some(Ok(pc)) => Some(Ok(Some(KlintAttribute::PreemptionCount(pc)))),
                    }
                } else if name == "drop_preempt_count"@ {
                    match preempt_count_spec(item) {
                        None => None,
                        Some(Err(d)) => Some(Err(d)),
                        Some(Ok(pc)) => Some(Ok(Some(KlintAttribute::DropPreemptionCount(pc)))),
                    }
                } else if name == "report_preempt_count"@ {
                    Some(Ok(Some(KlintAttribute::ReportPreeptionCount)))
                } else if name == "dump_mir"@ {
                    Some(Ok(Some(KlintAttribute::DumpMir)))
                } else if name == "diagnostic_item"@ {
                    match item.args {
                        AttrArgs::Eq { expr: MetaItemLit::Str(value), .. } => Some(
                            Ok(Some(KlintAttribute::DiagnosticItem(value))),
                        ),
                        _ => Some(Err(AttrDiagnostic::InvalidDiagnosticItem { span: item.span })),
                    }
                } else {
                    Some(Err(AttrDiagnostic::UnknownAttribute { span: item.path.span }))
                }
            }
        },
    }
}

/// Whether klint can read `attr` at all: an unparsed attribute has a path, and reading it
/// overflows no integer.
pub open spec fn readable(attr: Attribute) -> bool {
    &&& attr matches Attribute::Unparsed(item) ==> item.path.segments@.len() >= 1
    &&& klint_attribute_spec(attr) is Some
}


// ---------------------------------------------------------------------------------------------
// The parser.
// ---------------------------------------------------------------------------------------------

/// A position in a token list, which yields `eof` once the list is used up.
struct Cursor<'a> {
    tokens: &'a Vec<Token>,
    eof: &'a Token,
    pos: usize,
}

impl<'a> Cursor<'a> {
    spec fn wf(self) -> bool {
        self.pos <= self.tokens@.len()
    }

    spec fn same_input(self, other: Self) -> bool {
        self.tokens == other.tokens && self.eof == other.eof
    }

    fn new(tokens: &'a Vec<Token>, eof: &'a Token) -> (c: Self)
        ensures
            c.tokens == tokens,
            c.eof == eof,
            c.pos == 0,
    {
        Cursor { tokens, eof, pos: 0 }
    }

    fn is_eof(&self) -> (b: bool)
        ensures
            b == (self.pos >= self.tokens@.len()),
    {
        self.pos >= self.tokens.len()
    }

    fn peek(&self) -> (t: &'a Token)
        ensures
            *t == tok_at(self.tokens@, self.pos as nat, *self.eof),
    {
        if self.pos < self.tokens.len() {
            &self.tokens[self.pos]
        } else {
            self.eof
        }
    }

    fn next(&mut self) -> (t: &'a Token)
        requires
            old(self).wf(),
        ensures
            *t == tok_at(old(self).tokens@, old(self).pos as nat, *old(self).eof),
            final(self).same_input(*old(self)),
            final(self).pos == adv(old(self).tokens@, old(self).pos as nat),
            final(self).wf(),
    {
        if self.pos < self.tokens.len() {
            let t = &self.tokens[self.pos];
            self.pos = self.pos + 1;
            t
        } else {
            self.eof
        }
    }
}

/// Whether `s` spells `lit`.
fn sym_eq(s: &String, lit: &str) -> (b: bool)
    ensures
        b == (s@ == lit@),
{
    let other = String::from_str(lit);
    *s == other
}

fn lit_i32(t: &Token) -> (r: Option<i32>)
    ensures
        r == lit_i32_spec(*t),
{
    match &t.kind {
        TokenKind::Literal(lit) => if lit.kind != LitKind::Integer || lit.suffix.is_some() {
            None
        } else {
            str_to_i32(&lit.symbol)
        },
        _ => None,
    }
}

fn lit_u32(t: &Token) -> (r: Option<u32>)
    ensures
        r == lit_u32_spec(*t),
{
    match &t.kind {
        TokenKind::Literal(lit) => if lit.kind != LitKind::Integer {
            None
        } else {
            str_to_u32(&lit.symbol)
        },
        _ => None,
    }
}

fn is_minus(t: &Token) -> (b: bool)
    ensures
        b == (t.kind is Minus),
{
    match &t.kind {
        TokenKind::Minus => true,
        _ => false,
    }
}

fn is_eq(t: &Token) -> (b: bool)
    ensures
        b == (t.kind is Eq),
{
    match &t.kind {
        TokenKind::Eq => true,
        _ => false,
    }
}

fn is_comma(t: &Token) -> (b: bool)
    ensures
        b == (t.kind is Comma),
{
    match &t.kind {
        TokenKind::Comma => true,
        _ => false,
    }
}

/// Reads `[-] integer`; `None` where negating the integer overflows.
fn parse_i32(cursor: &mut Cursor) -> (res: Option<Result<i32, AttrDiagnostic>>)
    requires
        old(cursor).wf(),
    ensures
        final(cursor).same_input(*old(cursor)),
        final(cursor).wf(),
        match i32_spec(old(cursor).tokens@, old(cursor).pos as nat, *old(cursor).eof) {
            None => res is None,
            Some(Ok((v, p))) => res == Some(Ok::<i32, AttrDiagnostic>(v)) && final(cursor).pos == p,
            Some(Err(d)) => res == Some(Err::<i32, AttrDiagnostic>(d)),
        },
{
    let negative = if is_minus(cursor.peek()) {
        cursor.next();
        true
    } else {
        false
    };
    let token = cursor.next();
    match lit_i32(token) {
        None => Some(
            Err(
                AttrDiagnostic::InvalidPreemptCountAttribute {
                    span: token.span,
                    help: PreemptCountHelp::IntegerExpected,
                },
            ),
        ),
        Some(v) => if negative {
            if v == i32::MIN {
                None
            } else {
                Some(Ok(-v))
            }
        } else {
            Some(Ok(v))
        },
    }
}

/// Reads a range and returns its bounds as `(lo, exclusive hi)`; `None` where an exclusive
/// bound overflows `u32`.
fn parse_expectation_range(cursor: &mut Cursor) -> (res: Option<
    Result<(u32, Option<u32>), AttrDiagnostic>,
>)
    requires
        old(cursor).wf(),
    ensures
        final(cursor).same_input(*old(cursor)),
        final(cursor).wf(),
        match range_spec(old(cursor).tokens@, old(cursor).pos as nat, *old(cursor).eof) {
            None => res is None,
            Some(Ok((v, p))) => res == Some(Ok::<(u32, Option<u32>), AttrDiagnostic>(v))
                && final(cursor).pos == p,
            Some(Err(d)) => res == Some(Err::<(u32, Option<u32>), AttrDiagnostic>(d)),
        },
{
    let start_span = cursor.peek().span;
    let mut start: u32 = 0;
    let first = cursor.peek();
    let at_dots = match &first.kind {
        TokenKind::DotDot | TokenKind::DotDotEq => true,
        _ => false,
    };
    if !at_dots {
        let token = cursor.next();
        match lit_u32(token) {
            None => {
                return Some(
                    Err(
                        AttrDiagnostic::InvalidPreemptCountAttribute {
                            span: token.span,
                            help: PreemptCountHelp::RangeExpected,
                        },
                    ),
                );
            },
            Some(v) => {
                start = v;
            },
        }
    }
    let inclusive: Option<bool> = match &cursor.peek().kind {
        TokenKind::DotDot => Some(false),
        TokenKind::DotDotEq => Some(true),
        _ => None,
    };

    let mut end: Option<u32> = None;
    if inclusive.is_none() {
        if start == u32::MAX {
            return None;
        }
        end = Some(start + 1);
    }
    if let Some(inclusive) = inclusive {
        cursor.next();
        let skip_hi = match &cursor.peek().kind {
            TokenKind::Comma | TokenKind::Eof => true,
            _ => false,
        };
        if skip_hi {
            end = None;
        } else {
            let token = cursor.next();
            match lit_u32(token) {
                None => {
                    return Some(
                        Err(
                            AttrDiagnostic::InvalidPreemptCountAttribute {
                                span: token.span,
                                help: PreemptCountHelp::RangeExpected,
                            },
                        ),
                    );
                },
                Some(range) => {
                    if inclusive && range == u32::MAX {
                        return None;
                    }
                    end = Some(
                        if inclusive {
                            range + 1
                        } else {
                            range
                        },
                    );
                },
            }
        }
    }
    if end.is_some() && end.unwrap() <= start {
        let end_span = cursor.next().span;
        return Some(
            Err(
                AttrDiagnostic::InvalidPreemptCountAttribute {
                    span: start_span.until(end_span),
                    help: PreemptCountHelp::EmptyRange,
                },
            ),
        );
    }
    Some(Ok((start, end)))
}

/// Reads one `name [= value]` property; whether `=` must follow depends on the name.
fn parse_eq_delimited(cursor: &mut Cursor) -> (res: Option<Result<Property, AttrDiagnostic>>)
    requires
        old(cursor).wf(),
    ensures
        final(cursor).same_input(*old(cursor)),
        final(cursor).wf(),
        match property_spec(old(cursor).tokens@, old(cursor).pos as nat, *old(cursor).eof) {
            None => res is None,
            Some(Ok((v, p))) => res == Some(Ok::<Property, AttrDiagnostic>(v)) && final(cursor).pos
                == p,
            Some(Err(d)) => res == Some(Err::<Property, AttrDiagnostic>(d)),
        },
{
    let prop = cursor.next();
    let name = match &prop.kind {
        TokenKind::Ident(name) => name,
        _ => {
            return Some(
                Err(
                    AttrDiagnostic::InvalidPreemptCountAttribute {
                        span: prop.span,
                        help: PreemptCountHelp::IdentifierExpected,
                    },
                ),
            );
        },
    };
    let is_adjust = sym_eq(name, "adjust");
    let is_expect = sym_eq(name, "expect");
    let need_eq = if is_adjust || is_expect {
        true
    } else if sym_eq(name, "unchecked") {
        false
    } else {
        return Some(
            Err(
                AttrDiagnostic::InvalidPreemptCountAttribute {
                    span: prop.span,
                    help: PreemptCountHelp::UnknownProperty,
                },
            ),
        );
    };

    let eq = cursor.peek();
    let is_eq = is_eq(eq);
    if need_eq && !is_eq {
        return Some(
            Err(
                AttrDiagnostic::InvalidPreemptCountAttribute {
                    span: eq.span,
                    help: PreemptCountHelp::EqExpected,
                },
            ),
        );
    }
    if !need_eq && is_eq {
        return Some(
            Err(
                AttrDiagnostic::InvalidPreemptCountAttribute {
                    span: eq.span,
                    help: PreemptCountHelp::UnexpectedEq,
                },
            ),
        );
    }
    if is_eq {
        cursor.next();
    }

    if is_adjust {
        match parse_i32(cursor) {
            None => None,
            Some(Err(d)) => Some(Err(d)),
            Some(Ok(v)) => Some(Ok(Property::Adjust(v))),
        }
    } else if is_expect {
        match parse_expectation_range(cursor) {
            None => None,
            Some(Err(d)) => Some(Err(d)),
            Some(Ok((lo, hi))) => Some(Ok(Property::Expect(ExpectationRange { lo, hi }))),
        }
    } else {
        Some(Ok(Property::Unchecked))
    }
}

/// Reads comma-separated properties up to the end of the tokens and folds them into `init`.
fn parse_comma_delimited(cursor: &mut Cursor, init: PreemptionCount) -> (res: Option<
    Result<PreemptionCount, AttrDiagnostic>,
>)
    requires
        old(cursor).wf(),
    ensures
        res == properties_spec(old(cursor).tokens@, old(cursor).pos as nat, *old(cursor).eof, init),
{
    let ghost toks = cursor.tokens@;
    let ghost eof = *cursor.eof;
    let mut acc = init;
    loop
        invariant
            cursor.wf(),
            cursor.tokens@ == toks,
            *cursor.eof == eof,
            properties_spec(toks, cursor.pos as nat, eof, acc) == properties_spec(
                old(cursor).tokens@,
                old(cursor).pos as nat,
                *old(cursor).eof,
                init,
            ),
        decreases toks.len() - cursor.pos,
    {
        if cursor.is_eof() {
            return Some(Ok(acc));
        }
        let ghost pos = cursor.pos as nat;
        proof {
            lemma_property_advances(toks, pos, eof);
        }
        let p = match parse_eq_delimited(cursor) {
            None => {
                return None;
            },
            Some(Err(d)) => {
                return Some(Err(d));
            },
            Some(Ok(p)) => p,
        };
        acc = match p {
            Property::Adjust(v) => PreemptionCount { adjustment: Some(v), ..acc },
            Property::Expect(r) => PreemptionCount { expectation: Some(r), ..acc },
            Property::Unchecked => PreemptionCount { unchecked: true, ..acc },
        };
        if cursor.is_eof() {
            return Some(Ok(acc));
        }
        let comma = cursor.next();
        if !is_comma(comma) {
            return Some(
                Err(
                    AttrDiagnostic::InvalidPreemptCountAttribute {
                        span: comma.span,
                        help: PreemptCountHelp::CommaExpected,
                    },
                ),
            );
        }
    }
}

/// Reads the arguments of `#[klint::preempt_count(...)]` or `#[klint::drop_preempt_count(...)]`.
fn parse_preempt_count(item: &AttrItem) -> (res: Option<Result<PreemptionCount, AttrDiagnostic>>)
    ensures
        res == preempt_count_spec(*item),
{
    match &item.args {
        AttrArgs::Delimited { dspan, tokens } => {
            let eof = Token { kind: TokenKind::Eof, span: dspan.close };
            let mut cursor = Cursor::new(tokens, &eof);
            let pc = match parse_comma_delimited(&mut cursor, PreemptionCount::default()) {
                None => {
                    return None;
                },
                Some(Err(d)) => {
                    return Some(Err(d));
                },
                Some(Ok(pc)) => pc,
            };
            if pc.adjustment.is_none() && pc.expectation.is_none() {
                return Some(
                    Err(
                        AttrDiagnostic::InvalidPreemptCountAttribute {
                            span: dspan.entire(),
                            help: PreemptCountHelp::PropertyRequired,
                        },
                    ),
                );
            }
            Some(Ok(pc))
        },
        _ => Some(
            Err(
                AttrDiagnostic::InvalidPreemptCountAttribute {
                    span: item.span,
                    help: PreemptCountHelp::CorrectUsage,
                },
            ),
        ),
    }
}

/// Interprets one attribute like `parse_klint_attribute`, and also tells the attributes whose
/// numbers overflow while reading them, with `None`.
pub fn check_klint_attribute(attr: &Attribute) -> (res: Option<
    Result<Option<KlintAttribute>, AttrDiagnostic>,
>)
    requires
        attr matches Attribute::Unparsed(item) ==> item.path.segments@.len() >= 1,
    ensures
        res == klint_attribute_spec(*attr),
{
    let item = match attr {
        Attribute::Parsed => {
            return Some(Ok(None));
        },
        Attribute::Unparsed(item) => item,
    };
    if !sym_eq(&item.path.segments[0], "klint") {
        return Some(Ok(None));
    }
    if item.path.segments.len() != 2 {
        return Some(Err(AttrDiagnostic::InvalidAttribute { span: item.span }));
    }
    let name = &item.path.segments[1];
    if sym_eq(name, "any_context") || sym_eq(name, "atomic_context") {
        Some(
            Ok(
                Some(
                    KlintAttribute::PreemptionCount(
                        PreemptionCount {
                            adjustment: None,
                            expectation: Some(ExpectationRange::top()),
                            unchecked: false,
                        },
                    ),
                ),
            ),
        )
    } else if sym_eq(name, "atomic_context_only") {
        Some(
            Ok(
                Some(
                    KlintAttribute::PreemptionCount(
                        PreemptionCount {
                            adjustment: None,
                            expectation: Some(ExpectationRange { lo: 1, hi: None }),
                            unchecked: false,
                        },
                    ),
                ),
            ),
        )
    } else if sym_eq(name, "process_context") {
        Some(
            Ok(
                Some(
                    KlintAttribute::PreemptionCount(
                        PreemptionCount {
                            adjustment: None,
                            expectation: Some(ExpectationRange::single_value(0)),
                            unchecked: false,
                        },
                    ),
                ),
            ),
        )
    } else if sym_eq(name, "preempt_count") {
        match parse_preempt_count(item) {
            None => None,
            Some(Err(d)) => Some(Err(d)),
            Some(Ok(pc)) => Some(Ok(Some(KlintAttribute::PreemptionCount(pc)))),
        }
    } else if sym_eq(name, "drop_preempt_count") {
        match parse_preempt_count(item) {
            None => None,
            Some(Err(d)) => Some(Err(d)),
            Some(Ok(pc)) => Some(Ok(Some(KlintAttribute::DropPreemptionCount(pc)))),
        }
    } else if sym_eq(name, "report_preempt_count") {
        Some(Ok(Some(KlintAttribute::ReportPreeptionCount)))
    } else if sym_eq(name, "dump_mir") {
        Some(Ok(Some(KlintAttribute::DumpMir)))
    } else if sym_eq(name, "diagnostic_item") {
        match &item.args {
            AttrArgs::Eq { expr: MetaItemLit::Str(value), .. } => Some(
                Ok(Some(KlintAttribute::DiagnosticItem(value.clone()))),
            ),
            _ => Some(Err(AttrDiagnostic::InvalidDiagnosticItem { span: item.span })),
        }
    } else {
        Some(Err(AttrDiagnostic::UnknownAttribute { span: item.path.span }))
    }
}

/// Interprets one attribute: `Ok(None)` when it is not a klint attribute, `Ok(Some(a))` for a
/// klint attribute, and `Err(d)` with the diagnostic to report for a malformed one.
pub fn parse_klint_attribute(attr: &Attribute) -> (res: Result<Option<KlintAttribute>, AttrDiagnostic>)
    requires
        readable(*attr),
    ensures
        res == klint_attribute_spec(*attr).unwrap(),
{
    match check_klint_attribute(attr) {
        Some(r) => r,
        None => {
            proof {
                assert(false);
            }
            Ok(None)
        },
    }
}

/// What klint makes of the attributes of one item: the klint attributes, in order, and the
/// diagnostics for the malformed ones, in order.
pub open spec fn klint_attributes_spec(attrs: Seq<Attribute>) -> (Seq<KlintAttribute>, Seq<
    AttrDiagnostic,
>)
    decreases attrs.len(),
{
    if attrs.len() == 0 {
        (Seq::empty(), Seq::empty())
    } else {
        let (found, diags) = klint_attributes_spec(attrs.drop_last());
        match klint_attribute_spec(attrs.last()).unwrap() {
            Ok(Some(a)) => (found.push(a), diags),
            Ok(None) => (found, diags),
            Err(d) => (found, diags.push(d)),
        }
    }
}

/// Collects the klint attributes among `attrs`, with the diagnostics that the malformed ones
/// call for.
pub fn klint_attributes(attrs: &Vec<Attribute>) -> (res: (Vec<KlintAttribute>, Vec<AttrDiagnostic>))
    requires
        forall|i: int| 0 <= i < attrs@.len() ==> readable(#[trigger] attrs@[i]),
    ensures
        res.0@ == klint_attributes_spec(attrs@).0,
        res.1@ == klint_attributes_spec(attrs@).1,
{
    let mut found: Vec<KlintAttribute> = Vec::new();
    let mut diags: Vec<AttrDiagnostic> = Vec::new();
    let mut i: usize = 0;
    while i < attrs.len()
        invariant
            i <= attrs@.len(),
            forall|j: int| 0 <= j < attrs@.len() ==> readable(#[trigger] attrs@[j]),
            found@ == klint_attributes_spec(attrs@.take(i as int)).0,
            diags@ == klint_attributes_spec(attrs@.take(i as int)).1,
        decreases attrs@.len() - i,
    {
        assert(attrs@.take(i + 1).drop_last() =~= attrs@.take(i as int));
        assert(attrs@.take(i + 1).last() == attrs@[i as int]);
        match parse_klint_attribute(&attrs[i]) {
            Ok(Some(a)) => found.push(a),
            Ok(None) => {},
            Err(d) => diags.push(d),
        }
        i = i + 1;
    }
    assert(attrs@.take(attrs@.len() as int) =~= attrs@);
    (found, diags)
}

/// An expectation range as the grammar reads it is never empty.
pub proof fn lemma_range_nonempty(toks: Seq<Token>, pos: nat, eof: Token)
    ensures
        range_spec(toks, pos, eof) matches Some(Ok(((lo, hi), _))) ==> !(ExpectationRange {
            lo,
            hi,
        }).is_empty_spec(),
{
}

/// Folding properties keeps every recorded expectation non-empty.
proof fn lemma_properties_nonempty(toks: Seq<Token>, pos: nat, eof: Token, acc: PreemptionCount)
    requires
        acc.expectation matches Some(r) ==> !r.is_empty_spec(),
    ensures
        properties_spec(toks, pos, eof, acc) matches Some(Ok(pc)) ==> (pc.expectation matches Some(
            r,
        ) ==> !r.is_empty_spec()),
    decreases toks.len() - pos,
{
    if pos < toks.len() {
        lemma_property_advances(toks, pos, eof);
        let t = tok_at(toks, pos, eof);
        if let TokenKind::Ident(name) = t.kind {
            if needs_eq_spec(name@) is Some {
                let p1 = adv(toks, pos);
                let p2 = if tok_at(toks, p1, eof).kind is Eq {
                    adv(toks, p1)
                } else {
                    p1
                };
                lemma_range_nonempty(toks, p2, eof);
            }
        }
        if let Some(Ok((p, np))) = property_spec(toks, pos, eof) {
            if np < toks.len() && toks[np as int].kind is Comma {
                lemma_properties_nonempty(toks, np + 1, eof, apply_property(acc, p));
            }
        }
    }
}

/// A preemption-count annotation that klint accepts names an adjustment or an expectation,
/// and any expectation it names is satisfiable.
pub proof fn lemma_accepted_preempt_count_well_formed(attr: Attribute)
    ensures
        klint_attribute_spec(attr) matches Some(Ok(Some(KlintAttribute::PreemptionCount(pc))))
            ==> (pc.adjustment is Some || pc.expectation is Some) && (pc.expectation matches Some(
            r,
        ) ==> !r.is_empty_spec()),
        klint_attribute_spec(attr) matches Some(Ok(Some(KlintAttribute::DropPreemptionCount(pc))))
            ==> (pc.adjustment is Some || pc.expectation is Some) && (pc.expectation matches Some(
            r,
        ) ==> !r.is_empty_spec()),
{
    if let Attribute::Unparsed(item) = attr {
        if let AttrArgs::Delimited { dspan, tokens } = item.args {
            lemma_properties_nonempty(
                tokens@,
                0,
                eof_token(dspan),
                PreemptionCount { adjustment: None, expectation: None, unchecked: false },
            );
        }
    }
}

/// An attribute whose path does not start with `klint` is never klint's business.
pub proof fn lemma_foreign_attribute_ignored(attr: Attribute)
    requires
        attr matches Attribute::Unparsed(item) ==> item.path.segments@.len() >= 1 && item.path.segments@[0]@
            != "klint"@,
    ensures
        klint_attribute_spec(attr) == Some(Ok::<Option<KlintAttribute>, AttrDiagnostic>(None)),
{
}


/// The properties of a comma-separated list, in order, as the grammar reads them; the list
/// ends with the tokens. Parsing the same positions as `properties_spec` does, it only
/// collects the properties instead of recording them.
pub open spec fn property_list(toks: Seq<Token>, pos: nat, eof: Token) -> Option<
    Result<Seq<Property>, AttrDiagnostic>,
>
    decreases toks.len() - pos,
{
    if pos >= toks.len() {
        Some(Ok(Seq::empty()))
    } else {
        match property_spec(toks, pos, eof) {
            None => None,
            Some(Err(d)) => Some(Err(d)),
            Some(Ok((p, np))) => if np >= toks.len() {
                Some(Ok(seq![p]))
            } else if toks[np as int].kind is Comma {
                proof {
                    lemma_property_advances(toks, pos, eof);
                }
                match property_list(toks, np + 1, eof) {
                    None => None,
                    Some(Err(d)) => Some(Err(d)),
                    Some(Ok(rest)) => Some(Ok(seq![p] + rest)),
                }
            } else {
                Some(Err(pc_err(toks[np as int].span, PreemptCountHelp::CommaExpected)))
            },
        }
    }
}

/// The annotation `acc` with the properties `ps` recorded one after the other.
pub open spec fn record_all(acc: PreemptionCount, ps: Seq<Property>) -> PreemptionCount
    decreases ps.len(),
{
    if ps.len() == 0 {
        acc
    } else {
        record_all(apply_property(acc, ps[0]), ps.drop_first())
    }
}

/// The value of the last `adjust` property among `ps`.
pub open spec fn last_adjust(ps: Seq<Property>) -> Option<i32>
    decreases ps.len(),
{
    if ps.len() == 0 {
        None
    } else {
        match ps.last() {
            Property::Adjust(v) => Some(v),
            _ => last_adjust(ps.drop_last()),
        }
    }
}

/// The range of the last `expect` property among `ps`.
pub open spec fn last_expect(ps: Seq<Property>) -> Option<ExpectationRange>
    decreases ps.len(),
{
    if ps.len() == 0 {
        None
    } else {
        match ps.last() {
            Property::Expect(r) => Some(r),
            _ => last_expect(ps.drop_last()),
        }
    }
}

/// Properties are independent of one another: recording `adjust` sets the adjustment and
/// nothing else, `expect` sets the expectation and nothing else, and `unchecked` only sets
/// the flag.
pub proof fn lemma_property_independent(acc: PreemptionCount, p: Property)
    ensures
        apply_property(acc, p).adjustment == (match p {
            Property::Adjust(v) => Some(v),
            _ => acc.adjustment,
        }),
        apply_property(acc, p).expectation == (match p {
            Property::Expect(r) => Some(r),
            _ => acc.expectation,
        }),
        apply_property(acc, p).unchecked == (acc.unchecked || p is Unchecked),
{
}

proof fn lemma_record_all_snoc(acc: PreemptionCount, ps: Seq<Property>)
    requires
        ps.len() > 0,
    ensures
        record_all(acc, ps) == apply_property(record_all(acc, ps.drop_last()), ps.last()),
    decreases ps.len(),
{
    if ps.len() > 1 {
        let rest = ps.drop_first();
        assert(rest.drop_last() =~= ps.drop_last().drop_first());
        assert(rest.last() == ps.last());
        assert(ps.drop_last()[0] == ps[0]);
        lemma_record_all_snoc(apply_property(acc, ps[0]), rest);
        assert(record_all(acc, ps.drop_last()) == record_all(
            apply_property(acc, ps[0]),
            ps.drop_last().drop_first(),
        ));
    } else {
        assert(ps.drop_last() =~= Seq::<Property>::empty());
        assert(ps.drop_first() =~= Seq::<Property>::empty());
        assert(record_all(acc, ps.drop_last()) == acc);
        assert(record_all(apply_property(acc, ps[0]), ps.drop_first()) == apply_property(acc, ps[0]));
    }
}

/// Recording a list of properties keeps the value of the last `adjust` among them as the
/// adjustment and the range of the last `expect` as the expectation, whatever other
/// properties come before or after, and sets the flag when any of them is `unchecked`.
pub proof fn lemma_record_all_keeps_last(acc: PreemptionCount, ps: Seq<Property>)
    ensures
        record_all(acc, ps).adjustment == (match last_adjust(ps) {
            Some(v) => Some(v),
            None => acc.adjustment,
        }),
        record_all(acc, ps).expectation == (match last_expect(ps) {
            Some(r) => Some(r),
            None => acc.expectation,
        }),
        record_all(acc, ps).unchecked == (acc.unchecked || exists|i: int|
            0 <= i < ps.len() && #[trigger] ps[i] is Unchecked),
    decreases ps.len(),
{
    if ps.len() > 0 {
        lemma_record_all_snoc(acc, ps);
        lemma_record_all_keeps_last(acc, ps.drop_last());
        lemma_property_independent(record_all(acc, ps.drop_last()), ps.last());
        let pre = ps.drop_last();
        if exists|i: int| 0 <= i < pre.len() && #[trigger] pre[i] is Unchecked {
            let i = choose|i: int| 0 <= i < pre.len() && #[trigger] pre[i] is Unchecked;
            assert(ps[i] == pre[i]);
        }
        if exists|i: int| 0 <= i < ps.len() && #[trigger] ps[i] is Unchecked {
            let i = choose|i: int| 0 <= i < ps.len() && #[trigger] ps[i] is Unchecked;
            if i < ps.len() - 1 {
                assert(pre[i] == ps[i]);
            }
        }
    }
}

/// The annotation that a property list yields is the starting annotation with the properties
/// of the list recorded in order.
pub proof fn lemma_properties_record_list(toks: Seq<Token>, pos: nat, eof: Token, acc: PreemptionCount)
    ensures
        match property_list(toks, pos, eof) {
            None => properties_spec(toks, pos, eof, acc) is None,
            Some(Err(d)) => properties_spec(toks, pos, eof, acc) == Some(
                Err::<PreemptionCount, AttrDiagnostic>(d),
            ),
            Some(Ok(ps)) => properties_spec(toks, pos, eof, acc) == Some(
                Ok::<PreemptionCount, AttrDiagnostic>(record_all(acc, ps)),
            ),
        },
    decreases toks.len() - pos,
{
    if pos >= toks.len() {
        assert(record_all(acc, Seq::<Property>::empty()) == acc);
    } else {
        match property_spec(toks, pos, eof) {
            Some(Ok((p, np))) => {
                lemma_property_advances(toks, pos, eof);
                let acc2 = apply_property(acc, p);
                if np >= toks.len() {
                    assert(seq![p].drop_first() =~= Seq::<Property>::empty());
                    assert(record_all(acc2, Seq::<Property>::empty()) == acc2);
                    assert(record_all(acc, seq![p]) == record_all(acc2, seq![p].drop_first()));
                } else if toks[np as int].kind is Comma {
                    lemma_properties_record_list(toks, np + 1, eof, acc2);
                    match property_list(toks, np + 1, eof) {
                        Some(Ok(rest)) => {
                            assert((seq![p] + rest).drop_first() =~= rest);
                            assert((seq![p] + rest)[0] == p);
                            assert(record_all(acc, seq![p] + rest) == record_all(acc2, rest));
                        },
                        _ => {},
                    }
                }
            },
            _ => {},
        }
    }
}

/// In an accepted `#[klint::preempt_count(...)]`, the adjustment is the value of the last
/// `adjust` property and the expectation the range of the last `expect` property, whatever
/// other properties come before or after them.
pub proof fn lemma_preempt_count_takes_last(item: AttrItem)
    ensures
        item.args matches AttrArgs::Delimited { dspan, tokens } ==> (
        preempt_count_spec(item) matches Some(Ok(pc)) ==> (property_list(tokens@, 0, eof_token(dspan))
            matches Some(Ok(ps)) && pc.adjustment == last_adjust(ps) && pc.expectation == last_expect(
            ps,
        ) && pc.unchecked == (exists|i: int| 0 <= i < ps.len() && #[trigger] ps[i] is Unchecked))),
{
    if let AttrArgs::Delimited { dspan, tokens } = item.args {
        let acc = PreemptionCount { adjustment: None, expectation: None, unchecked: false };
        lemma_properties_record_list(tokens@, 0, eof_token(dspan), acc);
        if let Some(Ok(ps)) = property_list(tokens@, 0, eof_token(dspan)) {
            lemma_record_all_keeps_last(acc, ps);
        }
    }
}

} // verus!
