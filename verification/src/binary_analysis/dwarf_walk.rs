//! The decisions taken while walking DWARF debugging information: which PC ranges a DIE
//! covers, which inlined calls lead to a code address, what a subprogram is called, and which
//! line-table row describes an address.
//!
//! The DWARF reader hands each decision the values it read; the decisions are made here.

use vstd::prelude::*;
use crate::binary_analysis::dwarf::{DwarfError, SectionLayout, wrap_i64, wrap_u64};

verus! {

pub const MSG_MULTIPLE_SECTIONS: &'static str = "Single DIE covers multiple sections";

pub const MSG_NOT_NESTED: &'static str = "DW_TAG_inlined_subroutine is not nested inside DW_TAG_subprogram";

pub const MSG_NOT_CHAIN: &'static str = "Inlined call does not form a chain";

pub const MSG_NO_NAME: &'static str = "Cannot find name for DW_TAG_subprogram";

pub const MSG_UNSUPPORTED_REFERENCE: &'static str = "Unsupported reference type";

pub const MSG_FILE_NOT_UDATA: &'static str = "file number is not udata";

pub const MSG_LINE_NOT_UDATA: &'static str = "line number is not udata";

pub const MSG_COLUMN_NOT_UDATA: &'static str = "column number is not udata";

/// A source location.
#[derive(Debug)]
pub struct Location {
    pub file: std::path::PathBuf,
    pub line: u64,
    pub column: u64,
}

/// One inlined call: `caller` inlined `callee` at `location`.
#[derive(Debug)]
pub struct Call {
    pub caller: String,
    pub callee: String,
    pub location: Option<Location>,
}

// ---------------------------------------------------------------------------------------------
// PC ranges of a DIE
// ---------------------------------------------------------------------------------------------

/// The ranges `(begin, length)` of one DIE decoded against the layout: all must lie in the
/// section of the first one. `None` where a decode would panic.
pub open spec fn decode_rest_spec(l: SectionLayout, pairs: Seq<(u64, u64)>, section: usize) -> Option<
    Result<Seq<(i64, i64)>, DwarfError>,
>
    decreases pairs.len(),
{
    if pairs.len() == 0 {
        Some(Ok(Seq::empty()))
    } else if l.decode_panics(pairs[0].0) {
        None
    } else {
        match l.decode_spec(pairs[0].0) {
            Err(e) => Some(Err(e)),
            Ok((s, b)) => if s != section {
                Some(Err(DwarfError::UnexpectedDwarf(MSG_MULTIPLE_SECTIONS)))
            } else {
                match decode_rest_spec(l, pairs.drop_first(), section) {
                    None => None,
                    Some(Err(e)) => Some(Err(e)),
                    Some(Ok(t)) => Some(
                        Ok(seq![(b, wrap_i64(b + wrap_i64(pairs[0].1 as int)) as i64)] + t),
                    ),
                }
            },
        }
    }
}

/// The section and the `begin..end` offsets that a DIE's `(begin, length)` ranges cover;
/// no ranges give section 0 and no offsets.
pub open spec fn decode_ranges_spec(l: SectionLayout, pairs: Seq<(u64, u64)>) -> Option<
    Result<(usize, Seq<(i64, i64)>), DwarfError>,
> {
    if pairs.len() == 0 {
        Some(Ok((0, Seq::empty())))
    } else if l.decode_panics(pairs[0].0) {
        None
    } else {
        match l.decode_spec(pairs[0].0) {
            Err(e) => Some(Err(e)),
            Ok((section, _)) => match decode_rest_spec(l, pairs, section) {
                None => None,
                Some(Err(e)) => Some(Err(e)),
                Some(Ok(t)) => Some(Ok((section, t))),
            },
        }
    }
}

/// `u as i64`.
fn as_i64(u: u64) -> (v: i64)
    ensures
        v == wrap_i64(u as int),
{
    if u <= 0x7fff_ffff_ffff_ffffu64 {
        u as i64
    } else {
        ((u - 0x8000_0000_0000_0000u64) as i64) + i64::MIN
    }
}

/// Decodes the PC ranges of one DIE, given as `(begin address, length)`; `None` where a decode
/// would fail its consistency assertion.
pub fn try_decode_ranges(layout: &SectionLayout, pairs: &Vec<(u64, u64)>) -> (res: Option<Result<
    (usize, Vec<(i64, i64)>),
    DwarfError,
>>)
    requires
        layout.wf(),
    ensures
        match decode_ranges_spec(*layout, pairs@) {
            None => res is None,
            Some(Ok((s, t))) => res matches Some(Ok((s2, v))) && s2 == s && v@ == t,
            Some(Err(e)) => res matches Some(Err(e2)) && e2 == e,
        },
{
    if pairs.len() == 0 {
        return Some(Ok((0, Vec::new())));
    }
    if layout.decode_would_panic(pairs[0].0) {
        return None;
    }
    let section = match layout.decode(pairs[0].0) {
        Ok(d) => d.0,
        Err(e) => {
            return Some(Err(e));
        },
    };
    let mut out: Vec<(i64, i64)> = Vec::new();
    let mut i: usize = 0;
    assert(pairs@.skip(0) =~= pairs@);
    while i < pairs.len()
        invariant
            layout.wf(),
            i <= pairs@.len(),
            decode_ranges_spec(*layout, pairs@) == match decode_rest_spec(*layout, pairs@, section) {
                None => None,
                Some(Err(e)) => Some(Err(e)),
                Some(Ok(t)) => Some(Ok::<(usize, Seq<(i64, i64)>), DwarfError>((section, t))),
            },
            decode_rest_spec(*layout, pairs@, section) == match decode_rest_spec(
                *layout,
                pairs@.skip(i as int),
                section,
            ) {
                None => None,
                Some(Ok(t)) => Some(Ok::<Seq<(i64, i64)>, DwarfError>(out@ + t)),
                Some(Err(e)) => Some(Err(e)),
            },
        decreases pairs@.len() - i,
    {
        assert(pairs@.skip(i as int).drop_first() =~= pairs@.skip(i + 1));
        assert(pairs@.skip(i as int)[0] == pairs@[i as int]);
        let (begin, len) = pairs[i];
        if layout.decode_would_panic(begin) {
            return None;
        }
        let (sec, b) = match layout.decode(begin) {
            Ok(d) => d,
            Err(e) => {
                return Some(Err(e));
            },
        };
        if sec != section {
            assert(decode_rest_spec(*layout, pairs@.skip(i as int), section) == Some(
                Err::<Seq<(i64, i64)>, DwarfError>(DwarfError::UnexpectedDwarf(MSG_MULTIPLE_SECTIONS)),
            ));
            return Some(Err(DwarfError::UnexpectedDwarf(MSG_MULTIPLE_SECTIONS)));
        }
        let ghost prev = out@;
        out.push((b, b.wrapping_add(as_i64(len))));
        proof {
            let t = decode_rest_spec(*layout, pairs@.skip(i + 1), section);
            if let Some(Ok(t)) = t {
                assert(prev + (seq![(b, wrap_i64(b + wrap_i64(len as int)) as i64)] + t) =~= out@ + t);
            }
        }
        i = i + 1;
    }
    assert(pairs@.skip(i as int) =~= Seq::<(u64, u64)>::empty());
    assert(out@ + Seq::<(i64, i64)>::empty() =~= out@);
    Some(Ok((section, out)))
}

/// Decodes the PC ranges of one DIE, given as `(begin address, length)`.
pub fn decode_ranges(layout: &SectionLayout, pairs: &Vec<(u64, u64)>) -> (res: Result<
    (usize, Vec<(i64, i64)>),
    DwarfError,
>)
    requires
        layout.wf(),
        decode_ranges_spec(*layout, pairs@) is Some,
    ensures
        match decode_ranges_spec(*layout, pairs@).unwrap() {
            Ok((s, t)) => res matches Ok((s2, v)) && s2 == s && v@ == t,
            Err(e) => res matches Err(e2) && e2 == e,
        },
{
    match try_decode_ranges(layout, pairs) {
        Some(r) => r,
        None => {
            proof {
                assert(false);
            }
            Ok((0, Vec::new()))
        },
    }
}

pub const MSG_LOW_PC_NOT_ADDRESS: &'static str = "DW_AT_low_pc is not an address";

pub const MSG_HIGH_PC_MISSING: &'static str = "DW_AT_high_pc not found at DW_TAG_inlined_subroutine";

pub const MSG_HIGH_PC_NOT_UDATA: &'static str = "DW_AT_high_pc is not udata";

pub const MSG_RANGES_NOT_RNGLIST: &'static str = "DW_AT_ranges is not rnglist reference";

/// An attribute of a DIE that bears on the PC ranges it covers, with its values already read.
#[derive(Debug)]
pub enum RangeAttr {
    /// `DW_AT_low_pc`: its value as an address (`Ok(None)` when it is not one), and the DIE's
    /// `DW_AT_high_pc` (`None` when missing, `Some(None)` when not an unsigned constant).
    LowPc { low: Result<Option<u64>, DwarfError>, high: Option<Option<u64>> },
    /// `DW_AT_ranges`: `None` when its value is not a range-list index, else the `(begin, end)`
    /// ranges of the list, or the error that reading them met.
    Ranges(Option<Result<Vec<(u64, u64)>, DwarfError>>),
}

/// `end - begin`, wrapping around 2^64.
pub open spec fn range_len(begin: u64, end: u64) -> u64 {
    wrap_u64(end - begin) as u64
}

/// The `(begin, length)` pairs of one `DW_AT_ranges` list.
pub open spec fn list_pairs(ranges: Seq<(u64, u64)>) -> Seq<(u64, u64)> {
    ranges.map_values(|r: (u64, u64)| (r.0, range_len(r.0, r.1)))
}

/// The `(begin, length)` pairs that the attributes give, scanning them in order; the first
/// malformed attribute ends the scan with its error.
pub open spec fn range_pairs_spec(attrs: Seq<RangeAttr>) -> Result<Seq<(u64, u64)>, DwarfError>
    decreases attrs.len(),
{
    if attrs.len() == 0 {
        Ok(Seq::empty())
    } else {
        let first: Result<Seq<(u64, u64)>, DwarfError> = match attrs[0] {
            RangeAttr::LowPc { low, high } => match low {
                Err(e) => Err(e),
                Ok(None) => Err(DwarfError::UnexpectedDwarf(MSG_LOW_PC_NOT_ADDRESS)),
                Ok(Some(l)) => match high {
                    None => Err(DwarfError::UnexpectedDwarf(MSG_HIGH_PC_MISSING)),
                    Some(None) => Err(DwarfError::UnexpectedDwarf(MSG_HIGH_PC_NOT_UDATA)),
                    Some(Some(h)) => Ok(seq![(l, h)]),
                },
            },
            RangeAttr::Ranges(None) => Err(DwarfError::UnexpectedDwarf(MSG_RANGES_NOT_RNGLIST)),
            RangeAttr::Ranges(Some(Err(e))) => Err(e),
            RangeAttr::Ranges(Some(Ok(v))) => Ok(list_pairs(v@)),
        };
        match first {
            Err(e) => Err(e),
            Ok(p) => match range_pairs_spec(attrs.drop_first()) {
                Err(e) => Err(e),
                Ok(rest) => Ok(p + rest),
            },
        }
    }
}

/// The section and offsets that a DIE's range attributes cover. `None` where a decode would
/// panic.
pub open spec fn ranges_spec(l: SectionLayout, attrs: Seq<RangeAttr>) -> Option<
    Result<(usize, Seq<(i64, i64)>), DwarfError>,
> {
    match range_pairs_spec(attrs) {
        Err(e) => Some(Err(e)),
        Ok(pairs) => decode_ranges_spec(l, pairs),
    }
}

/// Collects the `(begin, length)` pairs of the range attributes, in order.
fn range_pairs(attrs: Vec<RangeAttr>) -> (res: Result<Vec<(u64, u64)>, DwarfError>)
    ensures
        match range_pairs_spec(attrs@) {
            Ok(p) => res matches Ok(v) && v@ == p,
            Err(e) => res matches Err(e2) && e2 == e,
        },
{
    let ghost all = attrs@;
    let n = attrs.len();
    let mut rest = attrs;
    let mut out: Vec<(u64, u64)> = Vec::new();
    let mut i: usize = 0;
    while rest.len() > 0
        invariant
            i <= all.len(),
            rest@ == all.skip(i as int),
            i + rest@.len() == all.len(),
            all.len() == n,
            all == attrs@,
            range_pairs_spec(all) == match range_pairs_spec(rest@) {
                Err(e) => Err(e),
                Ok(r) => Ok(out@ + r),
            },
        decreases rest@.len(),
    {
        let ghost r0 = rest@;
        assert(r0.drop_first() =~= all.skip(i + 1));
        let a = rest.remove(0);
        assert(rest@ =~= r0.drop_first());
        assert(a == r0[0]);
        match a {
            RangeAttr::LowPc { low, high } => {
                let l = match low {
                    Err(e) => {
                        assert(range_pairs_spec(r0) == Err::<Seq<(u64, u64)>, DwarfError>(e));
                        assert(range_pairs_spec(all) == Err::<Seq<(u64, u64)>, DwarfError>(e));
                        return Err(e);
                    },
                    Ok(None) => {
                        return Err(DwarfError::UnexpectedDwarf(MSG_LOW_PC_NOT_ADDRESS));
                    },
                    Ok(Some(l)) => l,
                };
                let h = match high {
                    None => {
                        return Err(DwarfError::UnexpectedDwarf(MSG_HIGH_PC_MISSING));
                    },
                    Some(None) => {
                        return Err(DwarfError::UnexpectedDwarf(MSG_HIGH_PC_NOT_UDATA));
                    },
                    Some(Some(h)) => h,
                };
                let ghost before = out@;
                out.push((l, h));
                assert(out@ =~= before + seq![(l, h)]);
                proof {
                    assert forall|r: Seq<(u64, u64)>| out@ + r =~= before + (seq![(l, h)] + r) by {}
                }
            },
            RangeAttr::Ranges(None) => {
                assert(range_pairs_spec(r0) == Err::<Seq<(u64, u64)>, DwarfError>(
                    DwarfError::UnexpectedDwarf(MSG_RANGES_NOT_RNGLIST),
                ));
                return Err(DwarfError::UnexpectedDwarf(MSG_RANGES_NOT_RNGLIST));
            },
            RangeAttr::Ranges(Some(Err(e))) => {
                return Err(e);
            },
            RangeAttr::Ranges(Some(Ok(v))) => {
                let ghost before = out@;
                let mut j: usize = 0;
                while j < v.len()
                    invariant
                        j <= v@.len(),
                        out@ == before + list_pairs(v@.take(j as int)),
                    decreases v@.len() - j,
                {
                    let (b, e) = v[j];
                    let len: u64 = if e >= b {
                        e - b
                    } else {
                        e + (u64::MAX - b) + 1
                    };
                    out.push((b, len));
                    assert(list_pairs(v@.take(j + 1)) =~= list_pairs(v@.take(j as int)).push((b, len)));
                    j = j + 1;
                }
                assert(v@.take(v@.len() as int) =~= v@);
                proof {
                    assert forall|r: Seq<(u64, u64)>| out@ + r =~= before + (list_pairs(v@) + r) by {}
                }
            },
        }
        i = i + 1;
    }
    assert(all.skip(i as int).len() == 0);
    assert(out@ + Seq::<(u64, u64)>::empty() =~= out@);
    Ok(out)
}

/// The section and `begin..end` offsets that a DIE covers, from its range attributes in
/// order: a `DW_AT_low_pc` with the DIE's `DW_AT_high_pc` as length, or a `DW_AT_ranges`
/// list. `None` where decoding an address would panic.
pub fn die_ranges(layout: &SectionLayout, attrs: Vec<RangeAttr>) -> (res: Option<
    Result<(usize, Vec<(i64, i64)>), DwarfError>,
>)
    requires
        layout.wf(),
    ensures
        match ranges_spec(*layout, attrs@) {
            None => res is None,
            Some(Ok((s, t))) => res matches Some(Ok((s2, v))) && s2 == s && v@ == t,
            Some(Err(e)) => res matches Some(Err(e2)) && e2 == e,
        },
{
    match range_pairs(attrs) {
        Err(e) => Some(Err(e)),
        Ok(pairs) => try_decode_ranges(layout, &pairs),
    }
}


// ---------------------------------------------------------------------------------------------
// Inlined call stacks
// ---------------------------------------------------------------------------------------------

/// Each call is made by the callee of the call before it.
pub open spec fn forms_chain(calls: Seq<Call>) -> bool {
    forall|i: int| 0 < i < calls.len() ==> (#[trigger] calls[i]).caller@ == calls[i - 1].callee@
}

/// `s` without its last `n` entries (all of them when it has fewer).
pub open spec fn pop_n(s: Seq<Option<String>>, n: int) -> Seq<Option<String>> {
    if n <= 0 {
        s
    } else if n >= s.len() {
        Seq::empty()
    } else {
        s.take(s.len() - n)
    }
}

/// The nearest named entry below position `k` of the stack.
pub open spec fn caller_in(stack: Seq<Option<String>>, k: int) -> Option<String>
    decreases k,
{
    if k <= 0 {
        None
    } else if stack[k - 1] is Some {
        stack[k - 1]
    } else {
        caller_in(stack, k - 1)
    }
}

/// Whether one of the `begin..end` ranges holds `x`.
pub open spec fn range_hit(ranges: Seq<(i64, i64)>, x: int) -> bool {
    exists|j: int| 0 <= j < ranges.len() && (#[trigger] ranges[j]).0 <= x < ranges[j].1
}

/// The call stack after visiting an inlined subroutine whose PC ranges are `ranges`, while
/// looking for `offset` in section `section_index`.
pub open spec fn visit_spec(
    calls: Seq<Call>,
    stack: Seq<Option<String>>,
    section_index: usize,
    ranges: (usize, Seq<(i64, i64)>),
    offset: u64,
    location: Result<Option<Location>, DwarfError>,
) -> Result<Seq<Call>, DwarfError> {
    if ranges.0 != section_index || !range_hit(ranges.1, wrap_i64(offset as int)) {
        Ok(calls)
    } else {
        match caller_in(stack, stack.len() - 1) {
            None => Err(DwarfError::UnexpectedDwarf(MSG_NOT_NESTED)),
            Some(caller) => if calls.len() > 0 && calls.last().callee@ != caller@ {
                Err(DwarfError::UnexpectedDwarf(MSG_NOT_CHAIN))
            } else {
                match location {
                    Err(e) => Err(e),
                    Ok(loc) => Ok(
                        calls.push(Call { caller, callee: stack.last().unwrap(), location: loc }),
                    ),
                }
            },
        }
    }
}

/// An inlined subroutine in the wanted section is recorded as a call exactly when some one of
/// its ranges, wherever it stands in the list, holds the offset: with the enclosing named DIE
/// as caller and the subroutine as callee, after the calls found before.
pub proof fn lemma_visit_records_on_hit(
    calls: Seq<Call>,
    stack: Seq<Option<String>>,
    section_index: usize,
    ranges: (usize, Seq<(i64, i64)>),
    offset: u64,
    location: Result<Option<Location>, DwarfError>,
    t: int,
)
    requires
        ranges.0 == section_index,
        0 <= t < ranges.1.len(),
        ranges.1[t].0 <= wrap_i64(offset as int) < ranges.1[t].1,
        caller_in(stack, stack.len() - 1) is Some,
        calls.len() > 0 ==> calls.last().callee@ == caller_in(stack, stack.len() - 1).unwrap()@,
        location is Ok,
    ensures
        visit_spec(calls, stack, section_index, ranges, offset, location) == Ok::<Seq<Call>, DwarfError>(
            calls.push(
                Call {
                    caller: caller_in(stack, stack.len() - 1).unwrap(),
                    callee: stack.last().unwrap(),
                    location: location.unwrap(),
                },
            ),
        ),
{
    assert(range_hit(ranges.1, wrap_i64(offset as int)));
}

/// An inlined subroutine none of whose ranges holds the offset, or whose ranges lie in another
/// section, records nothing.
pub proof fn lemma_visit_ignores_miss(
    calls: Seq<Call>,
    stack: Seq<Option<String>>,
    section_index: usize,
    ranges: (usize, Seq<(i64, i64)>),
    offset: u64,
    location: Result<Option<Location>, DwarfError>,
)
    requires
        ranges.0 != section_index || forall|t: int|
            0 <= t < ranges.1.len() ==> !((#[trigger] ranges.1[t]).0 <= wrap_i64(offset as int) < ranges.1[t].1),
    ensures
        visit_spec(calls, stack, section_index, ranges, offset, location) == Ok::<Seq<Call>, DwarfError>(calls),
{
}

/// The nearest named entry of `stack` below position `k`.
fn find_caller(stack: &Vec<Option<String>>, k: usize) -> (r: Option<String>)
    requires
        k <= stack@.len(),
    ensures
        r == caller_in(stack@, k as int),
{
    let mut i = k;
    while i > 0
        invariant
            i <= k <= stack@.len(),
            caller_in(stack@, k as int) == caller_in(stack@, i as int),
        decreases i,
    {
        if let Some(name) = &stack[i - 1] {
            return Some(name.clone());
        }
        i = i - 1;
    }
    None
}

/// Follows the DIEs of the compilation units in depth-first order and collects the chain of
/// inlined calls whose code covers one address.
pub struct InlineWalker {
    stack: Vec<Option<String>>,
    callstack: Vec<Call>,
    prev_depth: Option<isize>,
}

/// `DW_TAG_subprogram`.
pub const DW_TAG_SUBPROGRAM: u16 = 0x2e;

/// `DW_TAG_inlined_subroutine`.
pub const DW_TAG_INLINED_SUBROUTINE: u16 = 0x1d;

/// Whether a DIE with tag `tag` is named on the stack: a subprogram or an inlined subroutine.
pub fn is_named_entry(tag: u16) -> (b: bool)
    ensures
        b == (tag == DW_TAG_SUBPROGRAM || tag == DW_TAG_INLINED_SUBROUTINE),
{
    tag == DW_TAG_SUBPROGRAM || tag == DW_TAG_INLINED_SUBROUTINE
}

/// Whether a DIE with tag `tag` is an inlined call, whose ranges are looked at.
pub fn is_inlined_entry(tag: u16) -> (b: bool)
    ensures
        b == (tag == DW_TAG_INLINED_SUBROUTINE),
{
    tag == DW_TAG_INLINED_SUBROUTINE
}

/// How far a DIE at tree depth `depth` lies below the previous one, `prev`; the first DIE of a
/// unit counts as a sibling of nothing.
pub open spec fn depth_delta(prev: Option<isize>, depth: isize) -> int {
    match prev {
        None => 0,
        Some(p) => depth - p,
    }
}

impl InlineWalker {
    /// The names of the enclosing DIEs, outermost first; `None` for a DIE that is neither a
    /// subprogram nor an inlined subroutine.
    pub closed spec fn stack(self) -> Seq<Option<String>> {
        self.stack@
    }

    /// The inlined calls found so far, outermost first.
    pub closed spec fn calls(self) -> Seq<Call> {
        self.callstack@
    }

    /// The tree depth of the last DIE entered in this unit.
    pub closed spec fn prev_depth(self) -> Option<isize> {
        self.prev_depth
    }

    /// The calls found form a chain.
    pub open spec fn wf(self) -> bool {
        forms_chain(self.calls())
    }

    pub fn new() -> (w: Self)
        ensures
            w.stack() == Seq::<Option<String>>::empty(),
            w.calls() == Seq::<Call>::empty(),
            w.prev_depth() is None,
            w.wf(),
    {
        InlineWalker { stack: Vec::new(), callstack: Vec::new(), prev_depth: None }
    }

    /// Starts a new compilation unit.
    pub fn begin_unit(&mut self)
        ensures
            final(self).stack() == Seq::<Option<String>>::empty(),
            final(self).calls() == old(self).calls(),
            final(self).prev_depth() is None,
    {
        self.stack = Vec::new();
        self.prev_depth = None;
    }

    /// The tree depth of the last DIE entered in this unit.
    pub fn last_depth(&self) -> (d: Option<isize>)
        ensures
            d == self.prev_depth(),
    {
        self.prev_depth
    }

    /// Steps to the next DIE in depth-first order, which lies at tree depth `depth` and whose
    /// name is `name`.
    pub fn enter_at(&mut self, depth: isize, name: Option<String>)
        requires
            isize::MIN <= depth_delta(old(self).prev_depth(), depth) <= isize::MAX,
        ensures
            final(self).stack() == pop_n(old(self).stack(), 1 - depth_delta(old(self).prev_depth(), depth)).push(
                name,
            ),
            final(self).calls() == old(self).calls(),
            final(self).prev_depth() == Some(depth),
    {
        let delta: isize = match self.prev_depth {
            None => 0,
            Some(p) => depth - p,
        };
        self.enter(delta, name);
        self.prev_depth = Some(depth);
    }

    /// Steps to the next DIE, `depth` levels below the previous one (0 for a sibling, negative
    /// to leave subtrees), whose name is `name`.
    pub fn enter(&mut self, depth: isize, name: Option<String>)
        ensures
            final(self).stack() == pop_n(old(self).stack(), 1 - depth).push(name),
            final(self).calls() == old(self).calls(),
            final(self).prev_depth() == old(self).prev_depth(),
    {
        let ghost s0 = self.stack@;
        let mut d = depth;
        while d <= 0
            invariant
                depth <= d,
                depth <= 0 ==> d <= 1,
                depth > 0 ==> d == depth,
                self.stack@ == pop_n(s0, d - depth),
                self.callstack@ == old(self).callstack@,
                self.prev_depth == old(self).prev_depth,
            decreases 1 - d,
        {
            let ghost before = self.stack@;
            self.stack.pop();
            proof {
                if before.len() > 0 {
                    assert(before.drop_last() =~= pop_n(s0, d + 1 - depth));
                } else {
                    assert(pop_n(s0, d + 1 - depth) =~= Seq::<Option<String>>::empty());
                }
            }
            d = d + 1;
        }
        self.stack.push(name);
    }

    /// Visits an inlined subroutine whose PC ranges are `ranges`: when they cover `offset` in
    /// section `section_index`, records the call from the nearest enclosing named DIE, at
    /// `location`.
    pub fn visit_inlined(
        &mut self,
        section_index: usize,
        ranges: &(usize, Vec<(i64, i64)>),
        offset: u64,
        location: Result<Option<Location>, DwarfError>,
    ) -> (res: Result<(), DwarfError>)
        requires
            old(self).stack().len() > 0,
            old(self).stack().last() is Some,
        ensures
            final(self).stack() == old(self).stack(),
            old(self).wf() ==> final(self).wf(),
            match visit_spec(
                old(self).calls(),
                old(self).stack(),
                section_index,
                (ranges.0, ranges.1@),
                offset,
                location,
            ) {
                Ok(c) => res is Ok && final(self).calls() == c,
                Err(e) => res == Err::<(), DwarfError>(e) && final(self).calls() == old(self).calls(),
            },
    {
        if ranges.0 != section_index {
            return Ok(());
        }
        let x = as_i64(offset);
        let mut hit = false;
        let mut j: usize = 0;
        while j < ranges.1.len()
            invariant
                j <= ranges.1@.len(),
                hit == exists|t: int| 0 <= t < j && (#[trigger] ranges.1@[t]).0 <= x < ranges.1@[t].1,
            decreases ranges.1@.len() - j,
        {
            let (lo, hi) = ranges.1[j];
            if lo <= x && x < hi {
                hit = true;
            }
            j = j + 1;
        }
        if !hit {
            return Ok(());
        }
        let n = self.stack.len();
        let caller = find_caller(&self.stack, n - 1);
        let caller = match caller {
            Some(c) => c,
            None => {
                return Err(DwarfError::UnexpectedDwarf(MSG_NOT_NESTED));
            },
        };
        let callee = match &self.stack[n - 1] {
            Some(c) => c.clone(),
            None => {
                return Ok(());
            },
        };
        let m = self.callstack.len();
        if m > 0 && self.callstack[m - 1].callee != caller {
            return Err(DwarfError::UnexpectedDwarf(MSG_NOT_CHAIN));
        }
        let location = location?;
        self.callstack.push(Call { caller, callee, location });
        Ok(())
    }

    /// The inlined calls found, outermost first.
    pub fn into_calls(self) -> (v: Vec<Call>)
        ensures
            v@ == self.calls(),
    {
        self.callstack
    }
}


// ---------------------------------------------------------------------------------------------
// Names of subprograms
// ---------------------------------------------------------------------------------------------

/// An attribute of a DIE that bears on its name, with its string already read.
#[derive(Debug)]
pub enum NameAttr {
    /// `DW_AT_linkage_name`
    LinkageName(Result<String, DwarfError>),
    /// `DW_AT_name`
    Name(Result<String, DwarfError>),
    /// `DW_AT_abstract_origin` or `DW_AT_specification`: the offset of the DIE referred to
    /// within its unit, `None` for any other form of reference.
    Reference(Option<u64>),
    /// Reading the next attribute failed.
    Failed(DwarfError),
}

/// Where a DIE's name is found.
#[derive(Debug)]
pub enum NameLookup {
    Found(String),
    /// The name is that of the DIE at this offset in the same unit.
    Follow(u64),
}

/// The name the attributes give, scanning them in order: a linkage name wins at once, else
/// the last plain name, else the last reference to another DIE.
pub open spec fn name_scan_spec(
    attrs: Seq<NameAttr>,
    name: Option<String>,
    reference: Option<Option<u64>>,
) -> Result<NameLookup, DwarfError>
    decreases attrs.len(),
{
    if attrs.len() == 0 {
        match name {
            Some(n) => Ok(NameLookup::Found(n)),
            None => match reference {
                None => Err(DwarfError::UnexpectedDwarf(MSG_NO_NAME)),
                Some(Some(offset)) => Ok(NameLookup::Follow(offset)),
                Some(None) => Err(DwarfError::UnexpectedDwarf(MSG_UNSUPPORTED_REFERENCE)),
            },
        }
    } else {
        match attrs[0] {
            NameAttr::LinkageName(Ok(s)) => Ok(NameLookup::Found(s)),
            NameAttr::LinkageName(Err(e)) => Err(e),
            NameAttr::Name(Ok(s)) => name_scan_spec(attrs.drop_first(), Some(s), reference),
            NameAttr::Name(Err(e)) => Err(e),
            NameAttr::Reference(r) => name_scan_spec(attrs.drop_first(), name, Some(r)),
            NameAttr::Failed(e) => Err(e),
        }
    }
}

/// Decides the name of a subprogram or inlined subroutine from its attributes, in order.
pub fn linkage_name(attributes: Vec<NameAttr>) -> (res: Result<NameLookup, DwarfError>)
    ensures
        res == name_scan_spec(attributes@, None, None),
{
    let ghost goal = name_scan_spec(attributes@, None, None);
    let mut attrs = attributes;
    let mut name: Option<String> = None;
    let mut reference: Option<Option<u64>> = None;
    while attrs.len() > 0
        invariant
            name_scan_spec(attrs@, name, reference) == goal,
            goal == name_scan_spec(attributes@, None, None),
        decreases attrs@.len(),
    {
        let ghost before = attrs@;
        let attr = attrs.remove(0);
        assert(before.remove(0) =~= before.drop_first());
        assert(attr == before[0]);
        match attr {
            NameAttr::LinkageName(Ok(s)) => {
                assert(name_scan_spec(before, name, reference) == Ok::<NameLookup, DwarfError>(
                    NameLookup::Found(s),
                ));
                return Ok(NameLookup::Found(s));
            },
            NameAttr::LinkageName(Err(e)) => {
                assert(name_scan_spec(before, name, reference) == Err::<NameLookup, DwarfError>(e));
                return Err(e);
            },
            NameAttr::Name(Ok(s)) => {
                name = Some(s);
            },
            NameAttr::Name(Err(e)) => {
                return Err(e);
            },
            NameAttr::Reference(r) => {
                reference = Some(r);
            },
            NameAttr::Failed(e) => {
                return Err(e);
            },
        }
    }
    match name {
        Some(n) => Ok(NameLookup::Found(n)),
        None => match reference {
            None => Err(DwarfError::UnexpectedDwarf(MSG_NO_NAME)),
            Some(Some(offset)) => Ok(NameLookup::Follow(offset)),
            Some(None) => Err(DwarfError::UnexpectedDwarf(MSG_UNSUPPORTED_REFERENCE)),
        },
    }
}

// ---------------------------------------------------------------------------------------------
// Call sites of inlined subroutines
// ---------------------------------------------------------------------------------------------

/// The result of looking up one attribute of a DIE.
#[derive(Debug)]
pub enum AttrLookup {
    Failed(DwarfError),
    Missing,
    /// Present, with its unsigned value when it has one.
    Present(Option<u64>),
}

/// The call site of an inlined subroutine from its `DW_AT_call_file`, `DW_AT_call_line` and
/// `DW_AT_call_column` attributes. `file_name` is the name of the file numbered by
/// `DW_AT_call_file`, as far as it could be read.
pub open spec fn call_location_spec(
    file: AttrLookup,
    has_line_program: bool,
    file_name: Option<Result<std::path::PathBuf, DwarfError>>,
    line: AttrLookup,
    column: AttrLookup,
) -> Result<Option<Location>, DwarfError> {
    match file {
        AttrLookup::Failed(e) => Err(e),
        AttrLookup::Missing => Ok(None),
        AttrLookup::Present(index) => if !has_line_program {
            Err(DwarfError::UnexpectedDwarf(MSG_NO_LINE_PROGRAM))
        } else if index is None {
            Err(DwarfError::UnexpectedDwarf(MSG_FILE_NOT_UDATA))
        } else {
            match file_name.unwrap() {
                Err(e) => Err(e),
                Ok(path) => match line {
                    AttrLookup::Failed(e) => Err(e),
                    AttrLookup::Missing => Ok(None),
                    AttrLookup::Present(None) => Err(DwarfError::UnexpectedDwarf(MSG_LINE_NOT_UDATA)),
                    AttrLookup::Present(Some(l)) => match column {
                        AttrLookup::Failed(e) => Err(e),
                        AttrLookup::Missing => Ok(Some(Location { file: path, line: l, column: 0 })),
                        AttrLookup::Present(None) => Err(
                            DwarfError::UnexpectedDwarf(MSG_COLUMN_NOT_UDATA),
                        ),
                        AttrLookup::Present(Some(c)) => Ok(
                            Some(Location { file: path, line: l, column: c }),
                        ),
                    },
                },
            }
        },
    }
}

pub const MSG_NO_LINE_PROGRAM: &'static str = "line number table not present";

/// Decides the call site of an inlined subroutine; see `call_location_spec`.
pub fn call_location(
    file: AttrLookup,
    has_line_program: bool,
    file_name: Option<Result<std::path::PathBuf, DwarfError>>,
    line: AttrLookup,
    column: AttrLookup,
) -> (res: Result<Option<Location>, DwarfError>)
    requires
        (file matches AttrLookup::Present(Some(_)) && has_line_program) ==> file_name is Some,
    ensures
        res == call_location_spec(file, has_line_program, file_name, line, column),
{
    let index = match file {
        AttrLookup::Failed(e) => {
            return Err(e);
        },
        AttrLookup::Missing => {
            return Ok(None);
        },
        AttrLookup::Present(index) => index,
    };
    if !has_line_program {
        return Err(DwarfError::UnexpectedDwarf(MSG_NO_LINE_PROGRAM));
    }
    if index.is_none() {
        return Err(DwarfError::UnexpectedDwarf(MSG_FILE_NOT_UDATA));
    }
    let path = match file_name {
        Some(Ok(p)) => p,
        Some(Err(e)) => {
            return Err(e);
        },
        None => {
            return Err(DwarfError::UnexpectedDwarf(MSG_FILE_NOT_UDATA));
        },
    };
    let line = match line {
        AttrLookup::Failed(e) => {
            return Err(e);
        },
        AttrLookup::Missing => {
            return Ok(None);
        },
        AttrLookup::Present(None) => {
            return Err(DwarfError::UnexpectedDwarf(MSG_LINE_NOT_UDATA));
        },
        AttrLookup::Present(Some(l)) => l,
    };
    let column = match column {
        AttrLookup::Failed(e) => {
            return Err(e);
        },
        AttrLookup::Missing => 0,
        AttrLookup::Present(None) => {
            return Err(DwarfError::UnexpectedDwarf(MSG_COLUMN_NOT_UDATA));
        },
        AttrLookup::Present(Some(c)) => c,
    };
    Ok(Some(Location { file: path, line, column }))
}

// ---------------------------------------------------------------------------------------------
// File names of the line tables
// ---------------------------------------------------------------------------------------------

pub const MSG_NO_FILE: &'static str = "debug_lines referenced non-existent file";

pub const MSG_NO_DIRECTORY: &'static str = "debug_lines referenced non-existent directory";

/// The path `std::path::PathBuf::from` makes of `name`.
pub uninterp spec fn path_of(name: Seq<char>) -> std::path::PathBuf;

/// The path `std::path::Path::join` makes of directory `dir` and `name`.
pub uninterp spec fn path_joined(dir: Seq<char>, name: Seq<char>) -> std::path::PathBuf;

/// `PathBuf::from(name)`; the result depends on `name` alone.
#[verifier::external_body]
fn path_from(name: String) -> (p: std::path::PathBuf)
    ensures
        p == path_of(name@),
{
    std::path::PathBuf::from(name)
}

/// `Path::new(&dir).join(name)`; the result depends on `dir` and `name` alone.
#[verifier::external_body]
fn join_path(dir: String, name: String) -> (p: std::path::PathBuf)
    ensures
        p == path_joined(dir@, name@),
{
    std::path::Path::new(&dir).join(name)
}

/// A file entry of a line-program header, with its strings already read.
#[derive(Debug)]
pub struct FileEntryInfo {
    /// `None` when the entry names no directory (directory index 0); `Some(None)` when the
    /// directory it names does not exist; else the directory's name.
    pub directory: Option<Option<Result<String, DwarfError>>>,
    /// The entry's own path name.
    pub path_name: Result<String, DwarfError>,
}

/// The path of a line-table file entry: its name, behind its directory if it names one.
pub open spec fn file_name_spec(entry: Option<FileEntryInfo>) -> Result<std::path::PathBuf, DwarfError> {
    match entry {
        None => Err(DwarfError::UnexpectedDwarf(MSG_NO_FILE)),
        Some(e) => match e.directory {
            None => match e.path_name {
                Err(x) => Err(x),
                Ok(n) => Ok(path_of(n@)),
            },
            Some(None) => Err(DwarfError::UnexpectedDwarf(MSG_NO_DIRECTORY)),
            Some(Some(Err(x))) => Err(x),
            Some(Some(Ok(d))) => match e.path_name {
                Err(x) => Err(x),
                Ok(n) => Ok(path_joined(d@, n@)),
            },
        },
    }
}

/// The path of the file entry that a line table refers to; `None` when the table has no
/// entry of that index.
pub fn file_name(entry: Option<FileEntryInfo>) -> (res: Result<std::path::PathBuf, DwarfError>)
    ensures
        res == file_name_spec(entry),
{
    let e = match entry {
        None => {
            return Err(DwarfError::UnexpectedDwarf(MSG_NO_FILE));
        },
        Some(e) => e,
    };
    match e.directory {
        None => match e.path_name {
            Err(x) => Err(x),
            Ok(n) => Ok(path_from(n)),
        },
        Some(None) => Err(DwarfError::UnexpectedDwarf(MSG_NO_DIRECTORY)),
        Some(Some(Err(x))) => Err(x),
        Some(Some(Ok(d))) => match e.path_name {
            Err(x) => Err(x),
            Ok(n) => Ok(join_path(d, n)),
        },
    }
}

// ---------------------------------------------------------------------------------------------
// Line tables
// ---------------------------------------------------------------------------------------------

/// One row of a line-number program.
#[derive(Clone, Copy, Debug, PartialEq, Eq, Structural)]
pub struct LineRow {
    pub address: u64,
    pub file_index: u64,
    /// The line number; `None` when the row is not attributed to any line.
    pub line: Option<u64>,
    /// The column number; 0 for the left edge.
    pub column: u64,
    pub end_sequence: bool,
}

/// One row looked at while searching a unit's line program for `offset` in section `section`:
/// gives the state to carry on with and the row that describes the address, if this row
/// closes it. `None` where decoding the row's address would panic.
pub open spec fn line_step_spec(
    layout: SectionLayout,
    prev: Option<(i64, LineRow)>,
    section: usize,
    offset: u64,
    row: LineRow,
) -> Option<Result<(Option<(i64, LineRow)>, Option<LineRow>), DwarfError>> {
    if layout.decode_panics(row.address) {
        None
    } else {
        match layout.decode_spec(row.address) {
            Err(e) => Some(Err(e)),
            Ok((s, off)) => if s != section {
                Some(Ok((prev, None)))
            } else if prev matches Some((prev_addr, prev_row)) && prev_row.line is Some && prev_addr
                <= wrap_i64(offset as int) < off {
                Some(Ok((prev, Some(prev.unwrap().1))))
            } else if row.end_sequence {
                Some(Ok((None, None)))
            } else {
                Some(Ok((Some((off, row)), None)))
            },
        }
    }
}

/// The search of one unit's line program for the row that describes an address.
pub struct LineScan {
    prev: Option<(i64, LineRow)>,
}

impl LineScan {
    /// The last row seen in the wanted section, with its offset, since the last end of sequence.
    pub closed spec fn prev(self) -> Option<(i64, LineRow)> {
        self.prev
    }

    pub fn new() -> (s: Self)
        ensures
            s.prev() is None,
    {
        LineScan { prev: None }
    }

    /// Looks at the next row; returns the row that describes `offset` once the rows around it
    /// have been seen.
    pub fn step(&mut self, layout: &SectionLayout, section: usize, offset: u64, row: LineRow) -> (res:
        Result<Option<LineRow>, DwarfError>)
        requires
            layout.wf(),
            line_step_spec(*layout, old(self).prev(), section, offset, row) is Some,
        ensures
            match line_step_spec(*layout, old(self).prev(), section, offset, row).unwrap() {
                Ok((p, found)) => res == Ok::<Option<LineRow>, DwarfError>(found) && final(self).prev()
                    == p,
                Err(e) => res matches Err(e2) && e2 == e,
            },
    {
        let (encoded_section, encoded_offset) = layout.decode(row.address)?;
        if encoded_section != section {
            return Ok(None);
        }
        let x = as_i64(offset);
        if let Some((prev_addr, prev_row)) = self.prev {
            if prev_row.line.is_some() && prev_addr <= x && x < encoded_offset {
                return Ok(Some(prev_row));
            }
        }
        if row.end_sequence {
            self.prev = None;
        } else {
            self.prev = Some((encoded_offset, row));
        }
        Ok(None)
    }
}

/// The rows of one line program looked at in order, from state `prev`: the row that describes
/// `offset` in section `section`, if one does. `None` where decoding an address would panic.
pub open spec fn rows_scan_spec(
    layout: SectionLayout,
    prev: Option<(i64, LineRow)>,
    section: usize,
    offset: u64,
    rows: Seq<LineRow>,
) -> Option<Result<Option<LineRow>, DwarfError>>
    decreases rows.len(),
{
    if rows.len() == 0 {
        Some(Ok(None))
    } else {
        match line_step_spec(layout, prev, section, offset, rows[0]) {
            None => None,
            Some(Err(e)) => Some(Err(e)),
            Some(Ok((_, Some(found)))) => Some(Ok(Some(found))),
            Some(Ok((p, None))) => rows_scan_spec(layout, p, section, offset, rows.drop_first()),
        }
    }
}

/// Where the row `found` that describes `x` lies among `rows`, searched from state `prev`
/// (`j == -1` for the remembered row): it has a line, starts at or below `x` in the wanted
/// section and does not end its sequence; the row at `c` closes it, starting past `x` in the
/// wanted section; and no row between them lies in the wanted section.
pub open spec fn describes_at(
    l: SectionLayout,
    prev: Option<(i64, LineRow)>,
    section: usize,
    x: u64,
    rows: Seq<LineRow>,
    found: LineRow,
    j: int,
    c: int,
) -> bool {
    let wx = wrap_i64(x as int);
    &&& -1 <= j < c < rows.len()
    &&& found.line is Some
    &&& if j == -1 {
        prev matches Some((a, pr)) && pr == found && a <= wx
    } else {
        &&& rows[j] == found
        &&& !found.end_sequence
        &&& (l.decode_spec(found.address) matches Ok((s1, a)) && s1 == section && a <= wx)
    }
    &&& (l.decode_spec(rows[c].address) matches Ok((s2, b)) && s2 == section && wx < b)
    &&& forall|k: int|
        j < k < c ==> (l.decode_spec((#[trigger] rows[k]).address) matches Ok((s3, o)) && s3 != section)
}

proof fn lemma_scan_describes(
    l: SectionLayout,
    prev: Option<(i64, LineRow)>,
    section: usize,
    x: u64,
    rows: Seq<LineRow>,
    found: LineRow,
)
    requires
        rows_scan_spec(l, prev, section, x, rows) == Some(Ok::<Option<LineRow>, DwarfError>(Some(found))),
    ensures
        exists|j: int, c: int| describes_at(l, prev, section, x, rows, found, j, c),
    decreases rows.len(),
{
    let row = rows[0];
    let rest = rows.drop_first();
    match line_step_spec(l, prev, section, x, row) {
        Some(Ok((p, Some(f)))) => {
            assert(describes_at(l, prev, section, x, rows, found, -1, 0));
        },
        Some(Ok((p, None))) => {
            lemma_scan_describes(l, p, section, x, rest, found);
            let (j2, c2) = choose|j: int, c: int| describes_at(l, p, section, x, rest, found, j, c);
            let (s0, off) = l.decode_spec(row.address).unwrap();
            assert forall|k: int| 0 < k < rows.len() implies #[trigger] rows[k] == rest[k - 1] by {}
            if s0 != section {
                assert(p == prev);
                if j2 == -1 {
                    assert(describes_at(l, prev, section, x, rows, found, -1, c2 + 1));
                } else {
                    assert(describes_at(l, prev, section, x, rows, found, j2 + 1, c2 + 1));
                }
            } else if row.end_sequence {
                assert(j2 != -1);
                assert(describes_at(l, prev, section, x, rows, found, j2 + 1, c2 + 1));
            } else {
                assert(p == Some((off, row)));
                if j2 == -1 {
                    assert(describes_at(l, prev, section, x, rows, found, 0, c2 + 1));
                } else {
                    assert(describes_at(l, prev, section, x, rows, found, j2 + 1, c2 + 1));
                }
            }
        },
        _ => {},
    }
}

/// The row that the search of a line program returns for `x` is the last row of the wanted
/// section at or below `x` in its sequence: it has a line, starts at or below `x` and does not
/// end its sequence, the row that closes the search starts past `x` in the wanted section, and
/// no row in between lies in the wanted section.
pub proof fn lemma_located_row_is_last_below(
    l: SectionLayout,
    section: usize,
    x: u64,
    rows: Seq<LineRow>,
    tail: Option<DwarfError>,
    found: LineRow,
)
    requires
        locate_spec(l, section, x, rows, tail) == Some(Ok::<Option<LineRow>, DwarfError>(Some(found))),
    ensures
        exists|j: int, c: int| 0 <= j && describes_at(l, None, section, x, rows, found, j, c),
{
    lemma_scan_describes(l, None, section, x, rows, found);
    let (j, c) = choose|j: int, c: int| describes_at(l, None, section, x, rows, found, j, c);
    assert(0 <= j && describes_at(l, None, section, x, rows, found, j, c));
}

/// The search of a whole line program, whose reading gave `rows` and then stopped with
/// `tail` if it failed.
pub open spec fn locate_spec(
    layout: SectionLayout,
    section: usize,
    offset: u64,
    rows: Seq<LineRow>,
    tail: Option<DwarfError>,
) -> Option<Result<Option<LineRow>, DwarfError>> {
    match rows_scan_spec(layout, None, section, offset, rows) {
        Some(Ok(None)) => match tail {
            None => Some(Ok(None)),
            Some(e) => Some(Err(e)),
        },
        other => other,
    }
}

/// Searches the rows of one line program, in order, for the row that describes `offset` in
/// section `section`; `tail` is the error that stopped the reading of the rows, if any, and
/// counts only when no row before it was found. `None` where decoding an address would panic.
pub fn locate_in_rows(
    layout: &SectionLayout,
    section: usize,
    offset: u64,
    rows: &Vec<LineRow>,
    tail: Option<DwarfError>,
) -> (res: Option<Result<Option<LineRow>, DwarfError>>)
    requires
        layout.wf(),
    ensures
        match locate_spec(*layout, section, offset, rows@, tail) {
            None => res is None,
            Some(Ok(r)) => res == Some(Ok::<Option<LineRow>, DwarfError>(r)),
            Some(Err(e)) => res matches Some(Err(e2)) && e2 == e,
        },
{
    let mut scan = LineScan::new();
    let mut i: usize = 0;
    assert(rows@.skip(0) =~= rows@);
    while i < rows.len()
        invariant
            layout.wf(),
            i <= rows@.len(),
            rows_scan_spec(*layout, None, section, offset, rows@) == rows_scan_spec(
                *layout,
                scan.prev(),
                section,
                offset,
                rows@.skip(i as int),
            ),
        decreases rows@.len() - i,
    {
        let row = rows[i];
        assert(rows@.skip(i as int)[0] == row);
        assert(rows@.skip(i as int).drop_first() =~= rows@.skip(i + 1));
        if layout.decode_would_panic(row.address) {
            return None;
        }
        match scan.step(layout, section, offset, row) {
            Err(e) => {
                return Some(Err(e));
            },
            Ok(Some(found)) => {
                return Some(Ok(Some(found)));
            },
            Ok(None) => {},
        }
        i = i + 1;
    }
    assert(rows@.skip(i as int) =~= Seq::<LineRow>::empty());
    match tail {
        None => Some(Ok(None)),
        Some(e) => Some(Err(e)),
    }
}

/// The location a line-table row gives, in file `file`.
pub fn row_location(row: &LineRow, file: std::path::PathBuf) -> (loc: Location)
    ensures
        loc == (Location {
            file,
            line: match row.line {
                Some(l) => l,
                None => 0,
            },
            column: row.column,
        }),
{
    Location {
        file,
        line: match row.line {
            Some(l) => l,
            None => 0,
        },
        column: row.column,
    }
}

} // verus!
