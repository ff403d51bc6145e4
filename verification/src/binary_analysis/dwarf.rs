//! Reading DWARF out of relocatable object files.
//!
//! `gimli` does not apply relocations; that is fine for linked binaries, but in a relocatable
//! object file every section starts at address 0, so addresses cannot tell sections apart.
//! To solve this, all allocated sections are laid flat in one address space, with gaps between
//! them for pointers that reach past a section's end, and relocations in the DWARF sections are
//! resolved against that layout. The layout then maps addresses back to sections.

use vstd::prelude::*;
use crate::binary_analysis::object_file::{
    object_section_address, object_section_data, object_section_relocations, object_sections,
    object_little_endian, object_symbol, parse_ok, parses_as_object, read_little_endian,
    read_section_address, read_section_data,
    read_section_relocations, read_sections, read_symbol, RawRelocation, RawSection,
    RawSectionFlags, RawTarget,
};

verus! {

/// Errors while reading DWARF from an object file.
#[derive(Debug)]
pub enum DwarfError {
    Object(object::read::Error),
    Gimli(gimli::read::Error),
    /// unexpected ELF information
    UnexpectedElf(&'static str),
    /// unexpected DWARF information
    UnexpectedDwarf(&'static str),
    Other(&'static str),
}

impl From<gimli::read::Error> for DwarfError {
    fn from(value: gimli::read::Error) -> (r: Self)
        ensures
            r == DwarfError::Gimli(value),
    {
        DwarfError::Gimli(value)
    }
}

impl vstd::std_specs::convert::FromSpecImpl<gimli::read::Error> for DwarfError {
    open spec fn obeys_from_spec() -> bool {
        true
    }

    open spec fn from_spec(v: gimli::read::Error) -> Self {
        DwarfError::Gimli(v)
    }
}

impl From<object::read::Error> for DwarfError {
    fn from(value: object::read::Error) -> (r: Self)
        ensures
            r == DwarfError::Object(value),
    {
        DwarfError::Object(value)
    }
}

impl vstd::std_specs::convert::FromSpecImpl<object::read::Error> for DwarfError {
    open spec fn obeys_from_spec() -> bool {
        true
    }

    open spec fn from_spec(v: object::read::Error) -> Self {
        DwarfError::Object(v)
    }
}


/// Space left between two allocated sections, and before the first one.
pub const SECTION_GAP: u64 = 65536;

/// How far an address may lie outside a section and still be taken as pointing into it.
pub const HALF_GAP: u64 = SECTION_GAP / 2;

pub const MSG_LAYOUT_OVERFLOW: &'static str = "cannot lay all sections in 64-bit address space";

pub const MSG_OFFSET_TOO_BIG: &'static str = "symbol offset too big";

pub const MSG_BAD_ADDRESS: &'static str = "unexpected symbol offset";

pub const MSG_UNALLOCATED: &'static str = "address from unallocated section cannot be decoded";

/// What the section layout needs to know of one section of an object file.
#[derive(Clone, Copy, Debug, PartialEq, Eq, Structural)]
pub struct SectionInfo {
    /// The section's index in the object file.
    pub index: usize,
    /// Whether the section occupies memory at run time (`SHF_ALLOC`).
    pub alloc: bool,
    pub size: u64,
    pub align: u64,
}

/// The smallest multiple of `align` that is at least `x`, if `align` is not 0 and it fits.
pub open spec fn next_multiple_spec(x: u64, align: u64) -> Option<u64> {
    if align == 0 {
        None
    } else {
        let r: int = if x % align == 0 {
            x as int
        } else {
            x + (align - x % align)
        };
        if r > u64::MAX {
            None
        } else {
            Some(r as u64)
        }
    }
}

/// `x.checked_next_multiple_of(align)`.
pub fn next_multiple_of(x: u64, align: u64) -> (r: Option<u64>)
    ensures
        r == next_multiple_spec(x, align),
{
    if align == 0 {
        return None;
    }
    let rem = x % align;
    if rem == 0 {
        Some(x)
    } else {
        x.checked_add(align - rem)
    }
}

/// The largest section index, 0 when there is no section.
pub open spec fn max_index(s: Seq<SectionInfo>) -> nat
    decreases s.len(),
{
    if s.len() == 0 {
        0
    } else {
        let m = max_index(s.drop_last());
        if s.last().index > m {
            s.last().index as nat
        } else {
            m
        }
    }
}

/// The size of the largest section that is not allocated, 0 when there is none: the space
/// that such sections share at address 0.
pub open spec fn max_unalloc_size(s: Seq<SectionInfo>) -> nat
    decreases s.len(),
{
    if s.len() == 0 {
        0
    } else {
        let m = max_unalloc_size(s.drop_last());
        if !s.last().alloc && s.last().size > m {
            s.last().size as nat
        } else {
            m
        }
    }
}

/// Places the sections one after the other: an unallocated section at address 0, an allocated
/// one at the next address aligned for it, followed by a gap. `None` when an address overflows.
pub open spec fn lay_out(
    sections: Seq<SectionInfo>,
    forward: Seq<(u64, u64)>,
    reverse: Seq<(u64, usize)>,
    allocated: u64,
) -> Option<(Seq<(u64, u64)>, Seq<(u64, usize)>, u64)>
    decreases sections.len(),
{
    if sections.len() == 0 {
        Some((forward, reverse, allocated))
    } else {
        let s = sections[0];
        if !s.alloc {
            lay_out(sections.drop_first(), forward.update(s.index as int, (0u64, s.size)), reverse, allocated)
        } else {
            match next_multiple_spec(allocated, s.align) {
                None => None,
                Some(a) => if a + s.size + SECTION_GAP > u64::MAX {
                    None
                } else {
                    lay_out(
                        sections.drop_first(),
                        forward.update(s.index as int, (a, s.size)),
                        reverse.push((a, s.index)),
                        (a + s.size + SECTION_GAP) as u64,
                    )
                },
            }
        }
    }
}

/// The layout of `sections`: for each section index its `(address, size)`, and the allocated
/// sections as `(address, index)` in address order; `None` when they do not fit below
/// `i64::MAX`.
pub open spec fn for_sections_spec(sections: Seq<SectionInfo>) -> Option<
    (Seq<(u64, u64)>, Seq<(u64, usize)>),
> {
    let m = max_unalloc_size(sections);
    if m + SECTION_GAP > u64::MAX {
        None
    } else {
        match lay_out(
            sections,
            Seq::new(max_index(sections) + 1, |i: int| (0u64, 0u64)),
            Seq::empty(),
            (m + SECTION_GAP) as u64,
        ) {
            None => None,
            Some((f, r, a)) => if a + SECTION_GAP > i64::MAX {
                None
            } else {
                Some((f, r))
            },
        }
    }
}

/// The forward map that `lay_out` yields.
spec fn out_f(sections: Seq<SectionInfo>, forward: Seq<(u64, u64)>, reverse: Seq<(u64, usize)>, allocated: u64) -> Seq<(u64, u64)> {
    lay_out(sections, forward, reverse, allocated).unwrap().0
}

/// The reverse map that `lay_out` yields.
spec fn out_r(sections: Seq<SectionInfo>, forward: Seq<(u64, u64)>, reverse: Seq<(u64, usize)>, allocated: u64) -> Seq<(u64, usize)> {
    lay_out(sections, forward, reverse, allocated).unwrap().1
}

/// Where `lay_out` puts each of `sections`, given the maps built so far.
#[verifier::spinoff_prover]
#[verifier::rlimit(100)]
proof fn lemma_lay_out_places(
    sections: Seq<SectionInfo>,
    forward: Seq<(u64, u64)>,
    reverse: Seq<(u64, usize)>,
    allocated: u64,
)
    requires
        alloc_distinct(sections),
        forall|i: int| 0 <= i < sections.len() ==> (#[trigger] sections[i]).index < forward.len(),
        lay_out(sections, forward, reverse, allocated) is Some,
    ensures
        out_f(sections, forward, reverse, allocated).len() == forward.len(),
        forall|x: int|
            0 <= x < forward.len() && (forall|i: int| 0 <= i < sections.len() ==> (#[trigger] sections[i]).index != x)
                ==> #[trigger] out_f(sections, forward, reverse, allocated)[x] == forward[x],
        out_r(sections, forward, reverse, allocated).len() >= reverse.len(),
        forall|k: int| 0 <= k < reverse.len() ==> #[trigger] out_r(sections, forward, reverse, allocated)[k] == reverse[k],
        forall|i: int|
            0 <= i < sections.len() && (#[trigger] sections[i]).alloc ==> {
                let f = out_f(sections, forward, reverse, allocated);
                let r = out_r(sections, forward, reverse, allocated);
                &&& f[sections[i].index as int].1 == sections[i].size
                &&& f[sections[i].index as int].0 % sections[i].align == 0
                &&& f[sections[i].index as int].0 >= allocated
                &&& exists|k: int|
                    reverse.len() <= k < r.len() && #[trigger] r[k] == (f[sections[i].index as int].0, sections[i].index)
            },
        forall|i: int|
            0 <= i < sections.len() && !(#[trigger] sections[i]).alloc ==> {
                &&& out_f(sections, forward, reverse, allocated)[sections[i].index as int].0 == 0
                &&& (forall|j: int| 0 <= j < sections.len() && j != i ==> sections[j].index != sections[i].index)
                    ==> out_f(sections, forward, reverse, allocated)[sections[i].index as int].1 == sections[i].size
            },
        forall|k: int|
            reverse.len() <= k < out_r(sections, forward, reverse, allocated).len() ==> exists|i: int|
                0 <= i < sections.len() && (#[trigger] sections[i]).alloc && sections[i].index
                    == (#[trigger] out_r(sections, forward, reverse, allocated)[k]).1,
    decreases sections.len(),
{
    if sections.len() > 0 {
        let s = sections[0];
        let rest = sections.drop_first();
        assert forall|i: int, j: int|
            0 <= i < rest.len() && 0 <= j < rest.len() && i != j && (#[trigger] rest[i]).alloc implies rest[i].index
            != (#[trigger] rest[j]).index by {
            assert(rest[i] == sections[i + 1] && rest[j] == sections[j + 1]);
        }
        assert forall|i: int| 0 <= i < rest.len() implies (#[trigger] rest[i]).index < forward.len() by {
            assert(rest[i] == sections[i + 1]);
        }
        let f = out_f(sections, forward, reverse, allocated);
        let r = out_r(sections, forward, reverse, allocated);
        if !s.alloc {
            let fw2 = forward.update(s.index as int, (0u64, s.size));
            assert(lay_out(sections, forward, reverse, allocated) == lay_out(rest, fw2, reverse, allocated));
            lemma_lay_out_places(rest, fw2, reverse, allocated);
            assert forall|i: int| 0 <= i < sections.len() && (#[trigger] sections[i]).alloc implies {
                &&& f[sections[i].index as int].1 == sections[i].size
                &&& f[sections[i].index as int].0 % sections[i].align == 0
                &&& f[sections[i].index as int].0 >= allocated
                &&& exists|k: int|
                    reverse.len() <= k < r.len() && #[trigger] r[k] == (
                        f[sections[i].index as int].0,
                        sections[i].index,
                    )
            } by {
                assert(i > 0);
                assert(rest[i - 1] == sections[i]);
            }
            assert forall|i: int| 0 <= i < sections.len() && !(#[trigger] sections[i]).alloc implies {
                &&& f[sections[i].index as int].0 == 0
                &&& (forall|j: int| 0 <= j < sections.len() && j != i ==> sections[j].index != sections[i].index)
                    ==> f[sections[i].index as int].1 == sections[i].size
            } by {
                if i > 0 {
                    assert(rest[i - 1] == sections[i]);
                    if forall|j: int| 0 <= j < sections.len() && j != i ==> sections[j].index != sections[i].index {
                        assert forall|j: int| 0 <= j < rest.len() && j != i - 1 implies (#[trigger] rest[j]).index != rest[i - 1].index by {
                            assert(rest[j] == sections[j + 1]);
                        }
                    }
                } else if exists|j: int| 0 <= j < rest.len() && (#[trigger] rest[j]).index == s.index {
                    let j = choose|j: int| 0 <= j < rest.len() && (#[trigger] rest[j]).index == s.index;
                    assert(rest[j] == sections[j + 1]);
                    assert(!rest[j].alloc);
                    assert(sections[j + 1].index == sections[0].index);
                } else {
                    assert(f[s.index as int] == fw2[s.index as int]);
                }
            }
            assert forall|k: int| reverse.len() <= k < r.len() implies exists|i: int|
                0 <= i < sections.len() && (#[trigger] sections[i]).alloc && sections[i].index
                    == (#[trigger] r[k]).1 by {
                assert(out_r(rest, fw2, reverse, allocated) == r);
                assert(reverse.len() <= k < out_r(rest, fw2, reverse, allocated).len());
                let rk = out_r(rest, fw2, reverse, allocated)[k];
                let i2 = choose|i: int| 0 <= i < rest.len() && (#[trigger] rest[i]).alloc && rest[i].index == rk.1;
                assert(sections[i2 + 1] == rest[i2]);
                assert(0 <= i2 + 1 < sections.len() && sections[i2 + 1].alloc && sections[i2 + 1].index == r[k].1);
            }
            assert forall|x: int|
                0 <= x < forward.len() && (forall|i: int| 0 <= i < sections.len() ==> (#[trigger] sections[i]).index != x)
                    implies #[trigger] f[x] == forward[x] by {
                assert(sections[0].index != x);
                assert forall|i: int| 0 <= i < rest.len() implies (#[trigger] rest[i]).index != x by {
                    assert(rest[i] == sections[i + 1]);
                }
            }
        } else {
            let ad = next_multiple_spec(allocated, s.align).unwrap();
            lemma_next_multiple_ge(allocated, s.align);
            let fw2 = forward.update(s.index as int, (ad, s.size));
            let rv2 = reverse.push((ad, s.index));
            let al2 = (ad + s.size + SECTION_GAP) as u64;
            assert(lay_out(sections, forward, reverse, allocated) == lay_out(rest, fw2, rv2, al2));
            lemma_lay_out_places(rest, fw2, rv2, al2);
            assert forall|i: int| 0 <= i < rest.len() implies (#[trigger] rest[i]).index != s.index by {
                assert(rest[i] == sections[i + 1]);
                assert(sections[0].alloc);
                assert(sections[0].index != sections[i + 1].index);
            }
            assert(f[s.index as int] == fw2[s.index as int]);
            assert(r[reverse.len() as int] == rv2[reverse.len() as int]);
            assert forall|i: int| 0 <= i < sections.len() && (#[trigger] sections[i]).alloc implies {
                &&& f[sections[i].index as int].1 == sections[i].size
                &&& f[sections[i].index as int].0 % sections[i].align == 0
                &&& f[sections[i].index as int].0 >= allocated
                &&& exists|k: int|
                    reverse.len() <= k < r.len() && #[trigger] r[k] == (
                        f[sections[i].index as int].0,
                        sections[i].index,
                    )
            } by {
                if i == 0 {
                    assert(r[reverse.len() as int] == (f[sections[i].index as int].0, sections[i].index));
                } else {
                    assert(rest[i - 1] == sections[i]);
                }
            }
            assert forall|i: int| 0 <= i < sections.len() && !(#[trigger] sections[i]).alloc implies {
                &&& f[sections[i].index as int].0 == 0
                &&& (forall|j: int| 0 <= j < sections.len() && j != i ==> sections[j].index != sections[i].index)
                    ==> f[sections[i].index as int].1 == sections[i].size
            } by {
                assert(i > 0);
                assert(rest[i - 1] == sections[i]);
                if forall|j: int| 0 <= j < sections.len() && j != i ==> sections[j].index != sections[i].index {
                    assert forall|j: int| 0 <= j < rest.len() && j != i - 1 implies (#[trigger] rest[j]).index != rest[i - 1].index by {
                        assert(rest[j] == sections[j + 1]);
                    }
                }
            }
            assert forall|k: int| reverse.len() <= k < r.len() implies exists|i: int|
                0 <= i < sections.len() && (#[trigger] sections[i]).alloc && sections[i].index
                    == (#[trigger] r[k]).1 by {
                if k == reverse.len() {
                    assert(sections[0].alloc && sections[0].index == r[k].1);
                } else {
                    assert(out_r(rest, fw2, rv2, al2) == r);
                    assert(rv2.len() <= k < out_r(rest, fw2, rv2, al2).len());
                    let rk = out_r(rest, fw2, rv2, al2)[k];
                    let i2 = choose|i: int| 0 <= i < rest.len() && (#[trigger] rest[i]).alloc && rest[i].index == rk.1;
                    assert(sections[i2 + 1] == rest[i2]);
                    assert(0 <= i2 + 1 < sections.len() && sections[i2 + 1].alloc && sections[i2 + 1].index == r[k].1);
                }
            }
            assert forall|x: int|
                0 <= x < forward.len() && (forall|i: int| 0 <= i < sections.len() ==> (#[trigger] sections[i]).index != x)
                    implies #[trigger] f[x] == forward[x] by {
                assert(sections[0].index != x);
                assert forall|i: int| 0 <= i < rest.len() implies (#[trigger] rest[i]).index != x by {
                    assert(rest[i] == sections[i + 1]);
                }
            }
            assert forall|k: int| 0 <= k < reverse.len() implies #[trigger] r[k] == reverse[k] by {
                assert(rv2[k] == reverse[k]);
            }
        }
        assert forall|k: int| reverse.len() <= k < out_r(sections, forward, reverse, allocated).len() implies exists|i: int|
            0 <= i < sections.len() && (#[trigger] sections[i]).alloc && sections[i].index
                == (#[trigger] out_r(sections, forward, reverse, allocated)[k]).1 by {
            assert(r[k] == out_r(sections, forward, reverse, allocated)[k]);
            assert(exists|i: int| 0 <= i < sections.len() && (#[trigger] sections[i]).alloc && sections[i].index == (#[trigger] r[k]).1);
        }
    }
}

/// Where a layout `(f, r)` puts each of `sections`: an allocated section at an address that
/// is a multiple of its alignment, past the region at address 0 that the largest unallocated
/// section needs and one gap more, with its size, and listed in the reverse map at that
/// address; any other section at address 0 (with its size, when no other section shares its
/// index), and absent from the reverse map, which lists allocated sections only.
pub open spec fn places_sections(sections: Seq<SectionInfo>, f: Seq<(u64, u64)>, r: Seq<(u64, usize)>) -> bool {
    &&& forall|i: int|
        0 <= i < sections.len() && (#[trigger] sections[i]).alloc ==> {
            &&& f[sections[i].index as int].1 == sections[i].size
            &&& f[sections[i].index as int].0 % sections[i].align == 0
            &&& f[sections[i].index as int].0 >= max_unalloc_size(sections) + SECTION_GAP
            &&& exists|k: int| 0 <= k < r.len() && #[trigger] r[k] == (f[sections[i].index as int].0, sections[i].index)
        }
    &&& forall|i: int|
        0 <= i < sections.len() && !(#[trigger] sections[i]).alloc ==> {
            &&& f[sections[i].index as int].0 == 0
            &&& (forall|j: int| 0 <= j < sections.len() && j != i ==> sections[j].index != sections[i].index)
                ==> f[sections[i].index as int].1 == sections[i].size
            &&& forall|k: int| 0 <= k < r.len() ==> (#[trigger] r[k]).1 != sections[i].index
        }
    &&& forall|k: int|
        0 <= k < r.len() ==> exists|i: int|
            0 <= i < sections.len() && (#[trigger] sections[i]).alloc && sections[i].index == (#[trigger] r[k]).1
}

/// The layout of an object file's sections puts each of them where `places_sections` says.
#[verifier::spinoff_prover]
#[verifier::rlimit(100)]
pub proof fn lemma_layout_places_sections(sections: Seq<SectionInfo>)
    requires
        alloc_distinct(sections),
        for_sections_spec(sections) is Some,
    ensures
        places_sections(sections, for_sections_spec(sections).unwrap().0, for_sections_spec(sections).unwrap().1),
{
    let m = max_unalloc_size(sections);
    let init = Seq::new(max_index(sections) + 1, |i: int| (0u64, 0u64));
    assert forall|i: int| 0 <= i < sections.len() implies (#[trigger] sections[i]).index < init.len() by {
        lemma_index_bound(sections, i);
    }
    lemma_lay_out_places(sections, init, Seq::empty(), (m + SECTION_GAP) as u64);
    let (f, r) = for_sections_spec(sections).unwrap();
    let (f2, r2, a2) = lay_out(sections, init, Seq::empty(), (m + SECTION_GAP) as u64).unwrap();
    assert(f == f2 && r == r2);
    assert forall|i: int| 0 <= i < sections.len() && (#[trigger] sections[i]).alloc implies {
        &&& f[sections[i].index as int].1 == sections[i].size
        &&& f[sections[i].index as int].0 % sections[i].align == 0
        &&& f[sections[i].index as int].0 >= max_unalloc_size(sections) + SECTION_GAP
        &&& exists|k: int| 0 <= k < r.len() && #[trigger] r[k] == (f[sections[i].index as int].0, sections[i].index)
    } by {
        assert(f2[sections[i].index as int].0 >= m + SECTION_GAP);
    }
    assert forall|k: int| 0 <= k < r.len() implies exists|i: int|
        0 <= i < sections.len() && (#[trigger] sections[i]).alloc && sections[i].index == (#[trigger] r[k]).1 by {
        assert(r2[k] == r[k]);
    }
    assert forall|i: int| 0 <= i < sections.len() && !(#[trigger] sections[i]).alloc implies {
        &&& f[sections[i].index as int].0 == 0
        &&& (forall|j: int| 0 <= j < sections.len() && j != i ==> sections[j].index != sections[i].index)
            ==> f[sections[i].index as int].1 == sections[i].size
        &&& forall|k: int| 0 <= k < r.len() ==> (#[trigger] r[k]).1 != sections[i].index
    } by {
        assert forall|k: int| 0 <= k < r.len() implies (#[trigger] r[k]).1 != sections[i].index by {
            assert(r2[k] == r[k]);
            let j = choose|j: int| 0 <= j < sections.len() && (#[trigger] sections[j]).alloc && sections[j].index == r[k].1;
            assert(j != i);
            assert(sections[j].index != sections[i].index);
        }
    }
    assert(places_sections(sections, f, r));
    assert(f == for_sections_spec(sections).unwrap().0);
}

/// No two sections share an index, as in any object file.
pub open spec fn distinct_indices(s: Seq<SectionInfo>) -> bool {
    forall|i: int, j: int| 0 <= i < s.len() && 0 <= j < s.len() && i != j ==> s[i].index != s[j].index
}

/// Every allocated section has an index that no other section has.
pub open spec fn alloc_distinct(s: Seq<SectionInfo>) -> bool {
    forall|i: int, j: int|
        0 <= i < s.len() && 0 <= j < s.len() && i != j && (#[trigger] s[i]).alloc ==> s[i].index != (#[trigger] s[j]).index
}

/// `v` taken modulo 2^64, for `v` within one turn of the `u64` range.
pub open spec fn wrap_u64(v: int) -> int {
    if v > u64::MAX {
        v - 0x1_0000_0000_0000_0000
    } else if v < 0 {
        v + 0x1_0000_0000_0000_0000
    } else {
        v
    }
}

/// `v` as a two's-complement `i64`, for `v` within one turn of the `i64` range.
pub open spec fn wrap_i64(v: int) -> int {
    if v > i64::MAX {
        v - 0x1_0000_0000_0000_0000
    } else if v < i64::MIN {
        v + 0x1_0000_0000_0000_0000
    } else {
        v
    }
}

/// Where allocated sections lie in the flat address space, and back.
pub struct SectionLayout {
    forward_map: Vec<(u64, u64)>,
    reverse_map: Vec<(u64, usize)>,
}

/// The last entry whose address is below `bound`.
pub open spec fn last_below(r: Seq<(u64, usize)>, bound: int) -> Option<int>
    decreases r.len(),
{
    if r.len() == 0 {
        None
    } else if r.last().0 < bound {
        Some(r.len() - 1)
    } else {
        last_below(r.drop_last(), bound)
    }
}

impl SectionLayout {
    /// For each section index, the section's `(address, size)`.
    pub closed spec fn forward(self) -> Seq<(u64, u64)> {
        self.forward_map@
    }

    /// The allocated sections as `(address, index)`, in address order.
    pub closed spec fn reverse(self) -> Seq<(u64, usize)> {
        self.reverse_map@
    }

    /// The allocated sections are known by index, start at least one gap into the address space,
    /// follow one another at least one gap apart, and end well below `i64::MAX`.
    pub open spec fn wf(self) -> bool {
        let f = self.forward();
        let r = self.reverse();
        &&& forall|k: int|
            0 <= k < r.len() ==> {
                &&& (#[trigger] r[k]).1 < f.len()
                &&& f[r[k].1 as int].0 == r[k].0
                &&& r[k].0 >= SECTION_GAP
                &&& r[k].0 + f[r[k].1 as int].1 + 2 * SECTION_GAP <= i64::MAX
            }
        &&& forall|j: int, k: int|
            0 <= j < k < r.len() ==> #[trigger] r[j].0 + f[r[j].1 as int].1 + SECTION_GAP
                <= #[trigger] r[k].0
    }

    /// `address` of a symbol at `offset` from the start of section `section`.
    pub open spec fn encode_spec(self, section: usize, offset: i64) -> Result<u64, DwarfError> {
        let (address, size) = self.forward()[section as int];
        let limit = wrap_i64(size + HALF_GAP);
        if offset < -(HALF_GAP as int) || offset > limit {
            Err(DwarfError::UnexpectedElf(MSG_OFFSET_TOO_BIG))
        } else {
            Ok(wrap_u64(address + offset) as u64)
        }
    }

    /// The section and offset that `address` encodes.
    pub open spec fn decode_spec(self, address: u64) -> Result<(usize, i64), DwarfError> {
        if address + HALF_GAP > u64::MAX {
            Err(DwarfError::UnexpectedElf(MSG_BAD_ADDRESS))
        } else {
            match last_below(self.reverse(), address + HALF_GAP) {
                None => Err(DwarfError::UnexpectedElf(MSG_UNALLOCATED)),
                Some(k) => Ok(
                    (self.reverse()[k].1, wrap_i64(address - self.reverse()[k].0) as i64),
                ),
            }
        }
    }

    /// Decoding `address` finds a section but an offset that the section cannot encode back;
    /// `decode` asserts that this does not happen.
    pub open spec fn decode_panics(self, address: u64) -> bool {
        match self.decode_spec(address) {
            Ok((section, offset)) => self.encode_spec(section, offset) is Err,
            Err(_) => false,
        }
    }

    /// Lays out the sections of an object file; `sections` lists them in the order the object
    /// file lists them.
    pub fn for_sections(sections: &Vec<SectionInfo>) -> (res: Result<Self, DwarfError>)
        requires
            forall|i: int| 0 <= i < sections@.len() ==> (#[trigger] sections@[i]).index < usize::MAX,
        ensures
            match for_sections_spec(sections@) {
                None => res == Err::<Self, DwarfError>(DwarfError::UnexpectedElf(MSG_LAYOUT_OVERFLOW)),
                Some((f, r)) => res matches Ok(l) && l.forward() == f && l.reverse() == r,
            },
            alloc_distinct(sections@) ==> (res matches Ok(l) ==> l.wf()),
    {
        let n = sections.len();
        let mut max_idx: usize = 0;
        let mut max_size: u64 = 0;
        let mut i: usize = 0;
        while i < n
            invariant
                n == sections@.len(),
                i <= n,
                max_idx == max_index(sections@.take(i as int)),
                max_size == max_unalloc_size(sections@.take(i as int)),
            decreases n - i,
        {
            assert(sections@.take(i + 1).drop_last() =~= sections@.take(i as int));
            let s = sections[i];
            if s.index > max_idx {
                max_idx = s.index;
            }
            if !s.alloc && s.size > max_size {
                max_size = s.size;
            }
            i = i + 1;
        }
        assert(sections@.take(n as int) =~= sections@);
        proof {
            lemma_max_index_bound(sections@);
        }
        let section_count = max_idx + 1;

        let mut allocated = match max_size.checked_add(SECTION_GAP) {
            Some(a) => a,
            None => {
                return Err(DwarfError::UnexpectedElf(MSG_LAYOUT_OVERFLOW));
            },
        };

        let mut forward_map: Vec<(u64, u64)> = Vec::new();
        let mut j: usize = 0;
        while j < section_count
            invariant
                j <= section_count,
                forward_map@ =~= Seq::new(j as nat, |i: int| (0u64, 0u64)),
            decreases section_count - j,
        {
            forward_map.push((0, 0));
            j = j + 1;
        }
        let mut reverse_map: Vec<(u64, usize)> = Vec::new();
        let ghost init_f = forward_map@;
        assert(init_f =~= Seq::new(max_index(sections@) + 1, |i: int| (0u64, 0u64)));
        let ghost init_a = allocated;
        let ghost mut origin: Seq<int> = Seq::empty();

        let mut i: usize = 0;
        assert(sections@.skip(0) =~= sections@);
        while i < n
            invariant
                n == sections@.len(),
                i <= n,
                forall|t: int| 0 <= t < n ==> (#[trigger] sections@[t]).index < usize::MAX,
                section_count == max_index(sections@) + 1,
                forward_map@.len() == section_count,
                init_f == Seq::new(max_index(sections@) + 1, |i: int| (0u64, 0u64)),
                init_a == max_unalloc_size(sections@) + SECTION_GAP,
                lay_out(sections@.skip(i as int), forward_map@, reverse_map@, allocated) == lay_out(
                    sections@,
                    init_f,
                    Seq::empty(),
                    init_a,
                ),
                allocated >= SECTION_GAP,
                origin.len() == reverse_map@.len(),
                forall|k: int|
                    0 <= k < reverse_map@.len() ==> {
                        &&& 0 <= #[trigger] origin[k] < i
                        &&& sections@[origin[k]].index == reverse_map@[k].1
                        &&& sections@[origin[k]].alloc
                        &&& (reverse_map@[k]).1 < section_count
                        &&& reverse_map@[k].0 >= SECTION_GAP
                        &&& reverse_map@[k].0 + sections@[origin[k]].size + SECTION_GAP <= allocated
                    },
                forall|j: int, k: int|
                    0 <= j < k < reverse_map@.len() ==> #[trigger] reverse_map@[j].0 + sections@[origin[j]].size
                        + SECTION_GAP <= #[trigger] reverse_map@[k].0,
                alloc_distinct(sections@) ==> forall|k: int|
                    0 <= k < reverse_map@.len() ==> forward_map@[(#[trigger] reverse_map@[k]).1 as int] == (
                    reverse_map@[k].0,
                    sections@[origin[k]].size,
                ),
            decreases n - i,
        {
            proof {
                lemma_index_bound(sections@, i as int);
            }
            assert(sections@.skip(i as int).drop_first() =~= sections@.skip(i + 1));
            assert(sections@.skip(i as int)[0] == sections@[i as int]);
            let s = sections[i];
            if !s.alloc {
                forward_map.set(s.index, (0, s.size));
                i = i + 1;
                continue;
            }
            let address = match next_multiple_of(allocated, s.align) {
                Some(a) => a,
                None => {
                    assert(lay_out(sections@.skip(i as int), forward_map@, reverse_map@, allocated)
                        is None);
                    return Err(DwarfError::UnexpectedElf(MSG_LAYOUT_OVERFLOW));
                },
            };
            assert(address >= allocated) by {
                lemma_next_multiple_ge(allocated, s.align);
            }
            forward_map.set(s.index, (address, s.size));
            let ghost k_new = reverse_map@.len();
            reverse_map.push((address, s.index));
            proof {
                origin = origin.push(i as int);
            }
            let end = match address.checked_add(s.size) {
                Some(e) => e,
                None => {
                    return Err(DwarfError::UnexpectedElf(MSG_LAYOUT_OVERFLOW));
                },
            };
            allocated = match end.checked_add(SECTION_GAP) {
                Some(a) => a,
                None => {
                    assert(address + s.size + SECTION_GAP > u64::MAX);
                    return Err(DwarfError::UnexpectedElf(MSG_LAYOUT_OVERFLOW));
                },
            };
            i = i + 1;
        }
        assert(sections@.skip(n as int) =~= Seq::<SectionInfo>::empty());
        match allocated.checked_add(SECTION_GAP) {
            Some(a) => if a > 0x7fff_ffff_ffff_ffffu64 {
                return Err(DwarfError::UnexpectedElf(MSG_LAYOUT_OVERFLOW));
            },
            None => {
                return Err(DwarfError::UnexpectedElf(MSG_LAYOUT_OVERFLOW));
            },
        }
        Ok(SectionLayout { forward_map, reverse_map })
    }
}

impl SectionLayout {
    /// The address of a symbol at `offset` from the start of section `section`; offsets may
    /// reach half a gap outside the section.
    pub fn encode(&self, section: usize, offset: i64) -> (res: Result<u64, DwarfError>)
        requires
            section < self.forward().len(),
            self.forward()[section as int].1 + HALF_GAP <= u64::MAX,
        ensures
            res == self.encode_spec(section, offset),
    {
        let (address, size) = self.forward_map[section];
        let limit_u = size + HALF_GAP;
        let limit: i64 = if limit_u <= 0x7fff_ffff_ffff_ffffu64 {
            limit_u as i64
        } else {
            ((limit_u - 0x8000_0000_0000_0000u64) as i64) + i64::MIN
        };
        if offset < -32768i64 || offset > limit {
            return Err(DwarfError::UnexpectedElf(MSG_OFFSET_TOO_BIG));
        }
        Ok(address.wrapping_add_signed(offset))
    }

    /// The section and offset that `address` encodes: the allocated section that starts last
    /// below `address + HALF_GAP`.
    pub fn decode(&self, address: u64) -> (res: Result<(usize, i64), DwarfError>)
        requires
            self.wf(),
            !self.decode_panics(address),
        ensures
            res == self.decode_spec(address),
            res matches Ok((s, o)) ==> self.encode_spec(s, o) == Ok::<u64, DwarfError>(address),
    {
        let bound = match address.checked_add(HALF_GAP) {
            Some(b) => b,
            None => {
                return Err(DwarfError::UnexpectedElf(MSG_BAD_ADDRESS));
            },
        };
        let ghost r = self.reverse();
        let mut k = self.reverse_map.len();
        assert(r.take(k as int) =~= r);
        while k > 0
            invariant
                self.wf(),
                bound == address + HALF_GAP,
                r == self.reverse(),
                k <= r.len(),
                last_below(r, bound as int) == last_below(r.take(k as int), bound as int),
                !self.decode_panics(address),
            decreases k,
        {
            let (start, index) = self.reverse_map[k - 1];
            if start < bound {
                proof {
                    assert(r.take(k as int).last() == r[k - 1]);
                    assert(last_below(r, bound as int) == Some(k - 1));
                    assert(r[k - 1].1 < self.forward().len());
                    assert(r[k - 1].0 + self.forward()[r[k - 1].1 as int].1 + 2 * SECTION_GAP
                        <= i64::MAX);
                }
                let d: i128 = address as i128 - start as i128;
                let offset: i64 = if d > 0x7fff_ffff_ffff_ffffi128 {
                    (d - 0x1_0000_0000_0000_0000i128) as i64
                } else {
                    d as i64
                };
                assert(self.reverse()[k - 1] == r[k - 1]);
                return Ok((index, offset));
            }
            assert(r.take(k as int).drop_last() =~= r.take(k - 1));
            k = k - 1;
        }
        Err(DwarfError::UnexpectedElf(MSG_UNALLOCATED))
    }

    /// Whether `decode(address)` would fail its internal consistency assertion.
    pub fn decode_would_panic(&self, address: u64) -> (b: bool)
        requires
            self.wf(),
        ensures
            b == self.decode_panics(address),
    {
        let bound = match address.checked_add(HALF_GAP) {
            Some(b) => b,
            None => {
                return false;
            },
        };
        let ghost r = self.reverse();
        let mut k = self.reverse_map.len();
        assert(r.take(k as int) =~= r);
        while k > 0
            invariant
                self.wf(),
                bound == address + HALF_GAP,
                r == self.reverse(),
                k <= r.len(),
                last_below(r, bound as int) == last_below(r.take(k as int), bound as int),
            decreases k,
        {
            let (start, index) = self.reverse_map[k - 1];
            if start < bound {
                proof {
                    assert(r.take(k as int).last() == r[k - 1]);
                    assert(last_below(r, bound as int) == Some(k - 1));
                    assert(r[k - 1].1 < self.forward().len());
                    assert(r[k - 1].0 + self.forward()[r[k - 1].1 as int].1 + 2 * SECTION_GAP
                        <= i64::MAX);
                }
                let d: i128 = address as i128 - start as i128;
                let offset: i64 = if d > 0x7fff_ffff_ffff_ffffi128 {
                    (d - 0x1_0000_0000_0000_0000i128) as i64
                } else {
                    d as i64
                };
                assert(self.reverse()[k - 1] == r[k - 1]);
                return self.encode(index, offset).is_err();
            }
            assert(r.take(k as int).drop_last() =~= r.take(k - 1));
            k = k - 1;
        }
        false
    }
}

/// `last_below` finds entry `k` when it lies below the bound and every later entry does not.
proof fn lemma_last_below_found(r: Seq<(u64, usize)>, bound: int, k: int)
    requires
        0 <= k < r.len(),
        r[k].0 < bound,
        forall|j: int| k < j < r.len() ==> r[j].0 >= bound,
    ensures
        last_below(r, bound) == Some(k),
    decreases r.len(),
{
    if k < r.len() - 1 {
        lemma_last_below_found(r.drop_last(), bound, k);
    }
}

/// `last_below` gives an entry below the bound, or none at all.
proof fn lemma_last_below_range(r: Seq<(u64, usize)>, bound: int)
    ensures
        last_below(r, bound) matches Some(k) ==> 0 <= k < r.len() && r[k].0 < bound,
    decreases r.len(),
{
    if r.len() > 0 {
        lemma_last_below_range(r.drop_last(), bound);
    }
}

/// Decoding undoes encoding: an offset into an allocated section, up to half a gap past its
/// end and less than half a gap before its start, encodes to an address that decodes back to
/// the same section and offset.
pub proof fn lemma_decode_encode_roundtrip(l: SectionLayout, k: int, offset: i64)
    requires
        l.wf(),
        0 <= k < l.reverse().len(),
        -(HALF_GAP as int) < offset <= l.forward()[l.reverse()[k].1 as int].1 + HALF_GAP,
    ensures
        l.encode_spec(l.reverse()[k].1, offset) == Ok::<u64, DwarfError>(
            (l.reverse()[k].0 + offset) as u64,
        ),
        l.decode_spec((l.reverse()[k].0 + offset) as u64) == Ok::<(usize, i64), DwarfError>(
            (l.reverse()[k].1, offset),
        ),
        !l.decode_panics((l.reverse()[k].0 + offset) as u64),
{
    let r = l.reverse();
    let f = l.forward();
    let start = r[k].0;
    let a: int = start + offset;
    assert(r[k].1 < f.len() && f[r[k].1 as int].0 == start);
    assert forall|j: int| k < j < r.len() implies r[j].0 >= a + HALF_GAP by {
        assert(r[k].0 + f[r[k].1 as int].1 + SECTION_GAP <= r[j].0);
    }
    lemma_last_below_found(r, a + HALF_GAP, k);
}

/// Distinct places in allocated sections get distinct addresses.
pub proof fn lemma_encode_injective(l: SectionLayout, k1: int, o1: i64, k2: int, o2: i64)
    requires
        l.wf(),
        0 <= k1 < l.reverse().len(),
        0 <= k2 < l.reverse().len(),
        -(HALF_GAP as int) < o1 <= l.forward()[l.reverse()[k1].1 as int].1 + HALF_GAP,
        -(HALF_GAP as int) < o2 <= l.forward()[l.reverse()[k2].1 as int].1 + HALF_GAP,
        l.reverse()[k1].0 + o1 == l.reverse()[k2].0 + o2,
    ensures
        l.reverse()[k1].1 == l.reverse()[k2].1,
        o1 == o2,
{
    lemma_decode_encode_roundtrip(l, k1, o1);
    lemma_decode_encode_roundtrip(l, k2, o2);
}

/// The next multiple of `align` is no smaller than `x`, and is a multiple of `align`.
pub proof fn lemma_next_multiple_ge(x: u64, align: u64)
    ensures
        next_multiple_spec(x, align) matches Some(r) ==> r >= x && r % align == 0,
{
    if align != 0 {
        let m = x % align;
        assert(0 <= m < align) by (nonlinear_arith)
            requires
                m == x % align,
                align > 0,
        ;
        if m != 0 {
            let r: int = x + (align - m);
            assert(r % (align as int) == 0) by (nonlinear_arith)
                requires
                    m == x % align,
                    align > 0,
                    r == x + (align - m),
            {
                vstd::arithmetic::div_mod::lemma_fundamental_div_mod(x as int, align as int);
                vstd::arithmetic::div_mod::lemma_mod_multiples_basic(x / align + 1, align as int);
            }
        }
    }
}

/// The largest section index is an index of some section, or 0.
proof fn lemma_max_index_bound(s: Seq<SectionInfo>)
    requires
        forall|i: int| 0 <= i < s.len() ==> (#[trigger] s[i]).index < usize::MAX,
    ensures
        max_index(s) < usize::MAX,
    decreases s.len(),
{
    if s.len() > 0 {
        lemma_max_index_bound(s.drop_last());
        assert(s.last() == s[s.len() - 1]);
    }
}

/// Every section index is at most the largest one.
proof fn lemma_index_bound(s: Seq<SectionInfo>, i: int)
    requires
        0 <= i < s.len(),
    ensures
        s[i].index <= max_index(s),
    decreases s.len(),
{
    if i < s.len() - 1 {
        lemma_index_bound(s.drop_last(), i);
    }
}



pub const MSG_NON_ABSOLUTE: &'static str = "non-absolute relocation kind found in DWARF section";

pub const MSG_SYMBOL_NOT_FOUND: &'static str = "symbol not found";

pub const MSG_SYMBOL_WITHOUT_SECTION: &'static str = "symbol is not associated with a section";

pub const MSG_ABSOLUTE_TARGET: &'static str = "absolute relocation target found in DWARF section";

pub const MSG_SECTION_NOT_FOUND: &'static str = "section not found";

pub const MSG_NONZERO_SECTION_ADDRESS: &'static str = "section address is non-zero in a relocatable file";

pub const MSG_TRUNCATED: &'static str = "relocation truncated to fit";

pub const MSG_UNKNOWN_SIZE: &'static str = "unknown relocation size";

/// Where a symbol that a relocation targets lies.
#[derive(Clone, Copy, Debug, PartialEq, Eq, Structural)]
pub struct SymbolPlace {
    /// Index of the section that defines the symbol, if any.
    pub section: Option<usize>,
    /// The symbol's address, that is its offset within its section in a relocatable file.
    pub address: u64,
}

/// What a relocation refers to.
#[derive(Clone, Copy, Debug, PartialEq, Eq, Structural)]
pub enum RelocationTarget {
    /// A symbol; `None` when the object file holds no symbol of the given index.
    Symbol(Option<SymbolPlace>),
    /// The start of a section.
    Section(usize),
    /// An absolute address.
    Absolute,
    /// Any other kind of target.
    Other,
}

/// A relocation of a DWARF section, as plain values.
#[derive(Clone, Copy, Debug, PartialEq, Eq, Structural)]
pub struct Relocation {
    /// Offset within the section of the bytes to patch.
    pub offset: u64,
    /// Whether the relocation kind is `Absolute`.
    pub absolute: bool,
    pub target: RelocationTarget,
    pub addend: i64,
    /// Width of the patched field in bits.
    pub size: u8,
    /// Whether the field itself holds an addend to add.
    pub implicit_addend: bool,
    /// The address of the section that the target lies in; `None` when the object file has no
    /// such section.
    pub section_address: Option<u64>,
}

/// The number that little-endian bytes `b` denote.
pub open spec fn le_value(b: Seq<u8>) -> nat
    decreases b.len(),
{
    if b.len() == 0 {
        0
    } else {
        (b[0] as nat) + 256 * le_value(b.drop_first())
    }
}

/// The `n` lowest little-endian bytes of `v`.
pub open spec fn le_bytes(v: nat, n: nat) -> Seq<u8>
    decreases n,
{
    if n == 0 {
        Seq::empty()
    } else {
        seq![(v % 256) as u8] + le_bytes(v / 256, (n - 1) as nat)
    }
}

/// `256^n`.
pub open spec fn pow256(n: nat) -> nat
    decreases n,
{
    if n == 0 {
        1
    } else {
        256 * pow256((n - 1) as nat)
    }
}

/// The two's-complement value of `u` in `bits` bits (`u < 2^bits`).
pub open spec fn signed(u: nat, half: int) -> int {
    if u >= half {
        u - 2 * half
    } else {
        u as int
    }
}

/// The bits of `v` as an unsigned number of the width whose sign bit is `half`.
pub open spec fn unsigned(v: int, half: int) -> nat {
    if v < 0 {
        (v + 2 * half) as nat
    } else {
        v as nat
    }
}

/// `data` with the bytes from `off` on replaced by `bytes`.
pub open spec fn splice(data: Seq<u8>, off: int, bytes: Seq<u8>) -> Seq<u8> {
    data.subrange(0, off) + bytes + data.subrange(off + bytes.len(), data.len() as int)
}

/// The section and offset within it that a relocation refers to.
pub open spec fn target_spec(r: Relocation) -> Result<(usize, u64), DwarfError> {
    match r.target {
        RelocationTarget::Symbol(None) => Err(DwarfError::UnexpectedElf(MSG_SYMBOL_NOT_FOUND)),
        RelocationTarget::Symbol(Some(p)) => match p.section {
            None => Err(DwarfError::UnexpectedElf(MSG_SYMBOL_WITHOUT_SECTION)),
            Some(i) => Ok((i, p.address)),
        },
        RelocationTarget::Section(i) => Ok((i, 0)),
        _ => Err(DwarfError::UnexpectedElf(MSG_ABSOLUTE_TARGET)),
    }
}

/// One relocation applied to `data`: `None` where indexing into the section would go out of
/// range or the arithmetic would overflow, else the patched bytes or the error.
pub open spec fn relocation_step_spec(data: Seq<u8>, r: Relocation, layout: SectionLayout) -> Option<Result<Seq<u8>, DwarfError>> {
    if !r.absolute {
        Some(Err(DwarfError::UnexpectedElf(MSG_NON_ABSOLUTE)))
    } else {
        match target_spec(r) {
            Err(e) => Some(Err(e)),
            Ok((si, sym_off)) => if r.section_address is None {
                Some(Err(DwarfError::UnexpectedElf(MSG_SECTION_NOT_FOUND)))
            } else if r.section_address.unwrap() != 0 {
                Some(Err(DwarfError::UnexpectedElf(MSG_NONZERO_SECTION_ADDRESS)))
            } else if si >= layout.forward().len() || layout.forward()[si as int].1 + HALF_GAP
                > u64::MAX {
                None
            } else {
                match layout.encode_spec(si, wrap_i64(sym_off as int) as i64) {
                    Err(e) => Some(Err(e)),
                    Ok(address) => {
                        let value = wrap_i64(r.addend + wrap_i64(address as int));
                        let off = r.offset as int;
                        if r.size == 32 {
                            let fits = off + 4 <= data.len();
                            if r.implicit_addend && !fits {
                                None
                            } else {
                                let addend = if r.implicit_addend {
                                    signed(le_value(data.subrange(off, off + 4)), 0x8000_0000)
                                } else {
                                    0
                                };
                                let v = wrap_i64(value + addend);
                                if v < i32::MIN || v > i32::MAX {
                                    Some(Err(DwarfError::UnexpectedElf(MSG_TRUNCATED)))
                                } else if !fits {
                                    None
                                } else {
                                    Some(Ok(splice(data, off, le_bytes(unsigned(v, 0x8000_0000), 4))))
                                }
                            }
                        } else if r.size == 64 {
                            if off + 8 > data.len() {
                                None
                            } else {
                                let addend = if r.implicit_addend {
                                    signed(
                                        le_value(data.subrange(off, off + 8)),
                                        0x8000_0000_0000_0000,
                                    )
                                } else {
                                    0
                                };
                                let v = wrap_i64(value + addend);
                                Some(
                                    Ok(
                                        splice(
                                            data,
                                            off,
                                            le_bytes(unsigned(v, 0x8000_0000_0000_0000), 8),
                                        ),
                                    ),
                                )
                            }
                        } else {
                            Some(Err(DwarfError::UnexpectedElf(MSG_UNKNOWN_SIZE)))
                        }
                    },
                }
            },
        }
    }
}

/// The relocations applied to `data` in order, up to the first error.
pub open spec fn relocate_spec(data: Seq<u8>, relocations: Seq<Relocation>, layout: SectionLayout) -> Option<Result<Seq<u8>, DwarfError>>
    decreases relocations.len(),
{
    if relocations.len() == 0 {
        Some(Ok(data))
    } else {
        match relocation_step_spec(data, relocations[0], layout) {
            None => None,
            Some(Err(e)) => Some(Err(e)),
            Some(Ok(d)) => relocate_spec(d, relocations.drop_first(), layout),
        }
    }
}

proof fn lemma_pow256_bounds()
    ensures
        pow256(4) == 0x1_0000_0000,
        pow256(8) == 0x1_0000_0000_0000_0000,
{
    reveal_with_fuel(pow256, 9);
}

/// Reads `n` little-endian bytes of `data` from `off`.
fn read_le(data: &Vec<u8>, off: usize, n: usize) -> (v: u64)
    requires
        off + n <= data@.len(),
        n <= 8,
    ensures
        v == le_value(data@.subrange(off as int, off + n)),
        v < pow256(n as nat),
{
    let mut acc: u64 = 0;
    let mut i: usize = n;
    assert(data@.subrange(off + n, off + n) =~= Seq::<u8>::empty());
    while i > 0
        invariant
            off + n <= data@.len(),
            off + n <= data.len(),
            n <= 8,
            i <= n,
            acc == le_value(data@.subrange(off + i, off + n)),
            acc < pow256((n - i) as nat),
        decreases i,
    {
        let b = data[off + i - 1];
        let ghost rest = data@.subrange(off + i, off + n);
        assert(data@.subrange(off + i - 1, off + n).drop_first() =~= rest);
        assert(data@.subrange(off + i - 1, off + n)[0] == b);
        proof {
            lemma_pow256_monotone((n - i) as nat, 7);
            assert(pow256((n - i + 1) as nat) == 256 * pow256((n - i) as nat));
            assert(acc * 256 + b < 256 * pow256((n - i) as nat)) by (nonlinear_arith)
                requires
                    acc < pow256((n - i) as nat),
                    b < 256,
            ;
            assert(256 * pow256((n - i) as nat) <= 0x1_0000_0000_0000_0000) by (nonlinear_arith)
                requires
                    pow256((n - i) as nat) <= pow256(7),
                    pow256(7) == 0x100_0000_0000_0000,
            ;
        }
        acc = acc * 256 + b as u64;
        i = i - 1;
    }
    acc
}

proof fn lemma_pow256_monotone(a: nat, b: nat)
    requires
        a <= b,
    ensures
        pow256(a) <= pow256(b),
        pow256(7) == 0x100_0000_0000_0000,
    decreases b,
{
    reveal_with_fuel(pow256, 8);
    if a < b {
        lemma_pow256_monotone(a, (b - 1) as nat);
    }
}

/// Writes the `n` lowest little-endian bytes of `v` into `data` at `off`.
fn write_le(data: &mut Vec<u8>, off: usize, n: usize, v: u64)
    requires
        off + n <= old(data)@.len(),
    ensures
        final(data)@ == splice(old(data)@, off as int, le_bytes(v as nat, n as nat)),
{
    let ghost d0 = data@;
    let mut cur = v;
    let mut i: usize = 0;
    while i < n
        invariant
            off + n <= d0.len(),
            data@.len() == d0.len(),
            off + n <= data.len(),
            i <= n,
            data@.subrange(0, off as int) == d0.subrange(0, off as int),
            data@.subrange((off + i) as int, d0.len() as int) == d0.subrange(
                (off + i) as int,
                d0.len() as int,
            ),
            data@.subrange(off as int, off + i) + le_bytes(cur as nat, (n - i) as nat) == le_bytes(
                v as nat,
                n as nat,
            ),
        decreases n - i,
    {
        let ghost before = data@;
        let b = (cur % 256) as u8;
        data.set(off + i, b);
        assert(le_bytes(cur as nat, (n - i) as nat) =~= seq![b] + le_bytes(
            (cur / 256) as nat,
            (n - i - 1) as nat,
        ));
        assert(data@.subrange(off as int, off + i + 1) =~= before.subrange(off as int, off + i)
            + seq![b]);
        assert(data@.subrange(0, off as int) =~= before.subrange(0, off as int));
        assert(data@.subrange((off + i + 1) as int, d0.len() as int) =~= before.subrange(
            (off + i + 1) as int,
            d0.len() as int,
        ));
        assert(before.subrange((off + i + 1) as int, d0.len() as int) =~= before.subrange(
            (off + i) as int,
            d0.len() as int,
        ).drop_first());
        cur = cur / 256;
        i = i + 1;
    }
    assert(data@ =~= splice(d0, off as int, le_bytes(v as nat, n as nat))) by {
        assert(data@ =~= data@.subrange(0, off as int) + data@.subrange(off as int, (off + n) as int)
            + data@.subrange((off + n) as int, d0.len() as int));
        assert(le_bytes(cur as nat, 0) =~= Seq::<u8>::empty());
        lemma_le_bytes_len(v as nat, n as nat);
    }
}

proof fn lemma_le_bytes_len(v: nat, n: nat)
    ensures
        le_bytes(v, n).len() == n,
    decreases n,
{
    if n > 0 {
        lemma_le_bytes_len(v / 256, (n - 1) as nat);
    }
}


/// `u as i64`.
fn to_i64_wrapping(u: u64) -> (v: i64)
    ensures
        v == wrap_i64(u as int),
{
    if u <= 0x7fff_ffff_ffff_ffffu64 {
        u as i64
    } else {
        ((u - 0x8000_0000_0000_0000u64) as i64) + i64::MIN
    }
}

/// `v as u64`.
fn to_u64_wrapping(v: i64) -> (u: u64)
    ensures
        u == unsigned(v as int, 0x8000_0000_0000_0000),
{
    if v < 0 {
        ((v as i128) + 0x1_0000_0000_0000_0000i128) as u64
    } else {
        v as u64
    }
}

/// Applies one relocation to the section bytes; `None` where indexing into the section would
/// go out of range or the arithmetic would overflow.
fn relocate_one(data: &mut Vec<u8>, r: Relocation, layout: &SectionLayout) -> (res: Option<
    Result<(), DwarfError>,
>)
    ensures
        match relocation_step_spec(old(data)@, r, *layout) {
            None => res is None,
            Some(Ok(d)) => res == Some(Ok::<(), DwarfError>(())) && final(data)@ == d,
            Some(Err(e)) => res == Some(Err::<(), DwarfError>(e)),
        },
{
    if !r.absolute {
        return Some(Err(DwarfError::UnexpectedElf(MSG_NON_ABSOLUTE)));
    }
    let (section_index, symbol_offset) = match r.target {
        RelocationTarget::Symbol(None) => {
            return Some(Err(DwarfError::UnexpectedElf(MSG_SYMBOL_NOT_FOUND)));
        },
        RelocationTarget::Symbol(Some(place)) => match place.section {
            None => {
                return Some(Err(DwarfError::UnexpectedElf(MSG_SYMBOL_WITHOUT_SECTION)));
            },
            Some(i) => (i, place.address),
        },
        RelocationTarget::Section(i) => (i, 0u64),
        _ => {
            return Some(Err(DwarfError::UnexpectedElf(MSG_ABSOLUTE_TARGET)));
        },
    };
    match r.section_address {
        None => {
            return Some(Err(DwarfError::UnexpectedElf(MSG_SECTION_NOT_FOUND)));
        },
        Some(a) => if a != 0 {
            return Some(Err(DwarfError::UnexpectedElf(MSG_NONZERO_SECTION_ADDRESS)));
        },
    }
    if section_index >= layout.forward_map.len() {
        return None;
    }
    if layout.forward_map[section_index].1 > u64::MAX - HALF_GAP {
        return None;
    }
    let address = match layout.encode(section_index, to_i64_wrapping(symbol_offset)) {
        Ok(a) => a,
        Err(e) => {
            return Some(Err(e));
        },
    };
    let value = r.addend.wrapping_add(to_i64_wrapping(address));

    let len = data.len() as u64;
    let fits4 = r.offset <= len && len - r.offset >= 4;
    let fits8 = r.offset <= len && len - r.offset >= 8;
    if r.size == 32 {
        if r.implicit_addend && !fits4 {
            return None;
        }
        let off: usize = if fits4 {
            r.offset as usize
        } else {
            0
        };
        let addend: i64 = if r.implicit_addend {
            let u = read_le(data, off, 4);
            proof {
                lemma_pow256_bounds();
            }
            if u >= 0x8000_0000u64 {
                u as i64 - 0x1_0000_0000i64
            } else {
                u as i64
            }
        } else {
            0
        };
        let v = value.wrapping_add(addend);
        if v < -0x8000_0000i64 || v > 0x7fff_ffffi64 {
            return Some(Err(DwarfError::UnexpectedElf(MSG_TRUNCATED)));
        }
        if !fits4 {
            return None;
        }
        let u: u64 = if v < 0 {
            (v + 0x1_0000_0000i64) as u64
        } else {
            v as u64
        };
        write_le(data, off, 4, u);
        Some(Ok(()))
    } else if r.size == 64 {
        if !fits8 {
            return None;
        }
        let off: usize = r.offset as usize;
        let addend: i64 = if r.implicit_addend {
            let u = read_le(data, off, 8);
            proof {
                lemma_pow256_bounds();
            }
            to_i64_wrapping(u)
        } else {
            0
        };
        let v = value.wrapping_add(addend);
        write_le(data, off, 8, to_u64_wrapping(v));
        Some(Ok(()))
    } else {
        Some(Err(DwarfError::UnexpectedElf(MSG_UNKNOWN_SIZE)))
    }
}

/// Resolves the relocations of a DWARF section against the layout, patching `data` in place;
/// `None` where indexing into the section would go out of range or the arithmetic would
/// overflow.
pub fn try_apply_relocations(data: &mut Vec<u8>, relocations: &Vec<Relocation>, layout: &SectionLayout) -> (res:
    Option<Result<(), DwarfError>>)
    ensures
        match relocate_spec(old(data)@, relocations@, *layout) {
            None => res is None,
            Some(Ok(d)) => res == Some(Ok::<(), DwarfError>(())) && final(data)@ == d,
            Some(Err(e)) => res == Some(Err::<(), DwarfError>(e)),
        },
{
    let ghost goal = relocate_spec(data@, relocations@, *layout);
    let mut i: usize = 0;
    assert(relocations@.skip(0) =~= relocations@);
    while i < relocations.len()
        invariant
            i <= relocations@.len(),
            relocate_spec(data@, relocations@.skip(i as int), *layout) == goal,
            goal == relocate_spec(old(data)@, relocations@, *layout),
        decreases relocations@.len() - i,
    {
        assert(relocations@.skip(i as int).drop_first() =~= relocations@.skip(i + 1));
        assert(relocations@.skip(i as int)[0] == relocations@[i as int]);
        let ghost before = data@;
        match relocate_one(data, relocations[i], layout) {
            None => {
                return None;
            },
            Some(Err(e)) => {
                assert(relocation_step_spec(before, relocations@[i as int], *layout) == Some(
                    Err::<Seq<u8>, DwarfError>(e),
                ));
                return Some(Err(e));
            },
            Some(Ok(())) => {},
        }
        i = i + 1;
    }
    assert(relocations@.skip(i as int) =~= Seq::<Relocation>::empty());
    Some(Ok(()))
}

/// Resolves the relocations of a DWARF section against the layout, patching `data` in place.
pub fn apply_relocations(data: &mut Vec<u8>, relocations: &Vec<Relocation>, layout: &SectionLayout) -> (res:
    Result<(), DwarfError>)
    requires
        relocate_spec(old(data)@, relocations@, *layout) is Some,
    ensures
        match relocate_spec(old(data)@, relocations@, *layout).unwrap() {
            Ok(d) => res is Ok && final(data)@ == d,
            Err(e) => res == Err::<(), DwarfError>(e),
        },
{
    match try_apply_relocations(data, relocations, layout) {
        Some(r) => r,
        None => {
            proof {
                assert(false);
            }
            Ok(())
        },
    }
}


/// Reading back `n` little-endian bytes gives the value written, taken modulo `256^n`.
pub proof fn lemma_le_roundtrip(v: nat, n: nat)
    ensures
        le_value(le_bytes(v, n)) == v % pow256(n),
        le_bytes(v, n).len() == n,
    decreases n,
{
    lemma_le_bytes_len(v, n);
    if n > 0 {
        lemma_le_roundtrip(v / 256, (n - 1) as nat);
        let b = le_bytes(v, n);
        assert(b.drop_first() =~= le_bytes(v / 256, (n - 1) as nat));
        lemma_pow256_positive((n - 1) as nat);
        vstd::arithmetic::div_mod::lemma_mod_breakdown(v as int, 256, pow256((n - 1) as nat) as int);
        assert(((v % 256) as u8) as nat == v % 256);
    }
}

proof fn lemma_pow256_positive(n: nat)
    ensures
        pow256(n) > 0,
    decreases n,
{
    if n > 0 {
        lemma_pow256_positive((n - 1) as nat);
    }
}

/// A relocated field reads back as the value written into it, and the bytes around it stay as
/// they were: for a value `v` of a signed `n`-byte field, writing its bytes at `off` and reading
/// the field again gives `v`.
pub proof fn lemma_field_write_reads_back(data: Seq<u8>, off: int, n: nat, half: int, v: int)
    requires
        n == 4 || n == 8,
        half * 2 == pow256(n),
        -half <= v < half,
        0 <= off,
        off + n <= data.len(),
    ensures
        ({
            let d = splice(data, off, le_bytes(unsigned(v, half), n));
            &&& d.len() == data.len()
            &&& signed(le_value(d.subrange(off, off + n)), half) == v
            &&& d.subrange(0, off) == data.subrange(0, off)
            &&& d.subrange(off + n, d.len() as int) == data.subrange(off + n, data.len() as int)
        }),
{
    let u = unsigned(v, half);
    let bytes = le_bytes(u, n);
    lemma_le_roundtrip(u, n);
    let d = splice(data, off, bytes);
    assert(d.subrange(off, off + n) =~= bytes);
    assert(d.subrange(0, off) =~= data.subrange(0, off));
    assert(d.subrange(off + n, d.len() as int) =~= data.subrange(off + n, data.len() as int));
    assert(u < pow256(n));
    vstd::arithmetic::div_mod::lemma_small_mod(u, pow256(n));
}


/// The `SHF_ALLOC` bit of ELF section flags: the section occupies memory at run time.
pub const SHF_ALLOC: u64 = 2;

/// Whether a section with these flags occupies memory at run time.
pub open spec fn alloc_of(flags: RawSectionFlags) -> bool {
    match flags {
        RawSectionFlags::Elf(bits) => bits & SHF_ALLOC != 0,
        _ => false,
    }
}

/// The sections of an object file as the layout sees them.
pub open spec fn section_infos(raw: Seq<RawSection>) -> Seq<SectionInfo> {
    raw.map_values(
        |s: RawSection| SectionInfo { index: s.index, alloc: alloc_of(s.flags), size: s.size, align: s.align },
    )
}

/// These sections cannot be laid out: a section index leaves no room for a count, or a
/// section carries flags of a format other than ELF.
pub open spec fn layout_panics(raw: Seq<RawSection>) -> bool {
    exists|i: int| 0 <= i < raw.len() && ((#[trigger] raw[i]).index == usize::MAX || raw[i].flags is Foreign)
}

impl SectionLayout {
    /// Lays out the sections of the object file `data`. `None` where the sections cannot
    /// be laid out: `data` is no object file, a section index is `usize::MAX`, or a section's flags are not
    /// ELF flags.
    pub fn for_object(data: &[u8]) -> (res: Option<Result<Self, DwarfError>>)
        ensures
            !parses_as_object(data@) ==> res is None,
            parses_as_object(data@) && layout_panics(object_sections(data@)) ==> res is None,
            parses_as_object(data@) && !layout_panics(object_sections(data@)) ==> match for_sections_spec(
                section_infos(object_sections(data@)),
            ) {
                None => res == Some(Err::<Self, DwarfError>(DwarfError::UnexpectedElf(MSG_LAYOUT_OVERFLOW))),
                Some((f, r)) => res matches Some(Ok(l)) && l.forward() == f && l.reverse() == r,
            },
            res matches Some(Ok(l)) ==> l.wf(),
            res matches Some(Ok(l)) ==> places_sections(section_infos(object_sections(data@)), l.forward(), l.reverse()),
    {
        if !parse_ok(data) {
            return None;
        }
        let raw = read_sections(data);
        let mut infos: Vec<SectionInfo> = Vec::new();
        let mut i: usize = 0;
        while i < raw.len()
            invariant
                raw@ == object_sections(data@),
                i <= raw@.len(),
                infos@ == section_infos(raw@.take(i as int)),
                forall|j: int| 0 <= j < i ==> !((#[trigger] raw@[j]).index == usize::MAX || raw@[j].flags is Foreign),
            decreases raw@.len() - i,
        {
            let s = raw[i];
            assert(raw@[i as int] == s);
            let alloc = match s.flags {
                RawSectionFlags::Unflagged => false,
                RawSectionFlags::Elf(bits) => bits & SHF_ALLOC != 0,
                RawSectionFlags::Foreign => {
                    return None;
                },
            };
            if s.index == usize::MAX {
                return None;
            }
            infos.push(SectionInfo { index: s.index, alloc, size: s.size, align: s.align });
            assert(section_infos(raw@.take(i + 1)) =~= section_infos(raw@.take(i as int)).push(
                SectionInfo { index: s.index, alloc, size: s.size, align: s.align },
            ));
            i = i + 1;
        }
        assert(raw@.take(raw@.len() as int) =~= raw@);
        let laid = Self::for_sections(&infos);
        proof {
            if laid is Ok {
                assert(alloc_distinct(infos@));
                lemma_layout_places_sections(infos@);
            }
        }
        Some(laid)
    }

    /// The number of section indices the layout knows.
    pub fn section_count(&self) -> (n: usize)
        ensures
            n == self.forward().len(),
    {
        self.forward_map.len()
    }

    /// Whether the layout is well formed; always so for a layout of an object file's sections.
    pub fn check_wf(&self) -> (b: bool)
        ensures
            b == self.wf(),
    {
        let f = &self.forward_map;
        let r = &self.reverse_map;
        let n = r.len();
        let mut k: usize = 0;
        while k < n
            invariant
                f@ == self.forward(),
                r@ == self.reverse(),
                n == r@.len(),
                k <= n,
                forall|t: int|
                    0 <= t < k ==> {
                        &&& (#[trigger] r@[t]).1 < f@.len()
                        &&& f@[r@[t].1 as int].0 == r@[t].0
                        &&& r@[t].0 >= SECTION_GAP
                        &&& r@[t].0 + f@[r@[t].1 as int].1 + 2 * SECTION_GAP <= i64::MAX
                    },
                forall|j: int, t: int|
                    0 <= j < t < k ==> #[trigger] r@[j].0 + f@[r@[j].1 as int].1 + SECTION_GAP
                        <= #[trigger] r@[t].0,
            decreases n - k,
        {
            let (addr, idx) = r[k];
            if idx >= f.len() {
                return false;
            }
            let (faddr, size) = f[idx];
            if faddr != addr || addr < SECTION_GAP {
                return false;
            }
            if size > 0x7fff_ffff_ffff_ffffu64 || addr > 0x7fff_ffff_ffff_ffffu64 - size
                || addr + size > 0x7fff_ffff_ffff_ffffu64 - 2 * SECTION_GAP {
                return false;
            }
            let mut j: usize = 0;
            while j < k
                invariant
                    f@ == self.forward(),
                    r@ == self.reverse(),
                    n == r@.len(),
                    j <= k < n,
                    r@[k as int] == (addr, idx),
                    forall|t: int|
                        0 <= t < k ==> {
                            &&& (#[trigger] r@[t]).1 < f@.len()
                            &&& r@[t].0 + f@[r@[t].1 as int].1 + 2 * SECTION_GAP <= i64::MAX
                        },
                    forall|t: int| 0 <= t < j ==> #[trigger] r@[t].0 + f@[r@[t].1 as int].1 + SECTION_GAP <= addr,
                decreases k - j,
            {
                let (a2, i2) = r[j];
                let s2 = f[i2].1;
                if a2 + s2 + SECTION_GAP > addr {
                    return false;
                }
                j = j + 1;
            }
            k = k + 1;
        }
        true
    }
}

/// The relocation target with any symbol looked up in the object file `data`.
pub open spec fn resolve_target(data: Seq<u8>, t: RawTarget) -> RelocationTarget {
    match t {
        RawTarget::Symbol(i) => RelocationTarget::Symbol(object_symbol(data, i)),
        RawTarget::Section(i) => RelocationTarget::Section(i),
        RawTarget::Absolute => RelocationTarget::Absolute,
        RawTarget::Other => RelocationTarget::Other,
    }
}

/// The index of the section that a resolved target lies in, if there is one.
pub open spec fn target_section(t: RelocationTarget) -> Option<usize> {
    match t {
        RelocationTarget::Symbol(Some(p)) => p.section,
        RelocationTarget::Section(i) => Some(i),
        _ => None,
    }
}

/// A relocation of the object file `data` as plain values.
pub open spec fn resolve_relocation(data: Seq<u8>, r: RawRelocation) -> Relocation {
    let target = resolve_target(data, r.target);
    Relocation {
        offset: r.offset,
        absolute: r.absolute,
        target,
        addend: r.addend,
        size: r.size,
        implicit_addend: r.implicit_addend,
        section_address: match target_section(target) {
            Some(i) => object_section_address(data, i),
            None => None,
        },
    }
}

/// Reads the DWARF section `name` of the object file `data` and resolves its relocations
/// against the layout; a missing section reads as empty. `None` where relocating cannot go
/// on: `data` is no object file, or a relocation lies outside the section or names a section the
/// layout does not know.
pub fn load_section(data: &[u8], layout: &SectionLayout, name: &str) -> (res: Option<Result<Vec<u8>, DwarfError>>)
    ensures
        !parses_as_object(data@) ==> res is None,
        parses_as_object(data@) ==> match object_section_data(data@, name@) {
            None => res matches Some(Err(DwarfError::Object(_))),
            Some(None) => res matches Some(Ok(v)) && v@ == Seq::<u8>::empty(),
            Some(Some(bytes)) => match relocate_spec(
                bytes,
                object_section_relocations(data@, name@).map_values(
                    |r: RawRelocation| resolve_relocation(data@, r),
                ),
                *layout,
            ) {
                None => res is None,
                Some(Ok(d)) => res matches Some(Ok(v)) && v@ == d,
                Some(Err(e)) => res matches Some(Err(e2)) && e2 == e,
            },
        },
{
    if !parse_ok(data) {
        return None;
    }
    let mut bytes = match read_section_data(data, name) {
        Err(e) => {
            return Some(Err(DwarfError::Object(e)));
        },
        Ok(None) => {
            return Some(Ok(Vec::new()));
        },
        Ok(Some(b)) => b,
    };
    let raw = read_section_relocations(data, name);
    let ghost resolved = raw@.map_values(|r: RawRelocation| resolve_relocation(data@, r));
    let mut relocations: Vec<Relocation> = Vec::new();
    let mut i: usize = 0;
    while i < raw.len()
        invariant
            parses_as_object(data@),
            i <= raw@.len(),
            resolved == raw@.map_values(|r: RawRelocation| resolve_relocation(data@, r)),
            relocations@ == resolved.take(i as int),
        decreases raw@.len() - i,
    {
        let r = raw[i];
        let target = match r.target {
            RawTarget::Symbol(s) => RelocationTarget::Symbol(read_symbol(data, s)),
            RawTarget::Section(s) => RelocationTarget::Section(s),
            RawTarget::Absolute => RelocationTarget::Absolute,
            RawTarget::Other => RelocationTarget::Other,
        };
        let section = match target {
            RelocationTarget::Symbol(Some(p)) => p.section,
            RelocationTarget::Section(i) => Some(i),
            _ => None,
        };
        let section_address = match section {
            Some(i) => read_section_address(data, i),
            None => None,
        };
        relocations.push(
            Relocation {
                offset: r.offset,
                absolute: r.absolute,
                target,
                addend: r.addend,
                size: r.size,
                implicit_addend: r.implicit_addend,
                section_address,
            },
        );
        assert(resolved.take(i + 1) =~= resolved.take(i as int).push(resolved[i as int]));
        i = i + 1;
    }
    assert(resolved.take(raw@.len() as int) =~= resolved);

    match try_apply_relocations(&mut bytes, &relocations, layout) {
        None => None,
        Some(Err(e)) => Some(Err(e)),
        Some(Ok(())) => Some(Ok(bytes)),
    }
}

// ---------------------------------------------------------------------------------------------
// Loading all DWARF sections
// ---------------------------------------------------------------------------------------------

pub const MSG_BIG_ENDIAN: &'static str = "only little endian object files are supported";

/// The number of DWARF sections that `gimli::DwarfSections::load` asks for.
pub const DWARF_SECTION_COUNT: usize = 16;

/// The DWARF sections, in the order `gimli::DwarfSections::load` asks for them.
pub open spec fn dwarf_section_names() -> Seq<Seq<char>> {
    seq![
        ".debug_abbrev"@,
        ".debug_addr"@,
        ".debug_aranges"@,
        ".debug_info"@,
        ".debug_line"@,
        ".debug_line_str"@,
        ".debug_macinfo"@,
        ".debug_macro"@,
        ".debug_names"@,
        ".debug_str"@,
        ".debug_str_offsets"@,
        ".debug_types"@,
        ".debug_loc"@,
        ".debug_loclists"@,
        ".debug_ranges"@,
        ".debug_rnglists"@,
    ]
}

fn dwarf_section_name(i: usize) -> (s: &'static str)
    requires
        i < DWARF_SECTION_COUNT,
    ensures
        s@ == dwarf_section_names()[i as int],
{
    if i == 0 {
        ".debug_abbrev"
    } else if i == 1 {
        ".debug_addr"
    } else if i == 2 {
        ".debug_aranges"
    } else if i == 3 {
        ".debug_info"
    } else if i == 4 {
        ".debug_line"
    } else if i == 5 {
        ".debug_line_str"
    } else if i == 6 {
        ".debug_macinfo"
    } else if i == 7 {
        ".debug_macro"
    } else if i == 8 {
        ".debug_names"
    } else if i == 9 {
        ".debug_str"
    } else if i == 10 {
        ".debug_str_offsets"
    } else if i == 11 {
        ".debug_types"
    } else if i == 12 {
        ".debug_loc"
    } else if i == 13 {
        ".debug_loclists"
    } else if i == 14 {
        ".debug_ranges"
    } else {
        ".debug_rnglists"
    }
}

/// What `load_section` gives for section `name`: `Err(None)` stands for the error `object`
/// reports when the section's bytes cannot be read, `Err(Some(e))` for any other error.
pub open spec fn section_load_spec(data: Seq<u8>, layout: SectionLayout, name: Seq<char>) -> Option<
    Result<Seq<u8>, Option<DwarfError>>,
> {
    if !parses_as_object(data) {
        None
    } else {
        match object_section_data(data, name) {
            None => Some(Err(None)),
            Some(None) => Some(Ok(Seq::empty())),
            Some(Some(bytes)) => match relocate_spec(
                bytes,
                object_section_relocations(data, name).map_values(
                    |r: RawRelocation| resolve_relocation(data, r),
                ),
                layout,
            ) {
                None => None,
                Some(Ok(d)) => Some(Ok(d)),
                Some(Err(e)) => Some(Err(Some(e))),
            },
        }
    }
}

/// The sections `names` loaded in order, up to the first that fails.
pub open spec fn dwarf_load_spec(data: Seq<u8>, layout: SectionLayout, names: Seq<Seq<char>>) -> Option<
    Result<Seq<Seq<u8>>, Option<DwarfError>>,
>
    decreases names.len(),
{
    if names.len() == 0 {
        Some(Ok(Seq::empty()))
    } else {
        match dwarf_load_spec(data, layout, names.drop_last()) {
            Some(Ok(v)) => match section_load_spec(data, layout, names.last()) {
                None => None,
                Some(Err(e)) => Some(Err(e)),
                Some(Ok(b)) => Some(Ok(v.push(b))),
            },
            other => other,
        }
    }
}

/// The layout of the sections of object file `data`, as `(forward, reverse)`: `None` where
/// laying them out panics.
pub open spec fn object_layout_spec(data: Seq<u8>) -> Option<
    Result<(Seq<(u64, u64)>, Seq<(u64, usize)>), DwarfError>,
> {
    if layout_panics(object_sections(data)) {
        None
    } else {
        match for_sections_spec(section_infos(object_sections(data))) {
            None => Some(Err(DwarfError::UnexpectedElf(MSG_LAYOUT_OVERFLOW))),
            Some(fr) => Some(Ok(fr)),
        }
    }
}

/// Relocation reads a layout only through its forward map.
proof fn lemma_relocate_forward(data: Seq<u8>, rs: Seq<Relocation>, l1: SectionLayout, l2: SectionLayout)
    requires
        l1.forward() == l2.forward(),
    ensures
        relocate_spec(data, rs, l1) == relocate_spec(data, rs, l2),
    decreases rs.len(),
{
    if rs.len() > 0 {
        assert(relocation_step_spec(data, rs[0], l1) == relocation_step_spec(data, rs[0], l2));
        match relocation_step_spec(data, rs[0], l1) {
            Some(Ok(d)) => lemma_relocate_forward(d, rs.drop_first(), l1, l2),
            _ => {},
        }
    }
}

/// Loading reads a layout only through its forward map.
proof fn lemma_load_forward(data: Seq<u8>, l1: SectionLayout, l2: SectionLayout, names: Seq<Seq<char>>)
    requires
        l1.forward() == l2.forward(),
    ensures
        dwarf_load_spec(data, l1, names) == dwarf_load_spec(data, l2, names),
    decreases names.len(),
{
    if names.len() > 0 {
        lemma_load_forward(data, l1, l2, names.drop_last());
        match object_section_data(data, names.last()) {
            Some(Some(bytes)) => lemma_relocate_forward(
                bytes,
                object_section_relocations(data, names.last()).map_values(
                    |r: RawRelocation| resolve_relocation(data, r),
                ),
                l1,
                l2,
            ),
            _ => {},
        }
    }
}

/// A load that fails on a prefix of the names fails the same way on all of them.
proof fn lemma_load_prefix(data: Seq<u8>, l: SectionLayout, names: Seq<Seq<char>>, k: int)
    requires
        0 <= k <= names.len(),
        !(dwarf_load_spec(data, l, names.take(k)) is Some && dwarf_load_spec(data, l, names.take(k))->0 is Ok),
    ensures
        dwarf_load_spec(data, l, names) == dwarf_load_spec(data, l, names.take(k)),
    decreases names.len(),
{
    if k < names.len() {
        assert(names.drop_last().take(k) =~= names.take(k));
        lemma_load_prefix(data, l, names.drop_last(), k);
    } else {
        assert(names.take(k) =~= names);
    }
}

/// The DWARF sections of an object file, relocated against the layout of its sections, and
/// handed to `gimli`.
pub struct DwarfData {
    layout: SectionLayout,
    bytes: Vec<Vec<u8>>,
    sections: gimli::DwarfSections<Vec<u8>>,
}

impl DwarfData {
    /// The layout that the sections were relocated against.
    pub closed spec fn layout(self) -> SectionLayout {
        self.layout
    }

    /// The bytes of each DWARF section, in the order of `dwarf_section_names`.
    pub closed spec fn section_bytes(self) -> Seq<Seq<u8>> {
        self.bytes@.map_values(|b: Vec<u8>| b@)
    }

    /// The layout that the sections were relocated against.
    pub fn section_layout(&self) -> (l: &SectionLayout)
        ensures
            *l == self.layout(),
    {
        &self.layout
    }

    /// The sections as `gimli` holds them.
    pub closed spec fn sections(self) -> gimli::DwarfSections<Vec<u8>> {
        self.sections
    }

    /// The sections as `gimli` holds them.
    pub fn dwarf_sections(&self) -> (r: &gimli::DwarfSections<Vec<u8>>)
        ensures
            *r == self.sections(),
    {
        &self.sections
    }
}

/// Whether two strings are equal.
fn same_str(a: &str, b: &str) -> (r: bool)
    ensures
        r == (a@ == b@),
{
    let x = String::from_str(a);
    let y = String::from_str(b);
    x == y
}

/// The bytes loaded for the DWARF section `name`; none for a name that is not one of them.
fn section_named(bytes: &Vec<Vec<u8>>, name: &str) -> (v: Vec<u8>)
    requires
        bytes@.len() == DWARF_SECTION_COUNT,
    ensures
        !dwarf_section_names().contains(name@) ==> v@ == Seq::<u8>::empty(),
        forall|i: int|
            0 <= i < DWARF_SECTION_COUNT && dwarf_section_names()[i] == name@ && (forall|j: int|
                0 <= j < i ==> dwarf_section_names()[j] != name@) ==> v@ == bytes@[i]@,
{
    let mut i: usize = 0;
    while i < DWARF_SECTION_COUNT
        invariant
            bytes@.len() == DWARF_SECTION_COUNT,
            i <= DWARF_SECTION_COUNT,
            forall|j: int| 0 <= j < i ==> dwarf_section_names()[j] != name@,
        decreases DWARF_SECTION_COUNT - i,
    {
        if same_str(name, dwarf_section_name(i)) {
            let v = bytes[i].clone();
            assert(v@ == bytes@[i as int]@);
            return v;
        }
        i = i + 1;
    }
    Vec::new()
}

/// The contents of each byte vector.
pub open spec fn views_of(v: Seq<Vec<u8>>) -> Seq<Seq<u8>> {
    v.map_values(|b: Vec<u8>| b@)
}

/// What `gimli::DwarfSections::load` builds when it is handed, for each section it asks for,
/// the bytes of that section among `bytes` (in the order of `dwarf_section_names`).
pub uninterp spec fn gimli_sections_of(bytes: Seq<Seq<u8>>) -> gimli::DwarfSections<Vec<u8>>;

/// `gimli::DwarfSections::load`, handing it, for each section it asks for by name, the bytes
/// loaded under that name. The loader never fails, so neither does the call, and the sections
/// built depend on the bytes alone.
#[verifier::external_body]
fn gimli_sections(bytes: &Vec<Vec<u8>>) -> (r: Result<gimli::DwarfSections<Vec<u8>>, DwarfError>)
    requires
        bytes@.len() == DWARF_SECTION_COUNT,
    ensures
        r is Ok,
        r matches Ok(built) ==> built == gimli_sections_of(views_of(bytes@)),
{
    gimli::DwarfSections::load(|id| Ok(section_named(bytes, id.name())))
}

/// Loads every DWARF section of `data` against `layout`, in the order of
/// `dwarf_section_names`, stopping at the first that fails.
fn load_all(data: &[u8], layout: &SectionLayout) -> (res: Option<Result<Vec<Vec<u8>>, DwarfError>>)
    requires
        parses_as_object(data@),
    ensures
        match dwarf_load_spec(data@, *layout, dwarf_section_names()) {
            None => res is None,
            Some(Err(None)) => res matches Some(Err(DwarfError::Object(_))),
            Some(Err(Some(e))) => res matches Some(Err(e2)) && e2 == e,
            Some(Ok(secs)) => res matches Some(Ok(v)) && v@.len() == DWARF_SECTION_COUNT
                && v@.map_values(|b: Vec<u8>| b@) == secs,
        },
{
    let ghost names = dwarf_section_names();
    let mut bytes: Vec<Vec<u8>> = Vec::new();
    let mut i: usize = 0;
    assert(names.take(0) =~= Seq::<Seq<char>>::empty());
    assert(bytes@.map_values(|b: Vec<u8>| b@) =~= Seq::<Seq<u8>>::empty());
    while i < DWARF_SECTION_COUNT
        invariant
            parses_as_object(data@),
            names == dwarf_section_names(),
            i <= DWARF_SECTION_COUNT,
            bytes@.len() == i,
            dwarf_load_spec(data@, *layout, names.take(i as int)) == Some(
                Ok::<Seq<Seq<u8>>, Option<DwarfError>>(bytes@.map_values(|b: Vec<u8>| b@)),
            ),
        decreases DWARF_SECTION_COUNT - i,
    {
        let name = dwarf_section_name(i);
        assert(names.take(i + 1).drop_last() =~= names.take(i as int));
        assert(names.take(i + 1).last() == name@);
        match load_section(data, layout, name) {
            None => {
                proof {
                    lemma_load_prefix(data@, *layout, names, i + 1);
                }
                return None;
            },
            Some(Err(e)) => {
                proof {
                    lemma_load_prefix(data@, *layout, names, i + 1);
                }
                return Some(Err(e));
            },
            Some(Ok(b)) => {
                let ghost before = bytes@;
                bytes.push(b);
                assert(bytes@.map_values(|b: Vec<u8>| b@) =~= before.map_values(|b: Vec<u8>| b@).push(
                    b@,
                ));
            },
        }
        i = i + 1;
    }
    assert(names.take(DWARF_SECTION_COUNT as int) =~= names);
    Some(Ok(bytes))
}

/// Reads the DWARF of the relocatable object file `data`: lays out its sections, loads and
/// relocates every DWARF section against that layout, and hands them to `gimli`. `None` where
/// reading panics: `data` is no object file, laying out its sections panics, or loading a
/// section does.
pub fn load_dwarf(data: &[u8]) -> (res: Option<Result<DwarfData, DwarfError>>)
    ensures
        !parses_as_object(data@) ==> res is None,
        parses_as_object(data@) && !object_little_endian(data@) ==> (res matches Some(Err(e)) && e
            == DwarfError::UnexpectedElf(MSG_BIG_ENDIAN)),
        parses_as_object(data@) && object_little_endian(data@) ==> match object_layout_spec(data@) {
            None => res is None,
            Some(Err(e)) => res matches Some(Err(e2)) && e2 == e,
            Some(Ok((f, r))) => forall|l: SectionLayout|
                l.forward() == f && l.reverse() == r ==> match #[trigger] dwarf_load_spec(
                    data@,
                    l,
                    dwarf_section_names(),
                ) {
                    None => res is None,
                    Some(Err(None)) => res matches Some(Err(DwarfError::Object(_))),
                    Some(Err(Some(e))) => res matches Some(Err(e2)) && e2 == e,
                    Some(Ok(secs)) => res matches Some(Ok(d)) && d.layout().forward() == f
                        && d.layout().reverse() == r && d.layout().wf() && d.section_bytes() == secs
                        && d.sections() == gimli_sections_of(secs),
                },
        },
{
    if !parse_ok(data) {
        return None;
    }
    if !read_little_endian(data) {
        return Some(Err(DwarfError::UnexpectedElf(MSG_BIG_ENDIAN)));
    }
    let layout = match SectionLayout::for_object(data) {
        None => {
            return None;
        },
        Some(Err(e)) => {
            return Some(Err(e));
        },
        Some(Ok(l)) => l,
    };
    let loaded = load_all(data, &layout);
    proof {
        assert forall|l: SectionLayout| l.forward() == layout.forward() implies dwarf_load_spec(
            data@,
            l,
            dwarf_section_names(),
        ) == dwarf_load_spec(data@, layout, dwarf_section_names()) by {
            lemma_load_forward(data@, l, layout, dwarf_section_names());
        }
    }
    let bytes = match loaded {
        None => {
            return None;
        },
        Some(Err(e)) => {
            return Some(Err(e));
        },
        Some(Ok(b)) => b,
    };
    let sections = match gimli_sections(&bytes) {
        Ok(s) => s,
        Err(e) => {
            return Some(Err(e));
        },
    };
    Some(Ok(DwarfData { layout, bytes, sections }))
}

} // verus!
