//! Finding out why an object file refers to `rust_build_error`.

use vstd::prelude::*;
use crate::binary_analysis::dwarf::DwarfError;
use crate::binary_analysis::dwarf_walk::Call;
use crate::binary_analysis::object_file::{
    object_relocation_targets, object_symbol_by_name, parse_ok, parses_as_object,
    read_relocation_targets, read_symbol_by_name,
};

verus! {

pub const MSG_UNEXPECTED_ROOT: &'static str = "root of call stack is unexpected";

/// The relocations of one section, each as its offset and the index of the symbol it targets
/// (`None` for any other kind of target).
#[derive(Debug)]
pub struct SectionRelocations {
    pub index: usize,
    pub relocations: Vec<(u64, Option<usize>)>,
}

/// A place in a section that refers to the build-error symbol.
#[derive(Clone, Copy, Debug, PartialEq, Eq, Structural)]
pub struct Reference {
    pub section: usize,
    pub offset: u64,
}

/// All `(section, offset)` places whose relocation targets symbol `symbol`, section by section.
pub open spec fn references_spec(sections: Seq<SectionRelocations>, symbol: usize) -> Seq<Reference>
    decreases sections.len(),
{
    if sections.len() == 0 {
        Seq::empty()
    } else {
        references_spec(sections.drop_last(), symbol) + relocations_to(
            sections.last().index,
            sections.last().relocations@,
            symbol,
        )
    }
}

/// The offsets among `relocations` that target `symbol`, as references into section `section`.
pub open spec fn relocations_to(section: usize, relocations: Seq<(u64, Option<usize>)>, symbol: usize) -> Seq<
    Reference,
>
    decreases relocations.len(),
{
    if relocations.len() == 0 {
        Seq::empty()
    } else {
        let rest = relocations_to(section, relocations.drop_last(), symbol);
        if relocations.last().1 == Some(symbol) {
            rest.push(Reference { section, offset: relocations.last().0 })
        } else {
            rest
        }
    }
}

/// How many of `relocations` target `symbol`.
pub open spec fn target_count(relocations: Seq<(u64, Option<usize>)>, symbol: usize) -> nat
    decreases relocations.len(),
{
    if relocations.len() == 0 {
        0
    } else {
        target_count(relocations.drop_last(), symbol) + if relocations.last().1 == Some(symbol) {
            1nat
        } else {
            0nat
        }
    }
}

/// How many relocations of all the sections target `symbol`.
pub open spec fn total_targets(sections: Seq<SectionRelocations>, symbol: usize) -> nat
    decreases sections.len(),
{
    if sections.len() == 0 {
        0
    } else {
        total_targets(sections.drop_last(), symbol) + target_count(sections.last().relocations@, symbol)
    }
}

/// The references found in one section are exactly its relocations that target `symbol`:
/// each names the section and the offset of such a relocation, each such relocation is
/// reported, and there are as many references as such relocations.
pub proof fn lemma_relocations_to_exact(section: usize, relocations: Seq<(u64, Option<usize>)>, symbol: usize)
    ensures
        relocations_to(section, relocations, symbol).len() == target_count(relocations, symbol),
        forall|j: int|
            0 <= j < relocations_to(section, relocations, symbol).len() ==> {
                let r = #[trigger] relocations_to(section, relocations, symbol)[j];
                &&& r.section == section
                &&& exists|k: int| 0 <= k < relocations.len() && #[trigger] relocations[k] == (r.offset, Some(symbol))
            },
        forall|k: int|
            0 <= k < relocations.len() && (#[trigger] relocations[k]).1 == Some(symbol) ==> exists|j: int|
                0 <= j < relocations_to(section, relocations, symbol).len() && #[trigger] relocations_to(
                    section,
                    relocations,
                    symbol,
                )[j] == (Reference { section, offset: relocations[k].0 }),
    decreases relocations.len(),
{
    if relocations.len() > 0 {
        let pre = relocations.drop_last();
        lemma_relocations_to_exact(section, pre, symbol);
        let rest = relocations_to(section, pre, symbol);
        let res = relocations_to(section, relocations, symbol);
        assert forall|j: int| 0 <= j < res.len() implies {
            let r = #[trigger] res[j];
            &&& r.section == section
            &&& exists|k: int| 0 <= k < relocations.len() && #[trigger] relocations[k] == (r.offset, Some(symbol))
        } by {
            if j < rest.len() {
                assert(res[j] == rest[j]);
                let k = choose|k: int| 0 <= k < pre.len() && #[trigger] pre[k] == (rest[j].offset, Some(symbol));
                assert(relocations[k] == pre[k]);
            } else {
                let k = relocations.len() - 1;
                assert(relocations[k] == (res[j].offset, Some(symbol)));
            }
        }
        assert forall|k: int| 0 <= k < relocations.len() && (#[trigger] relocations[k]).1 == Some(symbol) implies exists|j: int|
            0 <= j < res.len() && #[trigger] res[j] == (Reference { section, offset: relocations[k].0 }) by {
            if k < pre.len() {
                assert(pre[k] == relocations[k]);
                let j = choose|j: int| 0 <= j < rest.len() && #[trigger] rest[j] == (Reference { section, offset: pre[k].0 });
                assert(res[j] == rest[j]);
            } else {
                assert(res[rest.len() as int] == (Reference { section, offset: relocations[k].0 }));
            }
        }
    }
}

/// The references found are exactly the relocations of the sections that target `symbol`:
/// each names a section and the offset of one of its relocations that targets the symbol,
/// every such relocation is reported, and there are as many references as such relocations.
pub proof fn lemma_references_exact(sections: Seq<SectionRelocations>, symbol: usize)
    ensures
        references_spec(sections, symbol).len() == total_targets(sections, symbol),
        forall|j: int|
            0 <= j < references_spec(sections, symbol).len() ==> exists|s: int, k: int|
                0 <= s < sections.len() && 0 <= k < sections[s].relocations@.len() && sections[s].index
                    == (#[trigger] references_spec(sections, symbol)[j]).section && #[trigger] sections[s].relocations@[k]
                    == (references_spec(sections, symbol)[j].offset, Some(symbol)),
        forall|s: int, k: int|
            0 <= s < sections.len() && 0 <= k < sections[s].relocations@.len() && (
            #[trigger] sections[s].relocations@[k]).1 == Some(symbol) ==> exists|j: int|
                0 <= j < references_spec(sections, symbol).len() && #[trigger] references_spec(sections, symbol)[j]
                    == (Reference { section: sections[s].index, offset: sections[s].relocations@[k].0 }),
    decreases sections.len(),
{
    if sections.len() > 0 {
        let pre = sections.drop_last();
        let last = sections.last();
        lemma_references_exact(pre, symbol);
        lemma_relocations_to_exact(last.index, last.relocations@, symbol);
        let a = references_spec(pre, symbol);
        let b = relocations_to(last.index, last.relocations@, symbol);
        let res = references_spec(sections, symbol);
        assert(res == a + b);
        assert forall|j: int| 0 <= j < res.len() implies exists|s: int, k: int|
            0 <= s < sections.len() && 0 <= k < sections[s].relocations@.len() && sections[s].index
                == (#[trigger] res[j]).section && #[trigger] sections[s].relocations@[k] == (res[j].offset, Some(symbol)) by {
            if j < a.len() {
                assert(res[j] == a[j]);
                let (s, k) = choose|s: int, k: int|
                    0 <= s < pre.len() && 0 <= k < pre[s].relocations@.len() && pre[s].index == (#[trigger] a[j]).section
                        && #[trigger] pre[s].relocations@[k] == (a[j].offset, Some(symbol));
                assert(sections[s] == pre[s]);
            } else {
                assert(res[j] == b[j - a.len()]);
                let k = choose|k: int| 0 <= k < last.relocations@.len() && #[trigger] last.relocations@[k] == (
                    b[j - a.len()].offset,
                    Some(symbol),
                );
                assert(sections[sections.len() - 1] == last);
                assert(sections[sections.len() - 1].relocations@[k] == (res[j].offset, Some(symbol)));
            }
        }
        assert forall|s: int, k: int|
            0 <= s < sections.len() && 0 <= k < sections[s].relocations@.len() && (
            #[trigger] sections[s].relocations@[k]).1 == Some(symbol) implies exists|j: int|
                0 <= j < res.len() && #[trigger] res[j] == (Reference {
                    section: sections[s].index,
                    offset: sections[s].relocations@[k].0,
                }) by {
            if s < pre.len() {
                assert(pre[s] == sections[s]);
                assert(pre[s].relocations@[k].1 == Some(symbol));
                let j = choose|j: int| 0 <= j < a.len() && #[trigger] a[j] == (Reference {
                    section: pre[s].index,
                    offset: pre[s].relocations@[k].0,
                });
                assert(res[j] == a[j]);
            } else {
                assert(sections[s] == last);
                assert(last.relocations@[k].1 == Some(symbol));
                let j = choose|j: int| 0 <= j < b.len() && #[trigger] b[j] == (Reference {
                    section: last.index,
                    offset: last.relocations@[k].0,
                });
                assert(res[a.len() + j] == b[j]);
            }
        }
    }
}

/// The places that refer to the build-error symbol. `symbol` is that symbol's index and
/// whether it is undefined, if the object file has such a symbol at all. An object file that
/// defines the symbol is the one that implements it, so nothing in it counts as a reference.
pub fn build_error_references(symbol: Option<(usize, bool)>, sections: &Vec<SectionRelocations>) -> (res:
    Vec<Reference>)
    ensures
        res@ == match symbol {
            Some((index, true)) => references_spec(sections@, index),
            _ => Seq::empty(),
        },
{
    let index = match symbol {
        Some((index, true)) => index,
        _ => {
            return Vec::new();
        },
    };
    let mut out: Vec<Reference> = Vec::new();
    let mut i: usize = 0;
    while i < sections.len()
        invariant
            i <= sections@.len(),
            out@ == references_spec(sections@.take(i as int), index),
        decreases sections@.len() - i,
    {
        assert(sections@.take(i + 1).drop_last() =~= sections@.take(i as int));
        let section = &sections[i];
        let mut j: usize = 0;
        let ghost base = out@;
        while j < section.relocations.len()
            invariant
                j <= section.relocations@.len(),
                out@ == base + relocations_to(section.index, section.relocations@.take(j as int), index),
            decreases section.relocations@.len() - j,
        {
            assert(section.relocations@.take(j + 1).drop_last() =~= section.relocations@.take(
                j as int,
            ));
            let (offset, target) = section.relocations[j];
            if target == Some(index) {
                out.push(Reference { section: section.index, offset });
            }
            j = j + 1;
        }
        assert(section.relocations@.take(section.relocations@.len() as int) =~= section.relocations@);
        i = i + 1;
    }
    assert(sections@.take(sections@.len() as int) =~= sections@);
    out
}

/// The places in the object file `data` that refer to an undefined `rust_build_error` symbol;
/// `None` when `data` is no object file.
pub fn build_error_references_of(data: &[u8]) -> (res: Option<Vec<Reference>>)
    ensures
        !parses_as_object(data@) ==> res is None,
        parses_as_object(data@) ==> (res matches Some(v) && v@ == match object_symbol_by_name(
            data@,
            "rust_build_error"@,
        ) {
            Some((index, true)) => references_spec(object_relocation_targets(data@), index),
            _ => Seq::empty(),
        }),
{
    if !parse_ok(data) {
        return None;
    }
    let symbol = read_symbol_by_name(data, "rust_build_error");
    let sections = read_relocation_targets(data);
    Some(build_error_references(symbol, &sections))
}

/// Checks that a reconstructed inline call stack starts in the function that holds the
/// reference, `symbol`.
pub fn check_call_stack_root(call_stack: &Vec<Call>, symbol: &String) -> (res: Result<(), DwarfError>)
    ensures
        res is Err <==> (call_stack@.len() > 0 && call_stack@[0].caller@ != symbol@),
        res matches Err(e) ==> e == DwarfError::UnexpectedDwarf(MSG_UNEXPECTED_ROOT),
{
    if call_stack.len() > 0 && call_stack[0].caller != *symbol {
        return Err(DwarfError::UnexpectedDwarf(MSG_UNEXPECTED_ROOT));
    }
    Ok(())
}

} // verus!
