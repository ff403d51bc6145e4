//! Items that klint treats specially, found without source annotations.

use vstd::prelude::*;

verus! {

/// An exported symbol of the crate being compiled: whether it is a non-generic item, and its
/// symbol name.
#[derive(Debug)]
pub struct ExportedSymbolInfo {
    pub non_generic: bool,
    pub name: String,
}

/// The position of the first non-generic exported symbol named `rust_build_error`.
pub open spec fn build_error_item_spec(symbols: Seq<ExportedSymbolInfo>) -> Option<usize>
    decreases symbols.len(),
{
    if symbols.len() == 0 {
        None
    } else if symbols.last().non_generic && symbols.last().name@ == "rust_build_error"@
        && build_error_item_spec(symbols.drop_last()) is None {
        Some((symbols.len() - 1) as usize)
    } else {
        build_error_item_spec(symbols.drop_last())
    }
}

/// Finds the item that implements `build_error` among the crate's exported symbols, in the
/// order the compiler lists them.
pub fn infer_build_error_diagnostic_item(symbols: &Vec<ExportedSymbolInfo>) -> (res: Option<usize>)
    ensures
        res == build_error_item_spec(symbols@),
        res matches Some(i) ==> i < symbols@.len() && symbols@[i as int].non_generic
            && symbols@[i as int].name@ == "rust_build_error"@,
{
    let wanted = String::from_str("rust_build_error");
    let mut i: usize = 0;
    while i < symbols.len()
        invariant
            i <= symbols@.len(),
            wanted@ == "rust_build_error"@,
            build_error_item_spec(symbols@.take(i as int)) is None,
        decreases symbols@.len() - i,
    {
        assert(symbols@.take(i + 1).drop_last() =~= symbols@.take(i as int));
        if symbols[i].non_generic && symbols[i].name == wanted {
            proof {
                lemma_first_match_stays(symbols@, i as int);
            }
            return Some(i);
        }
        i = i + 1;
    }
    assert(symbols@.take(symbols@.len() as int) =~= symbols@);
    None
}

/// Once a prefix holds the first match, longer prefixes keep it.
proof fn lemma_first_match_stays(s: Seq<ExportedSymbolInfo>, i: int)
    requires
        0 <= i < s.len(),
        build_error_item_spec(s.take(i)) is None,
        s[i].non_generic && s[i].name@ == "rust_build_error"@,
    ensures
        build_error_item_spec(s) == Some(i as usize),
    decreases s.len(),
{
    if s.len() == i + 1 {
        assert(s.drop_last() =~= s.take(i));
    } else {
        assert(s.drop_last().take(i) =~= s.take(i));
        lemma_first_match_stays(s.drop_last(), i);
    }
}

} // verus!
