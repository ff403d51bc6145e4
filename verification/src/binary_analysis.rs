//! Analysis of the object files that the compiler produced.

pub mod build_error;
pub mod dwarf;
pub mod dwarf_walk;
pub mod object_file;
pub mod outside;
pub mod reconstruct;
pub mod stack_size;

use vstd::prelude::*;
use crate::binary_analysis::object_file::{parse_ok, parses_as_object, object_symbols, read_symbols};

verus! {

/// What klint needs to know of one symbol of an object file.
#[derive(Debug)]
pub struct SymbolInfo {
    /// Index of the section that defines the symbol; `None` for undefined, absolute and common
    /// symbols.
    pub section: Option<usize>,
    pub address: u64,
    pub size: u64,
    /// The symbol's name; `None` when it cannot be read.
    pub name: Option<String>,
}

/// The first symbol of section `section` whose extent holds `offset`, with `offset` relative
/// to it; symbols whose name cannot be read are passed over. `None` inside `Some` when no
/// symbol qualifies; `None` outright where computing a symbol's end overflows.
pub open spec fn find_symbol_spec(symbols: Seq<SymbolInfo>, section: usize, offset: u64) -> Option<
    Option<(String, u64)>,
>
    decreases symbols.len(),
{
    if symbols.len() == 0 {
        Some(None)
    } else {
        let s = symbols[0];
        if s.section != Some(section) {
            find_symbol_spec(symbols.drop_first(), section, offset)
        } else if s.address + s.size > u64::MAX {
            None
        } else if s.address <= offset < s.address + s.size && s.name is Some {
            Some(Some((s.name.unwrap(), (offset - s.address) as u64)))
        } else {
            find_symbol_spec(symbols.drop_first(), section, offset)
        }
    }
}

/// Finds the symbol that covers `offset` in section `section`, with the offset relative to it;
/// `None` where the end of a symbol before it overflows.
pub fn try_find_symbol_in(
    symbols: &Vec<SymbolInfo>,
    section: usize,
    offset: u64,
) -> (res: Option<Option<(String, u64)>>)
    ensures
        res == find_symbol_spec(symbols@, section, offset),
{
    let ghost goal = find_symbol_spec(symbols@, section, offset);
    let mut i: usize = 0;
    assert(symbols@.skip(0) =~= symbols@);
    while i < symbols.len()
        invariant
            i <= symbols@.len(),
            find_symbol_spec(symbols@.skip(i as int), section, offset) == goal,
            goal == find_symbol_spec(symbols@, section, offset),
        decreases symbols@.len() - i,
    {
        assert(symbols@.skip(i as int).drop_first() =~= symbols@.skip(i + 1));
        assert(symbols@.skip(i as int)[0] == symbols@[i as int]);
        let sym = &symbols[i];
        if sym.section == Some(section) {
            let start = sym.address;
            let end = match start.checked_add(sym.size) {
                Some(e) => e,
                None => {
                    return None;
                },
            };
            if start <= offset && offset < end {
                if let Some(name) = &sym.name {
                    return Some(Some((name.clone(), offset - start)));
                }
            }
        }
        i = i + 1;
    }
    assert(symbols@.skip(i as int) =~= Seq::<SymbolInfo>::empty());
    Some(None)
}

/// Finds the symbol that covers `offset` in section `section`, with the offset relative to it.
pub fn find_symbol_in(symbols: &Vec<SymbolInfo>, section: usize, offset: u64) -> (res:
    Option<(String, u64)>)
    requires
        find_symbol_spec(symbols@, section, offset) is Some,
    ensures
        res == find_symbol_spec(symbols@, section, offset).unwrap(),
{
    match try_find_symbol_in(symbols, section, offset) {
        Some(r) => r,
        None => {
            proof {
                assert(false);
            }
            None
        },
    }
}

/// Finds the symbol of the object file `data` that covers `offset` in section `section`, with
/// the offset relative to it. `None` where the search cannot go on: `data` is no object file, or
/// computing a symbol's end overflows.
pub fn find_symbol_from_section_offset(data: &[u8], section: usize, offset: u64) -> (res: Option<
    Option<(String, u64)>,
>)
    ensures
        !parses_as_object(data@) ==> res is None,
        parses_as_object(data@) ==> res == find_symbol_spec(object_symbols(data@), section, offset),
{
    if !parse_ok(data) {
        return None;
    }
    let symbols = read_symbols(data);
    try_find_symbol_in(&symbols, section, offset)
}

} // verus!
