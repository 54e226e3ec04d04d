//! Names of the tab bar's game objects.
use vstd::prelude::*;
use crate::text::{append_str, decimal, usize_to_decimal, lemma_decimal_injective};

verus! {

/// The number of tabs.
pub const TAB_COUNT: usize = 3;

/// The name of tab `i`'s icon: the terminal, the view, and the chat for every other index.
pub fn tab_name(i: usize) -> (r: &'static str)
    ensures
        r@ == (if i == 0 {
            "tab_term"@
        } else if i == 1 {
            "tab_view"@
        } else {
            "tab_chat"@
        }),
{
    match i {
        0 => "tab_term",
        1 => "tab_view",
        _ => "tab_chat",
    }
}

/// The name of tab `i`'s accent bar: `tab_accent_` followed by `i` in decimal.
pub open spec fn accent_name(i: nat) -> Seq<char> {
    "tab_accent_"@ + decimal(i)
}

/// The name of tab `i`'s accent bar: `tab_accent_` followed by `i` in decimal.
pub fn tab_accent_name(i: usize) -> (r: String)
    ensures
        r@ == accent_name(i as nat),
{
    let mut r = String::new();
    append_str(&mut r, "tab_accent_");
    let d = usize_to_decimal(i);
    append_str(&mut r, d.as_str());
    r
}

/// Different tabs have different accent bar names.
pub proof fn lemma_accent_names_distinct(i: nat, j: nat)
    requires
        i != j,
    ensures
        accent_name(i) != accent_name(j),
{
    if accent_name(i) == accent_name(j) {
        let k = "tab_accent_"@.len() as int;
        assert(accent_name(i).skip(k) =~= decimal(i));
        assert(accent_name(j).skip(k) =~= decimal(j));
        lemma_decimal_injective(i, j);
    }
}

} // verus!
