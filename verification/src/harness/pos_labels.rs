//! The labels of a pre-signed graph's transactions, and which of them is spent.

use vstd::prelude::*;
use vstd::string::StringExecFns;

use crate::harness::text::{decimal, decimal_text, law_decimal_injective, views};

verus! {

/// The label of the claim that no valid move is at a slot.
pub open spec fn absent_text(d: u32) -> Seq<char> {
    "absent_"@ + decimal_text(d as nat)
}

/// The label of the absence claim at depth `d`.
pub fn absent_label(d: u32) -> (s: String)
    ensures
        s@ == absent_text(d),
{
    String::from_str("absent_").concat(decimal(d).as_str())
}

/// The label of the refutation of the claim-shaped output `base`.
pub fn refute_label(base: &str) -> (s: String)
    ensures
        s@ == base@ + "/refute"@,
{
    String::from_str(base).concat("/refute")
}

/// The label of the counter to the absence claim at depth `d`.
pub fn counter_label(d: u32) -> (s: String)
    ensures
        s@ == absent_text(d) + "/counter"@,
{
    absent_label(d).concat("/counter")
}

/// The label of the terminal exhibit at depth `d`.
pub fn exhibit_label(d: u32) -> (s: String)
    ensures
        s@ == "exhibit_"@ + decimal_text(d as nat),
{
    String::from_str("exhibit_").concat(decimal(d).as_str())
}

/// The label of the equivocation exhibit at depth `d`.
pub fn equiv_label(d: u32) -> (s: String)
    ensures
        s@ == "equiv_"@ + decimal_text(d as nat),
{
    String::from_str("equiv_").concat(decimal(d).as_str())
}

/// The label of the equivocation exhibit of bit `i` at depth `d`.
pub fn equiv_bit_label(d: u32, i: u32) -> (s: String)
    ensures
        s@ == "equiv_"@ + decimal_text(d as nat) + "_"@ + decimal_text(i as nat),
{
    equiv_label(d).concat("_").concat(decimal(i).as_str())
}

/// The label of a disproof.
pub fn disprove_label(name: &str) -> (s: String)
    ensures
        s@ == "disprove_"@ + name@,
{
    String::from_str("disprove_").concat(name)
}

/// The name of an outcome's code.
pub open spec fn outcome_text(code: u8) -> Seq<char> {
    match code {
        0 => "UserWins"@,
        1 => "HubWins"@,
        _ => "Draw"@,
    }
}

/// The label of the split of an output by an outcome's code.
pub fn split_label(base: &str, code: u8) -> (s: String)
    ensures
        s@ == base@ + "/split_"@ + outcome_text(code),
{
    let name: &str = match code {
        0 => "UserWins",
        1 => "HubWins",
        _ => "Draw",
    };
    String::from_str(base).concat("/split_").concat(name)
}

/// The place of a label among a graph's.
pub fn find_label(labels: &[String], label: &String) -> (r: Option<usize>)
    ensures
        match r {
            Some(i) => i < labels@.len() && labels@[i as int]@ == label@ && forall|j: int|
                0 <= j < i ==> (#[trigger] labels@[j])@ != label@,
            None => forall|j: int| 0 <= j < labels@.len() ==> (#[trigger] labels@[j])@ != label@,
        },
{
    for i in 0..labels.len()
        invariant
            forall|j: int| 0 <= j < i ==> (#[trigger] labels@[j])@ != label@,
    {
        if labels[i] == *label {
            return Some(i);
        }
    }
    None
}

/// Which of the leaves that fire is spent: the preferred one if it fires, else the
/// first; none if none fires.
pub open spec fn disproof_spec(firing: Seq<Seq<char>>, prefer: Seq<char>) -> Option<Seq<char>> {
    if firing.len() == 0 {
        None
    } else if firing.contains(prefer) {
        Some(prefer)
    } else {
        Some(firing[0])
    }
}

/// Which of the leaves that fire is spent.
pub fn choose_disproof(firing: &[String], prefer: &String) -> (r: Option<String>)
    ensures
        match disproof_spec(views(firing@), prefer@) {
            Some(name) => r matches Some(s) && s@ == name,
            None => r is None,
        },
{
    let ghost all = views(firing@);
    if firing.len() == 0 {
        return None;
    }
    match find_label(firing, prefer) {
        Some(i) => {
            assert(all[i as int] == prefer@);
            Some(prefer.clone())
        },
        None => {
            assert(!all.contains(prefer@)) by {
                if all.contains(prefer@) {
                    let k = choose|k: int| 0 <= k < all.len() && all[k] == prefer@;
                    assert(firing@[k]@ == prefer@);
                }
            }
            Some(firing[0].clone())
        },
    }
}

/// Claims at different depths have different labels.
pub proof fn law_absent_labels_differ(a: u32, b: u32)
    requires
        absent_text(a) == absent_text(b),
    ensures
        a == b,
{
    let n = "absent_"@.len() as int;
    assert(absent_text(a).skip(n) =~= decimal_text(a as nat));
    assert(absent_text(b).skip(n) =~= decimal_text(b as nat));
    law_decimal_injective(a as nat, b as nat);
}

} // verus!
