//! Qualified paths: how a leaf's name nests under its containers' names.

use vstd::prelude::*;
use vstd::string::StringExecFns;

verus! {

/// The path of `name` under `prefix`: `name` alone at the top level,
/// `prefix.name` below it.
pub open spec fn spec_qualify(prefix: Seq<char>, name: Seq<char>) -> Seq<char> {
    if prefix.len() == 0 {
        name
    } else {
        prefix + seq!['.'] + name
    }
}

/// `("", "title") -> "title"`, `("location", "street") -> "location.street"`.
pub fn qualify(prefix: &str, name: &str) -> (r: String)
    ensures
        r@ == spec_qualify(prefix@, name@),
{
    broadcast use vstd::string::group_string_axioms;
    if prefix.is_empty() {
        name.to_string()
    } else {
        let r = prefix.to_string();
        proof {
            reveal_strlit(".");
        }
        let r = r.concat(".");
        r.concat(name)
    }
}

/// The decimal digit `d` (for `d < 10`).
pub open spec fn digit_char(d: nat) -> char {
    if d == 0 { '0' } else if d == 1 { '1' } else if d == 2 { '2' } else if d == 3 { '3' }
    else if d == 4 { '4' } else if d == 5 { '5' } else if d == 6 { '6' } else if d == 7 { '7' }
    else if d == 8 { '8' } else { '9' }
}

/// The decimal representation of `n`, with no leading zeros: how a list row
/// is named by its index.
pub open spec fn decimal(n: nat) -> Seq<char>
    decreases n,
{
    if n < 10 {
        seq![digit_char(n)]
    } else {
        decimal(n / 10).push(digit_char(n % 10))
    }
}

fn digit_str(d: usize) -> (r: &'static str)
    requires
        d < 10,
    ensures
        r@ == seq![digit_char(d as nat)],
{
    if d == 0 {
        proof { reveal_strlit("0"); }
        "0"
    } else if d == 1 {
        proof { reveal_strlit("1"); }
        "1"
    } else if d == 2 {
        proof { reveal_strlit("2"); }
        "2"
    } else if d == 3 {
        proof { reveal_strlit("3"); }
        "3"
    } else if d == 4 {
        proof { reveal_strlit("4"); }
        "4"
    } else if d == 5 {
        proof { reveal_strlit("5"); }
        "5"
    } else if d == 6 {
        proof { reveal_strlit("6"); }
        "6"
    } else if d == 7 {
        proof { reveal_strlit("7"); }
        "7"
    } else if d == 8 {
        proof { reveal_strlit("8"); }
        "8"
    } else {
        proof { reveal_strlit("9"); }
        "9"
    }
}

/// The name of list row `n`: its index in decimal (`"0"`, `"1"`, ...).
pub fn index_name(n: usize) -> (r: String)
    ensures
        r@ == decimal(n as nat),
    decreases n,
{
    broadcast use vstd::string::group_string_axioms;
    if n < 10 {
        let d = digit_str(n);
        d.to_string()
    } else {
        let mut r = index_name(n / 10);
        r.append(digit_str(n % 10));
        proof {
            assert(r@ =~= decimal(n as nat));
        }
        r
    }
}

} // verus!
