//! Names of the properties that carry conversion replies: `REPEAT_0`,
//! `REPEAT_1`, and so on.
use vstd::prelude::*;
use vstd::relations::injective_on;
use vstd::set_lib::{lemma_int_range, lemma_len_subset, lemma_map_size, set_int_range};

use crate::atoms::has_name;

verus! {

/// The character of a decimal digit.
pub open spec fn digit_char(d: nat) -> char {
    if d == 0 {
        '0'
    } else if d == 1 {
        '1'
    } else if d == 2 {
        '2'
    } else if d == 3 {
        '3'
    } else if d == 4 {
        '4'
    } else if d == 5 {
        '5'
    } else if d == 6 {
        '6'
    } else if d == 7 {
        '7'
    } else if d == 8 {
        '8'
    } else {
        '9'
    }
}

/// The decimal digits of `n`, without leading zeros.
pub open spec fn decimal(n: nat) -> Seq<char>
    decreases n,
{
    if n < 10 {
        seq![digit_char(n)]
    } else {
        decimal(n / 10).push(digit_char(n % 10))
    }
}

/// The prefix of the property names.
pub open spec fn property_prefix() -> Seq<char> {
    seq!['R', 'E', 'P', 'E', 'A', 'T', '_']
}

/// The name of the `n`-th property.
pub open spec fn property_name(n: nat) -> Seq<char> {
    property_prefix() + decimal(n)
}

/// Relies on `String::push`: appends `c`.
#[verifier::external_body]
pub(crate) fn push_char(s: &mut String, c: char)
    ensures
        final(s)@ == old(s)@.push(c),
{
    s.push(c)
}

fn digit(d: usize) -> (r: char)
    requires
        d < 10,
    ensures
        r == digit_char(d as nat),
{
    if d == 0 {
        '0'
    } else if d == 1 {
        '1'
    } else if d == 2 {
        '2'
    } else if d == 3 {
        '3'
    } else if d == 4 {
        '4'
    } else if d == 5 {
        '5'
    } else if d == 6 {
        '6'
    } else if d == 7 {
        '7'
    } else if d == 8 {
        '8'
    } else {
        '9'
    }
}

/// Appends the decimal digits of `n` to `s`.
fn push_decimal(s: &mut String, n: usize)
    ensures
        final(s)@ == old(s)@ + decimal(n as nat),
    decreases n,
{
    if n >= 10 {
        push_decimal(s, n / 10);
    }
    push_char(s, digit(n % 10));
    assert(final(s)@ =~= old(s)@ + decimal(n as nat));
}

/// `prefix` followed by the decimal digits of `n`.
pub fn with_number(prefix: &str, n: usize) -> (r: String)
    ensures
        r@ == prefix@ + decimal(n as nat),
{
    let mut s = prefix.to_owned();
    push_decimal(&mut s, n);
    s
}

proof fn lemma_decimal_len(n: nat)
    ensures
        decimal(n).len() >= 1,
        n >= 10 ==> decimal(n).len() >= 2,
    decreases n,
{
    if n >= 10 {
        lemma_decimal_len(n / 10);
    }
}

/// Different numbers have different decimal digits.
pub proof fn lemma_decimal_injective(a: nat, b: nat)
    requires
        decimal(a) == decimal(b),
    ensures
        a == b,
    decreases a,
{
    lemma_decimal_len(a);
    lemma_decimal_len(b);
    if a < 10 && b < 10 {
        assert(decimal(a)[0] == digit_char(a));
        assert(decimal(b)[0] == digit_char(b));
    } else if a >= 10 && b >= 10 {
        let da = decimal(a / 10);
        let db = decimal(b / 10);
        assert(decimal(a).last() == digit_char(a % 10));
        assert(decimal(b).last() == digit_char(b % 10));
        assert(decimal(a).drop_last() =~= da);
        assert(decimal(b).drop_last() =~= db);
        lemma_decimal_injective(a / 10, b / 10);
    }
}

/// Different numbers give different property names.
pub proof fn lemma_property_name_injective(a: nat, b: nat)
    requires
        property_name(a) == property_name(b),
    ensures
        a == b,
{
    let p = property_prefix();
    assert(property_name(a).subrange(p.len() as int, property_name(a).len() as int) =~= decimal(a));
    assert(property_name(b).subrange(p.len() as int, property_name(b).len() as int) =~= decimal(b));
    lemma_decimal_injective(a, b);
}

/// A table with one entry per name holds at most as many property names as
/// it has entries.
pub proof fn lemma_names_fit(e: Seq<(Seq<char>, u32)>, k: nat)
    requires
        forall|i: int, j: int| 0 <= i < j < e.len() ==> e[i].0 != e[j].0,
        forall|m: nat| m < k ==> has_name(e, #[trigger] property_name(m)),
    ensures
        k <= e.len(),
{
    let f = |m: int| choose|i: int| 0 <= i < e.len() && e[i].0 == property_name(m as nat);
    let x = set_int_range(0, k as int);
    let y = x.map(f);
    lemma_int_range(0, k as int);
    assert forall|m: int| x.contains(m) implies 0 <= #[trigger] f(m) < e.len() && e[f(m)].0
        == property_name(m as nat) by {
        assert(has_name(e, property_name(m as nat)));
    }
    assert(injective_on(f, x)) by {
        assert forall|m1: int, m2: int|
            x.contains(m1) && x.contains(m2) && #[trigger] f(m1) == #[trigger] f(m2) implies m1
            == m2 by {
            lemma_property_name_injective(m1 as nat, m2 as nat);
        }
    }
    lemma_map_size(x, y, f);
    lemma_int_range(0, e.len() as int);
    assert(y.subset_of(set_int_range(0, e.len() as int)));
    lemma_len_subset(y, set_int_range(0, e.len() as int));
}

} // verus!
