//! In which order names come.

use vstd::prelude::*;
use vstd::string::*;
use crate::text::{all_ascii, all_digits, dec, is_digit, lemma_dec_reads_back, lower, lowercase};
use crate::text_laws::law_case_changes_each_character;
use crate::xcvrd_utilities::natural::{
    after, law_natural_order_is_an_order, law_numbered_names_follow_their_numbers, natural, natural_from, run_end,
    Order,
};

verus! {

proof fn lemma_same_start(a: Seq<char>, b: Seq<char>, n: int, i: int)
    requires
        0 <= i <= n <= a.len(),
        n <= b.len(),
        forall|k: int| 0 <= k < n ==> a[k] == b[k] && !is_digit(#[trigger] a[k]),
    ensures
        natural_from(a, b, i, i) == natural_from(a, b, n, n),
    decreases n - i,
{
    if i < n {
        lemma_same_start(a, b, n, i + 1);
        assert(!is_digit(a[i]));
    }
}

/// Names without numbers come in the order of the first character in which they differ,
/// and a name that another one goes on from comes before it.
pub proof fn law_letters_decide(c: Seq<char>, x: char, y: char, a: Seq<char>, b: Seq<char>)
    requires
        forall|k: int| 0 <= k < c.len() ==> !is_digit(#[trigger] c[k]),
        !is_digit(x),
        !is_digit(y),
    ensures
        (x as int) < (y as int) ==> natural(c + seq![x] + a, c + seq![y] + b) == Order::Less,
        (x as int) > (y as int) ==> natural(c + seq![x] + a, c + seq![y] + b) == Order::Greater,
        natural(c, c + seq![y] + b) == Order::Less,
        natural(c + seq![y] + b, c) == Order::Greater,
{
    let n = c.len() as int;
    let l = c + seq![x] + a;
    let r = c + seq![y] + b;
    assert forall|k: int| 0 <= k < n implies l[k] == r[k] && !is_digit(#[trigger] l[k]) by {
        assert(l[k] == c[k]);
    }
    assert forall|k: int| 0 <= k < n implies c[k] == r[k] && !is_digit(#[trigger] c[k]) by {}
    assert forall|k: int| 0 <= k < n implies r[k] == c[k] && !is_digit(#[trigger] r[k]) by {
        assert(r[k] == c[k]);
    }
    assert(l[n] == x && r[n] == y);
    lemma_same_start(l, r, n, 0);
    lemma_same_start(c, r, n, 0);
    lemma_same_start(r, c, n, 0);
}

proof fn lemma_run_ends(s: Seq<char>, i: int, end: int)
    requires
        0 <= i <= end <= s.len(),
        forall|k: int| i <= k < end ==> is_digit(#[trigger] s[k]),
        end < s.len() ==> !is_digit(s[end]),
    ensures
        run_end(s, i) == end,
    decreases end - i,
{
    if i < end {
        lemma_run_ends(s, i + 1, end);
    }
}

/// Numbers in names are compared as numbers, whatever comes behind them.
pub proof fn law_numbers_decide(c: Seq<char>, m: nat, n: nat, a: Seq<char>, b: Seq<char>)
    requires
        forall|k: int| 0 <= k < c.len() ==> !is_digit(#[trigger] c[k]),
        a.len() == 0 || !is_digit(a[0]),
        b.len() == 0 || !is_digit(b[0]),
    ensures
        m < n ==> natural(c + dec(m) + a, c + dec(n) + b) == Order::Less,
        m > n ==> natural(c + dec(m) + a, c + dec(n) + b) == Order::Greater,
{
    let l = c + dec(m) + a;
    let r = c + dec(n) + b;
    let at = c.len() as int;
    lemma_dec_reads_back(m);
    lemma_dec_reads_back(n);
    let le = at + dec(m).len();
    let re = at + dec(n).len();
    assert forall|k: int| 0 <= k < at implies l[k] == r[k] && !is_digit(#[trigger] l[k]) by {
        assert(l[k] == c[k]);
    }
    lemma_same_start(l, r, at, 0);
    assert forall|k: int| at <= k < le implies is_digit(#[trigger] l[k]) by {
        assert(l[k] == dec(m)[k - at]);
    }
    assert forall|k: int| at <= k < re implies is_digit(#[trigger] r[k]) by {
        assert(r[k] == dec(n)[k - at]);
    }
    if a.len() > 0 {
        assert(l[le] == a[0]);
    }
    if b.len() > 0 {
        assert(r[re] == b[0]);
    }
    lemma_run_ends(l, at, le);
    lemma_run_ends(r, at, re);
    assert(l.subrange(at, le) =~= dec(m));
    assert(r.subrange(at, re) =~= dec(n));
    assert(is_digit(l[at]) && is_digit(r[at]));
}

/// The front-panel ports come in the order of their numbers.
pub proof fn law_ports_follow_their_numbers(a: nat, b: nat)
    ensures
        after("Ethernet"@ + dec(a), "Ethernet"@ + dec(b)) == (a > b),
{
    reveal_strlit("Ethernet");
    lemma_small(a);
    lemma_small(b);
    let e = lowercase("Ethernet"@);
    assert(all_ascii("Ethernet"@));
    assert(e =~= "Ethernet"@.map_values(|c: char| lower(c)));
    assert forall|k: int| 0 <= k < e.len() implies !is_digit(#[trigger] e[k]) by {
        assert(e[k] == lower("Ethernet"@[k]));
    }
    law_numbered_names_follow_their_numbers(e, a, b);
}

proof fn lemma_small(n: nat)
    ensures
        lowercase("Ethernet"@ + dec(n)) == lowercase("Ethernet"@) + dec(n),
{
    reveal_strlit("Ethernet");
    lemma_dec_reads_back(n);
    let t = dec(n);
    assert(all_digits(t));
    assert forall|i: int| 0 <= i < t.len() implies (#[trigger] t[i] as int) < 128 by {
        assert(is_digit(t[i]));
    }
    law_case_changes_each_character("Ethernet"@, t);
    assert(all_ascii(t));
    assert(lowercase(t) =~= t) by {
        assert forall|i: int| 0 <= i < t.len() implies lower(t[i]) == t[i] by {
            assert(is_digit(t[i]));
        }
    }
}

/// Whether a name comes after another does not depend on the case of their letters, and
/// two names do not both come after one another.
pub proof fn law_case_does_not_matter(a: Seq<char>, b: Seq<char>, c: Seq<char>)
    requires
        lowercase(a) == lowercase(b),
    ensures
        after(a, c) == after(b, c),
        after(c, a) == after(c, b),
        !(after(a, c) && after(c, a)),
{
    law_natural_order_is_an_order(lowercase(a), lowercase(c), lowercase(a));
}

} // verus!
