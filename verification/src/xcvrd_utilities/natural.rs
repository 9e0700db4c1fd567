//! The natural order of port names, in which runs of digits compare as numbers.

use vstd::prelude::*;
use crate::text::{chars_of, dec, is_digit, lemma_dec_reads_back, lowercase, to_lowercase, value_of};

verus! {

/// How one name stands to another.
#[derive(Debug, Clone, Copy, PartialEq, Eq, Structural)]
pub enum Order {
    Less,
    Equal,
    Greater,
}

/// Where the run of digits at `i` ends.
pub open spec fn run_end(s: Seq<char>, i: int) -> int
    decreases s.len() - i,
{
    if 0 <= i < s.len() && is_digit(s[i]) {
        run_end(s, i + 1)
    } else {
        i
    }
}

/// The number that the digits from `i` to `end` write.
pub open spec fn run_value(s: Seq<char>, i: int, end: int) -> nat {
    value_of(s.subrange(i, end))
}

pub proof fn lemma_run_end(s: Seq<char>, i: int)
    requires
        0 <= i <= s.len(),
    ensures
        i <= run_end(s, i) <= s.len(),
        i < s.len() && is_digit(s[i]) ==> i < run_end(s, i),
        forall|k: int| i <= k < run_end(s, i) ==> is_digit(#[trigger] s[k]),
        run_end(s, i) < s.len() ==> !is_digit(s[run_end(s, i)]),
    decreases s.len() - i,
{
    if i < s.len() && is_digit(s[i]) {
        lemma_run_end(s, i + 1);
    }
}

pub open spec fn order_of(a: int, b: int) -> Order {
    if a < b {
        Order::Less
    } else if a > b {
        Order::Greater
    } else {
        Order::Equal
    }
}

/// How `a` from `i` on stands to `b` from `j` on.
pub open spec fn natural_from(a: Seq<char>, b: Seq<char>, i: int, j: int) -> Order
    decreases a.len() - i,
{
    if i < 0 || j < 0 || (i >= a.len() && j >= b.len()) {
        Order::Equal
    } else if i >= a.len() {
        Order::Less
    } else if j >= b.len() {
        Order::Greater
    } else if is_digit(a[i]) && is_digit(b[j]) {
        let ie = run_end(a, i);
        let je = run_end(b, j);
        let o = order_of(run_value(a, i, ie) as int, run_value(b, j, je) as int);
        if o == Order::Equal && i < ie <= a.len() {
            natural_from(a, b, ie, je)
        } else {
            o
        }
    } else {
        let o = order_of(a[i] as int, b[j] as int);
        if o == Order::Equal {
            natural_from(a, b, i + 1, j + 1)
        } else {
            o
        }
    }
}

/// How `a` stands to `b` in natural order.
pub open spec fn natural(a: Seq<char>, b: Seq<char>) -> Order {
    natural_from(a, b, 0, 0)
}

fn char_is_digit(c: char) -> (r: bool)
    ensures
        r == is_digit(c),
{
    let n: u32 = c as u32;
    48 <= n && n <= 57
}

fn char_order(a: char, b: char) -> (r: Order)
    ensures
        r == order_of(a as int, b as int),
{
    if a < b {
        Order::Less
    } else if b < a {
        Order::Greater
    } else {
        Order::Equal
    }
}

/// Where the run of digits at `i` ends.
fn find_run_end(s: &Vec<char>, i: usize) -> (r: usize)
    requires
        i <= s.len(),
    ensures
        r == run_end(s@, i as int),
        i <= r <= s.len(),
{
    let mut k: usize = i;
    while k < s.len() && char_is_digit(s[k])
        invariant
            i <= k <= s.len(),
            run_end(s@, k as int) == run_end(s@, i as int),
        decreases s.len() - k,
    {
        k = k + 1;
    }
    k
}

/// The digits up to `k`, and one more.
proof fn lemma_next_digit(s: Seq<char>, i: int, k: int)
    requires
        0 <= i <= k < s.len(),
        is_digit(s[k]),
    ensures
        run_value(s, i, k + 1) == 10 * run_value(s, i, k) + (s[k] as int - 48),
        0 <= s[k] as int - 48 <= 9,
{
    assert(s.subrange(i, k + 1).drop_last() =~= s.subrange(i, k));
}

/// Compares the numbers that two runs of digits write, from their first digits on,
/// the shorter run as if zeros stood before it.
fn compare_runs(x: &Vec<char>, i: usize, ie: usize, y: &Vec<char>, j: usize, je: usize) -> (r: Order)
    requires
        i <= ie <= x.len(),
        j <= je <= y.len(),
        forall|k: int| i <= k < ie ==> is_digit(#[trigger] x@[k]),
        forall|k: int| j <= k < je ==> is_digit(#[trigger] y@[k]),
    ensures
        r == order_of(run_value(x@, i as int, ie as int) as int, run_value(y@, j as int, je as int) as int),
{
    let mut p: usize = i;
    let mut q: usize = j;
    let mut o = Order::Equal;
    proof {
        assert(x@.subrange(i as int, i as int) =~= Seq::<char>::empty());
        assert(y@.subrange(j as int, j as int) =~= Seq::<char>::empty());
    }
    while p < ie || q < je
        invariant
            i <= p <= ie <= x.len(),
            j <= q <= je <= y.len(),
            forall|k: int| i <= k < ie ==> is_digit(#[trigger] x@[k]),
            forall|k: int| j <= k < je ==> is_digit(#[trigger] y@[k]),
            ie - p > je - q ==> q == j,
            ie - p < je - q ==> p == i,
            run_value(x@, i as int, i as int) == 0,
            run_value(y@, j as int, j as int) == 0,
            o == order_of(run_value(x@, i as int, p as int) as int, run_value(y@, j as int, q as int) as int),
        decreases (ie - p) + (je - q),
    {
        let left: usize = ie - p;
        let right: usize = je - q;
        let a: char = if left >= right {
            x[p]
        } else {
            '0'
        };
        let b: char = if right >= left {
            y[q]
        } else {
            '0'
        };
        if left >= right {
            proof {
                lemma_next_digit(x@, i as int, p as int);
            }
            p = p + 1;
        }
        if right >= left {
            proof {
                lemma_next_digit(y@, j as int, q as int);
            }
            q = q + 1;
        }
        if o == Order::Equal {
            o = char_order(a, b);
        }
    }
    o
}

/// Compares two names in natural order.
pub fn natural_order(a: &str, b: &str) -> (r: Order)
    ensures
        r == natural(a@, b@),
{
    let x = chars_of(a);
    let y = chars_of(b);
    let mut i: usize = 0;
    let mut j: usize = 0;
    loop
        invariant
            x@ == a@,
            y@ == b@,
            i <= x.len(),
            j <= y.len(),
            natural_from(a@, b@, i as int, j as int) == natural(a@, b@),
        decreases x.len() - i,
    {
        if i >= x.len() {
            if j >= y.len() {
                return Order::Equal;
            }
            return Order::Less;
        }
        if j >= y.len() {
            return Order::Greater;
        }
        if char_is_digit(x[i]) && char_is_digit(y[j]) {
            let ie: usize = find_run_end(&x, i);
            let je: usize = find_run_end(&y, j);
            proof {
                lemma_run_end(a@, i as int);
                lemma_run_end(b@, j as int);
            }
            let o = compare_runs(&x, i, ie, &y, j, je);
            if o != Order::Equal {
                return o;
            }
            i = ie;
            j = je;
        } else {
            let o = char_order(x[i], y[j]);
            if o != Order::Equal {
                return o;
            }
            i = i + 1;
            j = j + 1;
        }
    }
}

/// `a` comes after `b`, whatever the case of their letters.
pub open spec fn after(a: Seq<char>, b: Seq<char>) -> bool {
    natural(lowercase(a), lowercase(b)) == Order::Greater
}

fn comes_after(a: &str, b: &str) -> (r: bool)
    ensures
        r == after(a@, b@),
{
    let x = to_lowercase(a);
    let y = to_lowercase(b);
    natural_order(x.as_str(), y.as_str()) == Order::Greater
}

/// `x` put into `s` from the right, before the names that come after it.
pub open spec fn inserted(s: Seq<Seq<char>>, x: Seq<char>) -> Seq<Seq<char>>
    decreases s.len(),
{
    if s.len() > 0 && after(s.last(), x) {
        inserted(s.drop_last(), x).push(s.last())
    } else {
        s.push(x)
    }
}

/// The names of `s` in natural order; names that compare equal keep theirs.
pub open spec fn sorted(s: Seq<Seq<char>>) -> Seq<Seq<char>>
    decreases s.len(),
{
    if s.len() == 0 {
        s
    } else {
        inserted(sorted(s.drop_last()), s.last())
    }
}

proof fn lemma_inserted_at(s: Seq<Seq<char>>, x: Seq<char>, p: int)
    requires
        0 <= p <= s.len(),
        forall|k: int| p <= k < s.len() ==> after(#[trigger] s[k], x),
        p > 0 ==> !after(s[p - 1], x),
    ensures
        inserted(s, x) == s.insert(p, x),
    decreases s.len(),
{
    if s.len() > 0 && after(s.last(), x) {
        assert(p < s.len());
        let d = s.drop_last();
        assert forall|k: int| p <= k < d.len() implies after(#[trigger] d[k], x) by {
            assert(d[k] == s[k]);
        }
        lemma_inserted_at(d, x, p);
        assert(s.insert(p, x) =~= d.insert(p, x).push(s.last()));
    } else {
        if p < s.len() {
            assert(after(s[s.len() - 1], x));
        }
        assert(s.insert(p, x) =~= s.push(x));
    }
}

/// Puts the names into natural order; names that compare equal keep theirs.
pub fn sort_names(names: &Vec<String>) -> (r: Vec<String>)
    ensures
        r.deep_view() == sorted(names.deep_view()),
{
    let mut out: Vec<String> = Vec::new();
    let mut i: usize = 0;
    let ghost all = names.deep_view();
    proof {
        assert(all.take(0) =~= Seq::<Seq<char>>::empty());
        assert(out.deep_view() =~= Seq::<Seq<char>>::empty());
    }
    while i < names.len()
        invariant
            all == names.deep_view(),
            i <= names.len(),
            out.deep_view() == sorted(all.take(i as int)),
        decreases names.len() - i,
    {
        let x: String = names[i].clone();
        let mut p: usize = out.len();
        let ghost cur = out.deep_view();
        while p > 0 && comes_after(out[p - 1].as_str(), x.as_str())
            invariant
                p <= out.len(),
                cur == out.deep_view(),
                cur.len() == out.len(),
                forall|k: int| p <= k < cur.len() ==> after(#[trigger] cur[k], x@),
            decreases p,
        {
            p = p - 1;
        }
        proof {
            lemma_inserted_at(cur, x@, p as int);
            let t = all.take(i + 1);
            assert(t.drop_last() =~= all.take(i as int));
            assert(t.last() == x@);
        }
        out.insert(p, x);
        proof {
            assert(out.deep_view() =~= cur.insert(p as int, x@));
        }
        i = i + 1;
    }
    proof {
        assert(all.take(i as int) =~= all);
    }
    out
}

/// The other way round.
pub open spec fn flipped(o: Order) -> Order {
    match o {
        Order::Less => Order::Greater,
        Order::Equal => Order::Equal,
        Order::Greater => Order::Less,
    }
}

proof fn lemma_natural_flips(a: Seq<char>, b: Seq<char>, i: int, j: int)
    requires
        0 <= i <= a.len(),
        0 <= j <= b.len(),
    ensures
        natural_from(b, a, j, i) == flipped(natural_from(a, b, i, j)),
    decreases a.len() - i,
{
    if i < a.len() && j < b.len() {
        lemma_run_end(a, i);
        lemma_run_end(b, j);
        if is_digit(a[i]) && is_digit(b[j]) {
            lemma_natural_flips(a, b, run_end(a, i), run_end(b, j));
        } else {
            lemma_natural_flips(a, b, i + 1, j + 1);
        }
    }
}

proof fn lemma_natural_trans(a: Seq<char>, b: Seq<char>, c: Seq<char>, i: int, j: int, k: int)
    requires
        0 <= i <= a.len(),
        0 <= j <= b.len(),
        0 <= k <= c.len(),
        natural_from(a, b, i, j) != Order::Greater,
        natural_from(b, c, j, k) != Order::Greater,
    ensures
        natural_from(a, c, i, k) != Order::Greater,
        natural_from(a, c, i, k) == Order::Equal ==> natural_from(a, b, i, j) == Order::Equal
            && natural_from(b, c, j, k) == Order::Equal,
    decreases a.len() - i,
{
    if i < a.len() && j < b.len() && k < c.len() {
        lemma_run_end(a, i);
        lemma_run_end(b, j);
        lemma_run_end(c, k);
        if is_digit(a[i]) && is_digit(b[j]) && is_digit(c[k]) {
            if natural_from(a, b, i, j) == natural_from(a, b, run_end(a, i), run_end(b, j))
                && natural_from(b, c, j, k) == natural_from(b, c, run_end(b, j), run_end(c, k)) {
                lemma_natural_trans(a, b, c, run_end(a, i), run_end(b, j), run_end(c, k));
            }
        } else if a[i] == b[j] && b[j] == c[k] {
            lemma_natural_trans(a, b, c, i + 1, j + 1, k + 1);
        }
    }
}

/// Natural order is an order: a name is equal to itself, two names compare the
/// other way round when they change places, and it passes along a chain.
pub proof fn law_natural_order_is_an_order(a: Seq<char>, b: Seq<char>, c: Seq<char>)
    ensures
        natural(a, a) == Order::Equal,
        natural(b, a) == flipped(natural(a, b)),
        natural(a, b) != Order::Greater && natural(b, c) != Order::Greater ==> natural(a, c)
            != Order::Greater,
{
    lemma_natural_flips(a, a, 0, 0);
    lemma_natural_flips(a, b, 0, 0);
    if natural(a, b) != Order::Greater && natural(b, c) != Order::Greater {
        lemma_natural_trans(a, b, c, 0, 0, 0);
    }
}

/// No name comes after one that stands behind it.
pub open spec fn in_natural_order(s: Seq<Seq<char>>) -> bool {
    forall|i: int, j: int| 0 <= i < j < s.len() ==> !after(#[trigger] s[i], #[trigger] s[j])
}

proof fn lemma_after_chain(a: Seq<char>, b: Seq<char>, c: Seq<char>)
    requires
        !after(a, b),
        !after(b, c),
    ensures
        !after(a, c),
{
    law_natural_order_is_an_order(lowercase(a), lowercase(b), lowercase(c));
}

/// Where a name is put in.
pub proof fn lemma_inserted_place(s: Seq<Seq<char>>, x: Seq<char>) -> (p: int)
    ensures
        0 <= p <= s.len(),
        inserted(s, x) == s.insert(p, x),
        forall|k: int| p <= k < s.len() ==> after(#[trigger] s[k], x),
        p > 0 ==> !after(s[p - 1], x),
    decreases s.len(),
{
    if s.len() > 0 && after(s.last(), x) {
        let d = s.drop_last();
        let p = lemma_inserted_place(d, x);
        assert forall|k: int| p <= k < s.len() implies after(#[trigger] s[k], x) by {
            if k < d.len() {
                assert(d[k] == s[k]);
            }
        }
        lemma_inserted_at(s, x, p);
        p
    } else {
        lemma_inserted_at(s, x, s.len() as int);
        s.len() as int
    }
}

proof fn lemma_inserted_in_order(s: Seq<Seq<char>>, x: Seq<char>)
    requires
        in_natural_order(s),
    ensures
        in_natural_order(inserted(s, x)),
{
    let p = lemma_inserted_place(s, x);
    let r = inserted(s, x);
    assert forall|i: int, j: int| 0 <= i < j < r.len() implies !after(#[trigger] r[i], #[trigger] r[j]) by {
        if j == p {
            if i < p - 1 {
                lemma_after_chain(s[i], s[p - 1], x);
            }
        } else if i == p {
            law_natural_order_is_an_order(lowercase(s[j - 1]), lowercase(x), lowercase(x));
            assert(after(s[j - 1], x));
        } else {
            let a = if i < p { i } else { i - 1 };
            let b = if j < p { j } else { j - 1 };
            assert(r[i] == s[a] && r[j] == s[b]);
        }
    }
}

/// Sorted names are in natural order, and they are the names that were sorted.
pub proof fn law_sorted_names(s: Seq<Seq<char>>)
    ensures
        in_natural_order(sorted(s)),
        sorted(s).to_multiset() == s.to_multiset(),
    decreases s.len(),
{
    if s.len() > 0 {
        let d = s.drop_last();
        law_sorted_names(d);
        lemma_inserted_in_order(sorted(d), s.last());
        let p = lemma_inserted_place(sorted(d), s.last());
        vstd::seq_lib::to_multiset_insert(sorted(d), p, s.last());
        vstd::seq_lib::to_multiset_build(d, s.last());
        assert(s =~= d.push(s.last()));
    }
}

/// Names in natural order stay as they are when they are sorted.
pub proof fn law_sorting_keeps_order(s: Seq<Seq<char>>)
    requires
        in_natural_order(s),
    ensures
        sorted(s) == s,
    decreases s.len(),
{
    if s.len() > 0 {
        let d = s.drop_last();
        assert forall|i: int, j: int| 0 <= i < j < d.len() implies !after(#[trigger] d[i], #[trigger] d[j]) by {
            assert(d[i] == s[i] && d[j] == s[j]);
        }
        law_sorting_keeps_order(d);
        if d.len() > 0 {
            assert(d.last() == s[s.len() - 2]);
            assert(!after(s[s.len() - 2], s[s.len() - 1]));
        }
        assert(inserted(d, s.last()) == d.push(s.last()));
        assert(s =~= d.push(s.last()));
    }
}

proof fn lemma_run_to_end(s: Seq<char>, i: int)
    requires
        0 <= i <= s.len(),
        forall|k: int| i <= k < s.len() ==> is_digit(#[trigger] s[k]),
    ensures
        run_end(s, i) == s.len(),
    decreases s.len() - i,
{
    if i < s.len() {
        lemma_run_to_end(s, i + 1);
    }
}

proof fn lemma_same_start(a: Seq<char>, b: Seq<char>, n: int, i: int)
    requires
        0 <= i <= n <= a.len(),
        n <= b.len(),
        forall|k: int| 0 <= k < n ==> a[k] == b[k] && !is_digit(#[trigger] a[k]),
    ensures
        natural_from(a, b, i, i) == natural_from(a, b, n, n),
    decreases n - i,
{
    if i < n {
        lemma_same_start(a, b, n, i + 1);
        assert(!is_digit(a[i]));
    }
}

/// Names that differ in the number behind them come in the order of the numbers.
pub proof fn law_numbered_names_follow_their_numbers(name: Seq<char>, a: nat, b: nat)
    requires
        forall|k: int| 0 <= k < name.len() ==> !is_digit(#[trigger] name[k]),
    ensures
        natural(name + dec(a), name + dec(b)) == order_of(a as int, b as int),
{
    let x = name + dec(a);
    let y = name + dec(b);
    let n = name.len() as int;
    lemma_dec_reads_back(a);
    lemma_dec_reads_back(b);
    assert forall|k: int| 0 <= k < n implies x[k] == y[k] && !is_digit(#[trigger] x[k]) by {
        assert(x[k] == name[k]);
    }
    lemma_same_start(x, y, n, 0);
    assert forall|k: int| n <= k < x.len() implies is_digit(#[trigger] x[k]) by {
        assert(x[k] == dec(a)[k - n]);
    }
    assert forall|k: int| n <= k < y.len() implies is_digit(#[trigger] y[k]) by {
        assert(y[k] == dec(b)[k - n]);
    }
    lemma_run_to_end(x, n);
    lemma_run_to_end(y, n);
    assert(x.subrange(n, x.len() as int) =~= dec(a));
    assert(y.subrange(n, y.len() as int) =~= dec(b));
    assert(natural_from(x, y, x.len() as int, y.len() as int) == Order::Equal);
}

} // verus!
