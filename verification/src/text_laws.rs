//! What holds of the texts that are taken apart and put together.

use vstd::prelude::*;
use vstd::string::*;
use crate::text::{
    all_digits, blank, dec, digit, digits_value, filled, holds_text, is_digit, lemma_dec_reads_back, lower, lowercase,
    lt_from, nuls_cut, parse_signed, parse_unsigned, parts, stands_at, str_lt, suffix_cut, trimmed, trimmed_end,
    trimmed_start, upper, uppercase, value_of, white, without, without_from,
};

verus! {

/// The entries with a comma between each two.
pub open spec fn comma_joined(entries: Seq<Seq<char>>) -> Seq<char>
    decreases entries.len(),
{
    if entries.len() == 0 {
        Seq::empty()
    } else if entries.len() == 1 {
        entries[0]
    } else {
        comma_joined(entries.drop_last()) + seq![','] + entries.last()
    }
}

/// `e` holds a character that is no white space.
pub open spec fn inked(e: Seq<char>) -> bool {
    exists|i: int| 0 <= i < e.len() && !white(#[trigger] e[i])
}

/// Every printable ASCII character is ink; the blank, the tab and the line ends are
/// white space.
pub proof fn law_printable_characters_are_ink(c: char)
    ensures
        33 <= c as int <= 126 ==> !white(c),
        c == ' ' || c == '\t' || c == '\n' || c == '\r' ==> white(c),
{
}

proof fn lemma_parts_some(s: Seq<char>)
    ensures
        parts(s).len() > 0,
    decreases s.len(),
{
    if s.len() > 0 {
        lemma_parts_some(s.drop_last());
    }
}

proof fn lemma_parts_extend(s: Seq<char>, e: Seq<char>)
    requires
        !e.contains(','),
    ensures
        parts(s + e) == parts(s).drop_last().push(parts(s).last() + e),
    decreases e.len(),
{
    lemma_parts_some(s);
    if e.len() == 0 {
        assert(s + e =~= s);
        assert(parts(s).last() + e =~= parts(s).last());
        assert(parts(s) =~= parts(s).drop_last().push(parts(s).last()));
    } else {
        let d = e.drop_last();
        assert forall|c: char| d.contains(c) implies e.contains(c) by {
            let i = d.index_of(c);
            assert(e[i] == c);
        }
        lemma_parts_extend(s, d);
        assert((s + e).drop_last() =~= s + d);
        assert(e.contains(e.last()));
        assert((parts(s).last() + d).push(e.last()) =~= parts(s).last() + e);
        let p = parts(s).drop_last().push(parts(s).last() + d);
        assert(p.drop_last() =~= parts(s).drop_last());
    }
}

/// A list that was put together with commas is taken apart into its entries.
pub proof fn law_commas_part_a_list(entries: Seq<Seq<char>>)
    requires
        entries.len() > 0,
        forall|i: int| 0 <= i < entries.len() ==> !(#[trigger] entries[i]).contains(','),
    ensures
        parts(comma_joined(entries)) == entries,
    decreases entries.len(),
{
    let s = comma_joined(entries);
    let last = entries.last();
    assert(!entries[entries.len() - 1].contains(','));
    if entries.len() == 1 {
        let none = Seq::<char>::empty();
        lemma_parts_extend(none, last);
        assert(none + last =~= last);
        assert(parts(none) =~= seq![none]);
        assert(parts(s) =~= entries);
    } else {
        let d = entries.drop_last();
        assert forall|i: int| 0 <= i < d.len() implies !(#[trigger] d[i]).contains(',') by {
            assert(d[i] == entries[i]);
        }
        law_commas_part_a_list(d);
        let head = comma_joined(d) + seq![','];
        assert(head.drop_last() =~= comma_joined(d));
        assert(parts(head) == d.push(Seq::empty()));
        lemma_parts_extend(head, last);
        assert(Seq::<char>::empty() + last =~= last);
        assert(parts(head).drop_last() =~= d);
        assert(d.push(last) =~= entries);
    }
}

/// The parts that are counted are those with ink.
pub proof fn law_parts_with_ink_are_counted(p: Seq<Seq<char>>)
    ensures
        filled(p) == p.filter(|e: Seq<char>| inked(e)).len(),
    decreases p.len(),
{
    let ink = |e: Seq<char>| inked(e);
    reveal(Seq::filter);
    if p.len() > 0 {
        law_parts_with_ink_are_counted(p.drop_last());
        let last = p.last();
        assert(blank(last) == !inked(last)) by {
            if !inked(last) {
                assert(forall|i: int| 0 <= i < last.len() ==> white(#[trigger] last[i]));
            }
        }
    }
}

/// An ending is cut off exactly where it stands at the end, and what is left is what
/// stood before it.
pub proof fn law_ending_is_cut(v: Seq<char>, ending: Seq<char>, s: Seq<char>)
    ensures
        suffix_cut(v + ending, ending) == Some(v),
        suffix_cut(s, ending) matches Some(t) ==> s == t + ending,
        suffix_cut(s, ending) is None ==> s.len() < ending.len() || s.skip(s.len() - ending.len()) != ending,
{
    let whole = v + ending;
    assert(whole.subrange(whole.len() - ending.len(), whole.len() as int) =~= ending);
    assert(whole.take(whole.len() - ending.len()) =~= v);
    if suffix_cut(s, ending) is Some {
        assert(s =~= s.take(s.len() - ending.len()) + ending) by {
            assert(s.subrange(s.len() - ending.len(), s.len() as int) =~= ending);
        }
    } else if s.len() >= ending.len() {
        assert(s.skip(s.len() - ending.len()) =~= s.subrange(s.len() - ending.len(), s.len() as int));
    }
}

/// White space behind a text is cut off, and nothing else.
pub proof fn law_white_space_behind_is_cut(t: Seq<char>, pad: Seq<char>)
    requires
        t.len() == 0 || !white(t.last()),
        forall|i: int| 0 <= i < pad.len() ==> white(#[trigger] pad[i]),
    ensures
        trimmed_end(t + pad) == t,
    decreases pad.len(),
{
    if pad.len() == 0 {
        assert(t + pad =~= t);
    } else {
        let d = pad.drop_last();
        assert forall|i: int| 0 <= i < d.len() implies white(#[trigger] d[i]) by {
            assert(d[i] == pad[i]);
        }
        law_white_space_behind_is_cut(t, d);
        assert((t + pad).drop_last() =~= t + d);
        assert(white(pad[pad.len() - 1]));
    }
}

/// White space around a text is cut off, and nothing else.
pub proof fn law_white_space_around_is_cut(before: Seq<char>, t: Seq<char>, behind: Seq<char>)
    requires
        t.len() > 0 && !white(t[0]) && !white(t.last()),
        forall|i: int| 0 <= i < before.len() ==> white(#[trigger] before[i]),
        forall|i: int| 0 <= i < behind.len() ==> white(#[trigger] behind[i]),
    ensures
        trimmed(before + t + behind) == t,
    decreases before.len(),
{
    let s = before + t + behind;
    if before.len() == 0 {
        assert(s =~= t + behind);
        assert(s[0] == t[0]);
        assert(trimmed_start(s) == s);
        law_white_space_behind_is_cut(t, behind);
    } else {
        let d = before.drop_first();
        assert forall|i: int| 0 <= i < d.len() implies white(#[trigger] d[i]) by {
            assert(d[i] == before[i + 1]);
        }
        law_white_space_around_is_cut(d, t, behind);
        assert(s.drop_first() =~= d + t + behind);
        assert(s[0] == before[0] && white(before[0]));
        assert(trimmed_start(s) == trimmed_start(s.drop_first()));
    }
}

/// NUL characters behind a text are cut off, and nothing else.
pub proof fn law_nuls_behind_are_cut(t: Seq<char>, pad: Seq<char>)
    requires
        t.len() == 0 || t.last() != '\0',
        forall|i: int| 0 <= i < pad.len() ==> #[trigger] pad[i] == '\0',
    ensures
        nuls_cut(t + pad) == t,
    decreases pad.len(),
{
    if pad.len() == 0 {
        assert(t + pad =~= t);
    } else {
        let d = pad.drop_last();
        assert forall|i: int| 0 <= i < d.len() implies #[trigger] d[i] == '\0' by {
            assert(d[i] == pad[i]);
        }
        law_nuls_behind_are_cut(t, d);
        assert((t + pad).drop_last() =~= t + d);
        assert(pad[pad.len() - 1] == '\0');
    }
}

proof fn lemma_without_none(s: Seq<char>, p: Seq<char>, i: int)
    requires
        0 <= i <= s.len(),
        forall|j: int| i <= j ==> !#[trigger] stands_at(s, p, j),
    ensures
        without_from(s, p, i) == s.skip(i),
    decreases s.len() - i,
{
    if i < s.len() {
        lemma_without_none(s, p, i + 1);
        assert(!stands_at(s, p, i));
        assert(seq![s[i]] + s.skip(i + 1) =~= s.skip(i));
    } else {
        assert(s.skip(i) =~= Seq::<char>::empty());
    }
}

proof fn lemma_without_from(s: Seq<char>, p: Seq<char>, i: int, n: int)
    requires
        0 <= i <= n,
        p.len() > 0,
        stands_at(s, p, n),
        forall|j: int| #[trigger] stands_at(s, p, j) ==> j == n,
    ensures
        without_from(s, p, i) == s.subrange(i, n) + s.skip(n + p.len()),
    decreases n - i,
{
    if i == n {
        lemma_without_none(s, p, n + p.len());
        assert(s.subrange(n, n) + s.skip(n + p.len()) =~= s.skip(n + p.len()));
    } else {
        assert(!stands_at(s, p, i));
        lemma_without_from(s, p, i + 1, n);
        assert(seq![s[i]] + (s.subrange(i + 1, n) + s.skip(n + p.len())) =~= s.subrange(i, n) + s.skip(n + p.len()));
    }
}

/// A text that stands once in another is found there, and leaving it out puts what is
/// before and what is behind it together. A text that stands nowhere leaves nothing out.
pub proof fn law_leaving_out_joins_the_rest(a: Seq<char>, p: Seq<char>, b: Seq<char>, s: Seq<char>)
    requires
        p.len() > 0,
        forall|j: int| #[trigger] stands_at(a + p + b, p, j) ==> j == a.len(),
    ensures
        holds_text(a + p + b, p),
        without(a + p + b, p) == a + b,
        !holds_text(s, p) ==> without(s, p) == s,
{
    let whole = a + p + b;
    assert(whole.subrange(a.len() as int, (a.len() + p.len()) as int) =~= p);
    assert(stands_at(whole, p, a.len() as int));
    lemma_without_from(whole, p, 0, a.len() as int);
    assert(whole.subrange(0, a.len() as int) =~= a);
    assert(whole.skip((a.len() + p.len()) as int) =~= b);
    if !holds_text(s, p) {
        lemma_without_none(s, p, 0);
        assert(s.skip(0) =~= s);
    }
}

/// The letters change between lower and upper case in the order of the alphabet, and
/// every other ASCII character stays.
pub proof fn law_letters_change_case(i: int, c: char)
    requires
        0 <= i < 26,
        (c as int) < 128,
    ensures
        uppercase(seq!["abcdefghijklmnopqrstuvwxyz"@[i]]) == seq!["ABCDEFGHIJKLMNOPQRSTUVWXYZ"@[i]],
        lowercase(seq!["ABCDEFGHIJKLMNOPQRSTUVWXYZ"@[i]]) == seq!["abcdefghijklmnopqrstuvwxyz"@[i]],
        !"abcdefghijklmnopqrstuvwxyz"@.contains(c) ==> uppercase(seq![c]) == seq![c],
        !"ABCDEFGHIJKLMNOPQRSTUVWXYZ"@.contains(c) ==> lowercase(seq![c]) == seq![c],
{
    reveal_strlit("abcdefghijklmnopqrstuvwxyz");
    reveal_strlit("ABCDEFGHIJKLMNOPQRSTUVWXYZ");
    let small = "abcdefghijklmnopqrstuvwxyz"@;
    let great = "ABCDEFGHIJKLMNOPQRSTUVWXYZ"@;
    assert(forall|k: int| 0 <= k < 26 ==> #[trigger] small[k] as int == 97 + k);
    assert(forall|k: int| 0 <= k < 26 ==> #[trigger] great[k] as int == 65 + k);
    assert(uppercase(seq![small[i]]) =~= seq![great[i]]);
    assert(lowercase(seq![great[i]]) =~= seq![small[i]]);
    if 97 <= c as int <= 122 {
        assert(small[c as int - 97] == c);
    }
    if 65 <= c as int <= 90 {
        assert(great[c as int - 65] == c);
    }
    assert(upper(c) != c ==> small.contains(c));
    assert(lower(c) != c ==> great.contains(c));
    assert(!small.contains(c) ==> uppercase(seq![c]) =~= seq![c]);
    assert(!great.contains(c) ==> lowercase(seq![c]) =~= seq![c]);
}

/// An ASCII text changes case character by character.
pub proof fn law_case_changes_each_character(a: Seq<char>, b: Seq<char>)
    requires
        forall|i: int| 0 <= i < a.len() ==> (#[trigger] a[i] as int) < 128,
        forall|i: int| 0 <= i < b.len() ==> (#[trigger] b[i] as int) < 128,
    ensures
        uppercase(a + b) == uppercase(a) + uppercase(b),
        lowercase(a + b) == lowercase(a) + lowercase(b),
        uppercase(a).len() == a.len() && lowercase(a).len() == a.len(),
{
    assert(uppercase(a + b) =~= uppercase(a) + uppercase(b));
    assert(lowercase(a + b) =~= lowercase(a) + lowercase(b));
}

/// The decimal text of a number: one digit below ten, and else that of its tens with
/// the digit of its ones behind it.
pub proof fn law_decimal_text_grows_by_digits(n: nat, ones: nat)
    requires
        ones < 10,
    ensures
        dec(ones) == seq!["0123456789"@[ones as int]],
        n > 0 ==> dec(10 * n + ones) == dec(n) + seq!["0123456789"@[ones as int]],
{
    reveal_strlit("0123456789");
    let digits = "0123456789"@;
    assert(forall|k: int| 0 <= k < 10 ==> #[trigger] digits[k] as int == 48 + k);
    assert(digit(ones as int) == digits[ones as int]);
    if n > 0 {
        assert((10 * n + ones) / 10 == n);
        assert((10 * n + ones) % 10 == ones);
        assert(dec(10 * n + ones) =~= dec(n) + seq![digits[ones as int]]);
    }
}

proof fn lemma_zero_ahead(s: Seq<char>)
    requires
        s.len() > 0,
        all_digits(s),
    ensures
        digits_value(seq!['0'] + s) == digits_value(s),
    decreases s.len(),
{
    let z = seq!['0'] + s;
    assert forall|i: int| 0 <= i < z.len() implies is_digit(#[trigger] z[i]) by {
        if i > 0 {
            assert(z[i] == s[i - 1]);
        }
    }
    assert(z.drop_last() =~= seq!['0'] + s.drop_last());
    if s.len() > 1 {
        let d = s.drop_last();
        assert forall|i: int| 0 <= i < d.len() implies is_digit(#[trigger] d[i]) by {
            assert(d[i] == s[i]);
        }
        lemma_zero_ahead(d);
    } else {
        assert(s.drop_last() =~= Seq::<char>::empty());
        assert(z.drop_last() =~= seq!['0']);
        assert(seq!['0'].drop_last() =~= Seq::<char>::empty());
        reveal_with_fuel(value_of, 3);
    }
}

/// A number is read from its decimal text, with or without a plus sign, and with zeros
/// ahead, where it is not too great; a text that holds anything else is no number.
pub proof fn law_numbers_are_read(n: nat, max: nat, s: Seq<char>, i: int)
    ensures
        parse_unsigned(dec(n), max) == if n <= max {
            Some(n)
        } else {
            None
        },
        parse_unsigned(seq!['+'] + dec(n), max) == parse_unsigned(dec(n), max),
        parse_unsigned(seq!['0'] + dec(n), max) == parse_unsigned(dec(n), max),
        s.len() == 0 ==> parse_unsigned(s, max) is None,
        0 <= i < s.len() && !is_digit(s[i]) && (i > 0 || s[i] != '+') ==> parse_unsigned(s, max) is None,
{
    lemma_dec_reads_back(n);
    let t = dec(n);
    assert(is_digit(t[0]));
    assert((seq!['+'] + t).skip(1) =~= t);
    lemma_zero_ahead(t);
    if 0 <= i < s.len() && !is_digit(s[i]) && (i > 0 || s[i] != '+') {
        if s[0] == '+' {
            assert(s.skip(1)[i - 1] == s[i]);
        }
    }
}

/// A negative number is read from a minus sign and its decimal text.
pub proof fn law_negative_numbers_are_read(n: nat)
    requires
        n <= 0x8000_0000_0000_0000,
    ensures
        parse_signed(seq!['-'] + dec(n)) == Some(-(n as int)),
        n <= 0x7fff_ffff_ffff_ffff ==> parse_signed(dec(n)) == Some(n as int),
{
    lemma_dec_reads_back(n);
    assert(is_digit(dec(n)[0]));
    assert((seq!['-'] + dec(n)).skip(1) =~= dec(n));
}

proof fn lemma_common_head(c: Seq<char>, a: Seq<char>, b: Seq<char>, i: int)
    requires
        0 <= i <= c.len(),
    ensures
        lt_from(c + a, c + b, i) == lt_from(c + a, c + b, c.len() as int),
    decreases c.len() - i,
{
    if i < c.len() {
        lemma_common_head(c, a, b, i + 1);
        assert((c + a)[i] == (c + b)[i]);
    }
}

/// Texts are ordered by the first character in which they differ, and a text that another
/// one goes on from comes before it.
pub proof fn law_texts_are_in_the_order_of_their_characters(
    c: Seq<char>,
    x: char,
    y: char,
    a: Seq<char>,
    b: Seq<char>,
)
    ensures
        x != y ==> str_lt(c + seq![x] + a, c + seq![y] + b) == ((x as int) < (y as int)),
        str_lt(c, c + seq![y] + b),
        !str_lt(c + seq![y] + b, c),
        !str_lt(c, c),
{
    let n = c.len() as int;
    let xa = seq![x] + a;
    let yb = seq![y] + b;
    let none = Seq::<char>::empty();
    assert(c + seq![x] + a =~= c + xa);
    assert(c + seq![y] + b =~= c + yb);
    assert(c + none =~= c);
    lemma_common_head(c, xa, yb, 0);
    lemma_common_head(c, none, yb, 0);
    lemma_common_head(c, yb, none, 0);
    lemma_common_head(c, none, none, 0);
    assert((c + xa)[n] == x && (c + yb)[n] == y);
}

} // verus!
