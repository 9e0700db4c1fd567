//! What becomes of the history of a flag.

use vstd::prelude::*;
use vstd::string::*;
use crate::db::{field_at, DbState};
use crate::dom::utilities::db::py_str;
use crate::dom::utilities::flags::{all_to, flag_counted, flags_tracked, new_counts, new_times, transitioned, FlagTables};
use crate::text::{dec, dec_int, is_digit, law_number_reads_back_from_its_text, parse_signed, trimmed};
use crate::value::{exponent_mark, json_text, truthy, DictState, Val};

verus! {

/// The history of a flag stays as it is.
pub open spec fn history_same(db: DbState, after: DbState, ft: FlagTables, port: Seq<char>, k: Seq<char>) -> bool {
    &&& field_at(after, ft.change_count, port, k) == field_at(db, ft.change_count, port, k)
    &&& field_at(after, ft.set_time, port, k) == field_at(db, ft.set_time, port, k)
    &&& field_at(after, ft.clear_time, port, k) == field_at(db, ft.clear_time, port, k)
}

/// The flag has changed: a value that is available is read, and another text is
/// published.
pub open spec fn flag_changes(db: DbState, ft: FlagTables, port: Seq<char>, k: Seq<char>, v: Val) -> bool {
    &&& field_at(db, ft.value, port, k) is Some
    &&& field_at(db, ft.value, port, k) != Some(py_str(v))
    &&& trimmed(py_str(v)) != "N/A"@
}

/// What becomes of the history of the flag `k` of a port that is read with the value
/// `v`, where it has changed `count` times so far:
/// a flag that is published for the first time has changed no times, and was neither
/// set nor cleared;
/// a flag that has changed is counted once more, from the least number on behind the
/// greatest and from one where the count is no number, and gets the time as that of its
/// setting or of its clearing, while the other time stays;
/// the history of any other flag stays.
pub open spec fn history_kept(
    db: DbState,
    after: DbState,
    ft: FlagTables,
    port: Seq<char>,
    k: Seq<char>,
    v: Val,
    count: int,
    time: Seq<char>,
) -> bool {
    let counts = field_at(db, ft.change_count, port, k);
    &&& !db.contains_key((ft.value, port)) ==> {
        &&& field_at(after, ft.change_count, port, k) == Some("0"@)
        &&& field_at(after, ft.set_time, port, k) == Some("never"@)
        &&& field_at(after, ft.clear_time, port, k) == Some("never"@)
    }
    &&& db.contains_key((ft.value, port)) && !flag_changes(db, ft, port, k, v) ==> history_same(db, after, ft, port, k)
    &&& flag_changes(db, ft, port, k, v) && counts == Some(dec_int(count)) && i64::MIN <= count < i64::MAX
        ==> field_at(after, ft.change_count, port, k) == Some(dec_int(count + 1))
    &&& flag_changes(db, ft, port, k, v) && counts == Some(dec_int(i64::MAX as int)) ==> field_at(
        after,
        ft.change_count,
        port,
        k,
    ) == Some(dec_int(i64::MIN as int))
    &&& flag_changes(db, ft, port, k, v) && (counts matches Some(c) && parse_signed(c) is None) ==> field_at(
        after,
        ft.change_count,
        port,
        k,
    ) == Some(dec_int(1))
    &&& flag_changes(db, ft, port, k, v) && counts is None && db.contains_key((ft.change_count, port)) ==> field_at(
        after,
        ft.change_count,
        port,
        k,
    ) == Some(dec_int(1))
    &&& flag_changes(db, ft, port, k, v) && db.contains_key((ft.change_count, port)) && truthy(v) ==> {
        &&& field_at(after, ft.set_time, port, k) == Some(time)
        &&& field_at(after, ft.clear_time, port, k) == field_at(db, ft.clear_time, port, k)
    }
    &&& flag_changes(db, ft, port, k, v) && db.contains_key((ft.change_count, port)) && !truthy(v) ==> {
        &&& field_at(after, ft.clear_time, port, k) == Some(time)
        &&& field_at(after, ft.set_time, port, k) == field_at(db, ft.set_time, port, k)
    }
    &&& flag_changes(db, ft, port, k, v) && !db.contains_key((ft.change_count, port)) ==> history_same(
        db,
        after,
        ft,
        port,
        k,
    )
}

/// The history of every flag that is read is kept.
pub proof fn law_flag_history_is_kept(
    db: DbState,
    port: Seq<char>,
    curr: DictState,
    time: Seq<char>,
    ft: FlagTables,
    k: Seq<char>,
    count: int,
)
    requires
        ft.distinct(),
        curr.contains_key(k),
    ensures
        history_kept(db, flags_tracked(db, port, curr, time, ft), ft, port, k, curr[k], count, time),
{
    let after = flags_tracked(db, port, curr, time, ft);
    let v = curr[k];
    if !db.contains_key((ft.value, port)) {
        assert(all_to(curr.dom(), "0"@).dom().contains(k));
        assert(all_to(curr.dom(), "never"@).dom().contains(k));
    } else {
        let row = db[(ft.value, port)];
        assert(transitioned(row, curr, k) == flag_changes(db, ft, port, k, v));
        let counts = db[(ft.change_count, port)];
        let n = new_counts(row, counts, curr, curr.dom());
        let s = new_times(row, curr, curr.dom(), true, time);
        let c = new_times(row, curr, curr.dom(), false, time);
        if transitioned(row, curr, k) && db.contains_key((ft.change_count, port)) {
            assert(n.dom().contains(k));
            if truthy(v) {
                assert(s.dom().contains(k));
                assert(!c.dom().contains(k));
            } else {
                assert(c.dom().contains(k));
                assert(!s.dom().contains(k));
            }
            law_number_reads_back_from_its_text(i64::MAX);
            if i64::MIN <= count < i64::MAX {
                law_number_reads_back_from_its_text(count as i64);
            }
        } else if !transitioned(row, curr, k) {
            assert(!n.dom().contains(k));
            assert(!s.dom().contains(k));
            assert(!c.dom().contains(k));
        }
    }
}

proof fn lemma_first_digit(n: nat)
    requires
        n > 0,
    ensures
        49 <= dec(n)[0] as int <= 57,
    decreases n,
{
    if n >= 10 {
        lemma_first_digit(n / 10);
        assert(dec(n)[0] == dec(n / 10)[0]);
    }
}

/// What counts as true: the boolean that is, a number other than zero, and a string
/// that holds anything; no value does not.
pub proof fn law_truth_of_values(n: int, s: Seq<char>)
    ensures
        truthy(Val::Bool(true)),
        !truthy(Val::Bool(false)),
        !truthy(Val::Null),
        truthy(Val::Number(dec_int(n))) == (n != 0),
        truthy(Val::Text(s)) == (s.len() > 0),
{
    let t = dec_int(n);
    if n > 0 {
        lemma_first_digit(n as nat);
        assert(49 <= t[0] as int <= 57);
    } else if n < 0 {
        lemma_first_digit((-n) as nat);
        assert(t[0] == '-' && 49 <= t[1] as int <= 57);
    }
}

/// Where a number is written with an exponent, what stands before the exponent decides
/// whether it is zero; of the digits before it, one other than zero is enough. An array or
/// an object counts as true unless nothing is in it.
pub proof fn law_truth_of_written_numbers(a: Seq<char>, mark: char, exponent: Seq<char>, i: int)
    requires
        mark == 'e' || mark == 'E',
        forall|j: int| 0 <= j < a.len() ==> #[trigger] a[j] != 'e' && a[j] != 'E',
    ensures
        truthy(Val::Number(a + seq![mark] + exponent)) == truthy(Val::Number(a)),
        0 <= i < a.len() && is_digit(a[i]) && a[i] != '0' ==> truthy(Val::Number(a)),
        (forall|j: int| 0 <= j < a.len() ==> !is_digit(#[trigger] a[j]) || a[j] == '0') ==> !truthy(Val::Number(a)),
        json_text(a) == Some("[]"@) || json_text(a) == Some("{}"@) ==> !truthy(Val::Json(a)),
        (json_text(a) matches Some(t) && t != "[]"@ && t != "{}"@) ==> truthy(Val::Json(a)),
{
    let b = a + seq![mark] + exponent;
    let n = a.len() as int;
    assert(b[n] == mark);
    assert forall|j: int| 0 <= j < n implies b[j] == a[j] by {}
    if truthy(Val::Number(b)) {
        let k = choose|k: int|
            0 <= k < b.len() && 49 <= (#[trigger] b[k] as int) <= 57 && forall|j: int|
                0 <= j < k ==> !exponent_mark(#[trigger] b[j]);
        if k > n {
            assert(exponent_mark(b[n]));
        }
        assert(a[k] == b[k]);
    }
    if truthy(Val::Number(a)) {
        let k = choose|k: int|
            0 <= k < a.len() && 49 <= (#[trigger] a[k] as int) <= 57 && forall|j: int|
                0 <= j < k ==> !exponent_mark(#[trigger] a[j]);
        assert(49 <= (b[k] as int) <= 57);
        assert forall|j: int| 0 <= j < k implies !exponent_mark(#[trigger] b[j]) by {
            assert(b[j] == a[j]);
        }
    }
}

/// A flag that has changed is counted once more, from the least number on behind the
/// greatest, and gets the time as that of its setting or of its clearing, while the other
/// time and every other flag stay. A port without counts gets none.
pub proof fn law_change_is_counted(
    db: DbState,
    port: Seq<char>,
    k: Seq<char>,
    v: Val,
    time: Seq<char>,
    ft: FlagTables,
    count: i64,
    other: Seq<char>,
)
    requires
        ft.distinct(),
        other != k,
    ensures
        ({
            let after = flag_counted(db, port, k, v, time, ft);
            let counts = field_at(db, ft.change_count, port, k);
            let kept = db.contains_key((ft.change_count, port));
            &&& !kept ==> after == db
            &&& counts == Some(dec_int(count as int)) && count < i64::MAX ==> field_at(after, ft.change_count, port, k)
                == Some(dec_int(count + 1))
            &&& counts == Some(dec_int(i64::MAX as int)) ==> field_at(after, ft.change_count, port, k) == Some(
                dec_int(i64::MIN as int),
            )
            &&& kept && counts is None ==> field_at(after, ft.change_count, port, k) == Some(dec_int(1))
            &&& kept && truthy(v) ==> field_at(after, ft.set_time, port, k) == Some(time) && field_at(
                after,
                ft.clear_time,
                port,
                k,
            ) == field_at(db, ft.clear_time, port, k)
            &&& kept && !truthy(v) ==> field_at(after, ft.clear_time, port, k) == Some(time) && field_at(
                after,
                ft.set_time,
                port,
                k,
            ) == field_at(db, ft.set_time, port, k)
            &&& history_same(db, after, ft, port, other)
            &&& field_at(after, ft.value, port, k) == field_at(db, ft.value, port, k)
        }),
{
    law_number_reads_back_from_its_text(count);
    law_number_reads_back_from_its_text(i64::MAX);
}

} // verus!
