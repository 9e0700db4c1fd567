use xcvrd::clock::{civil_from_days, format_utc};
use xcvrd::db::{Db, Row};
use xcvrd::ord_map::{IdxMap, OrdMap, StrMap, StrSet};
use xcvrd::text::{
    contains, count_filled_parts, cut_nuls, has_char, i64_text, is_text, join, parse_i64, parse_u32, parse_usize,
    remove_all, same_option, starts_with, str_less, strip_suffix, trim, trim_end, trim_start, u64_text,
};
use xcvrd::dom::utilities::db::value_to_py_str;
use xcvrd::value::{number_text_is_nonzero, py_truthy, render, Value};
use xcvrd::xcvrd_utilities::natural::{natural_order, sort_names, Order};

fn row(fields: &[(&str, &str)]) -> Row {
    let mut r: Row = OrdMap::new();
    for (k, v) in fields {
        r.insert(k.to_string(), v.to_string());
    }
    r
}

#[test]
fn rows_read_back_as_they_were_written() {
    let mut db = Db::new();
    assert!(db.get(3, "Ethernet0").is_none());
    db.set(3, "Ethernet0", &row(&[("a", "1"), ("b", "2")]));
    db.hset(3, "Ethernet0", "b", "3");
    db.set(3, "Ethernet0", &row(&[("c", "4")]));
    db.hset(4, "Ethernet0", "a", "other");
    assert_eq!(db.hget(3, "Ethernet0", "a").as_deref(), Some("1"));
    assert_eq!(db.hget(3, "Ethernet0", "b").as_deref(), Some("3"));
    assert_eq!(db.hget(3, "Ethernet0", "c").as_deref(), Some("4"));
    assert!(db.hget(3, "Ethernet0", "d").is_none());
    assert_eq!(db.get_size(3), 1);
    db.hset(3, "Ethernet4", "a", "1");
    assert_eq!(db.get_size(3), 2);
    db.del(3, "Ethernet0");
    assert!(!db.has_row(3, "Ethernet0"));
    assert!(db.has_row(3, "Ethernet4") && db.has_row(4, "Ethernet0"));
    assert_eq!(db.get_size(3), 1);
    assert_eq!(db.get_size(9), 0);
}

#[test]
fn maps_hold_their_keys_in_order() {
    let mut m: IdxMap<u64> = OrdMap::new();
    for k in [5, 1, 9, 1, 3] {
        m.insert(k, k as u64 * 10);
    }
    assert_eq!((0..m.len()).map(|i| *m.key_at(i)).collect::<Vec<usize>>(), [1, 3, 5, 9]);
    assert_eq!(*m.value_at(2), 50);
    assert_eq!(m.take(&5), Some(50));
    assert_eq!(m.take(&5), None);
    m.remove(&9);
    assert!(m.contains_key(&3) && !m.contains_key(&9));
    assert_eq!(m.get(&1), Some(&10));

    let mut a: StrMap<String> = row(&[("x", "1"), ("y", "2")]);
    a.merge(&row(&[("y", "3"), ("a", "4")]));
    assert_eq!((0..a.len()).map(|i| a.key_at(i).clone()).collect::<Vec<String>>(), ["a", "x", "y"]);
    assert_eq!(a.get_str("y").map(|s| s.as_str()), Some("3"));
    let b = a.copy();
    a.remove_str("x");
    assert!(!a.contains_str("x") && b.contains_str("x"));
}

#[test]
fn sets_hold_each_name_once() {
    let mut s = StrSet::new();
    for name in ["b", "a", "b", "c"] {
        s.insert(name);
    }
    assert_eq!(s.len(), 3);
    assert_eq!((0..3).map(|i| s.name_at(i)).collect::<Vec<String>>(), ["a", "b", "c"]);
    s.remove("b");
    s.remove("z");
    assert!(!s.contains("b") && s.contains("c"));
    let kept = s.copy();
    s.clear();
    assert!(s.is_empty() && kept.len() == 2);
}

#[test]
fn texts_are_cut_and_searched() {
    assert_eq!(trim(" \t a b \u{3000}\n"), "a b");
    assert_eq!(trim_start("  a "), "a ");
    assert_eq!(trim_end("  a "), "  a");
    assert_eq!(cut_nuls("a\0b\0\0"), "a\0b");
    assert_eq!(remove_all("aabaab", "aa"), "bb");
    assert_eq!(remove_all("aaa", "aa"), "a");
    assert_eq!(strip_suffix("3.3Volts", "Volts").as_deref(), Some("3.3"));
    assert_eq!(strip_suffix("3.3", "Volts"), None);
    assert_eq!(join("ab", "cd"), "abcd");
    assert!(starts_with("Ethernet0", "Ethernet") && !starts_with("Eth", "Ethernet"));
    assert!(contains("laser_temp_halarm", "_halarm") && !contains("lwarn", "halarm") && contains("a", ""));
    assert!(has_char("a|b", '|') && !has_char("ab", '|'));
    assert!(is_text(&Some("x".to_string()), "x") && !is_text(&None, "") && !is_text(&Some("y".to_string()), "x"));
    assert!(same_option(&None, &None) && !same_option(&None, &Some(String::new())));
    assert_eq!(count_filled_parts("a,,b, ,c"), 3);
    assert!(str_less("a", "b") && str_less("a", "aa") && !str_less("b", "a") && !str_less("a", "a"));
    assert!(str_less("Z", "a") && str_less("", "a"));
}

#[test]
fn numbers_are_written_and_read_back() {
    for n in [0, 7, 10, 1_000_000_007, u64::MAX] {
        assert_eq!(u64_text(n), n.to_string());
    }
    for n in [0, -1, 42, i64::MIN, i64::MAX] {
        assert_eq!(i64_text(n), n.to_string());
        assert_eq!(parse_i64(&i64_text(n)), Some(n));
    }
    assert_eq!(parse_u32("4294967295"), Some(u32::MAX));
    assert_eq!(parse_u32("4294967296"), None);
    assert_eq!(parse_u32("+5"), Some(5));
    assert_eq!(parse_u32("-5"), None);
    assert_eq!(parse_u32(""), None);
    assert_eq!(parse_usize("007"), Some(7));
    assert_eq!(parse_usize("7a"), None);
    assert_eq!(parse_i64("-9223372036854775809"), None);
    assert_eq!(parse_i64("-"), None);
}

#[test]
fn arrays_and_objects_keep_the_text_of_their_floats() {
    for f in [0.9999999999999999, 0.1 + 0.2, 1e23, 5e-324, f64::MAX, -2.2250738585072014e-308, 122.416294033786585] {
        let array = serde_json::Value::Array(vec![serde_json::Value::from(f)]);
        let text = array.to_string();
        assert_eq!(render(&text), text);
        assert_eq!(value_to_py_str(&Value::Json(text.clone())), text);
        let mut fields = serde_json::Map::new();
        fields.insert("power".to_string(), array);
        let text = serde_json::Value::Object(fields).to_string();
        assert_eq!(render(&text), text);
    }
    assert_eq!(render(&"[0.9999999999999999]".to_string()), "[0.9999999999999999]");
    assert_eq!(render(&"{\"b\":1,\"a\":2}".to_string()), "{\"a\":2,\"b\":1}");
}

#[test]
fn every_day_is_followed_by_the_next() {
    for day in [-719_529, -719_469, -25_567, -1, 10_956, 11_015, 11_016, 11_322, 19_782] {
        let (y, m, d) = civil_from_days(day);
        let next = civil_from_days(day + 1);
        assert!(next == (y, m, d + 1) || next == (y, m + 1, 1) || (m == 12 && next == (y + 1, 1, 1)));
        if d < 28 {
            assert_eq!(next, (y, m, d + 1));
        }
    }
    assert_eq!(civil_from_days(11_015), (2000, 2, 28));
    assert_eq!(civil_from_days(11_016), (2000, 2, 29));
    assert_eq!(civil_from_days(11_017), (2000, 3, 1));
    assert_eq!(civil_from_days(-25_567), (1900, 1, 1));
    assert_eq!(civil_from_days(-25_509), (1900, 2, 28));
    assert_eq!(civil_from_days(-25_508), (1900, 3, 1));
}

#[test]
fn no_two_days_share_a_date() {
    let mut seen: Vec<(i64, i64, i64)> = Vec::new();
    for day in 11_000..11_800 {
        let date = civil_from_days(day);
        assert!(seen.last().map_or(true, |d| *d < date));
        seen.push(date);
    }
    assert_ne!(format_utc(1_700_000_000), format_utc(1_700_000_001));
    assert_eq!(format_utc(0), "Thu Jan 01 00:00:00 1970");
}

#[test]
fn numbered_names_follow_their_numbers() {
    assert_eq!(natural_order("Ethernet8", "Ethernet16"), Order::Less);
    assert_eq!(natural_order("Ethernet16", "Ethernet8"), Order::Greater);
    assert_eq!(natural_order("Ethernet8", "Ethernet8"), Order::Equal);
    assert_eq!(natural_order("Ethernet08", "Ethernet8"), Order::Equal);
    let names: Vec<String> = ["Ethernet12", "ethernet4", "Ethernet8", "Ethernet0"].map(String::from).to_vec();
    assert_eq!(sort_names(&names), ["Ethernet0", "ethernet4", "Ethernet8", "Ethernet12"]);
}

#[test]
fn json_values_are_written_compactly() {
    assert_eq!(render(&"{ \"b\" : [1, 2] }".to_string()), "{\"b\":[1,2]}");
    assert_eq!(render(&"[1.50]".to_string()), "[1.5]");
    assert_eq!(render(&"no json".to_string()), "no json");
    assert!(number_text_is_nonzero("0.01") && !number_text_is_nonzero("-0.0"));
    assert!(py_truthy(&Value::Json("[ 0 ]".to_string())) && !py_truthy(&Value::Json("[ ]".to_string())));
    assert!(!py_truthy(&Value::Number("0e3".to_string())) && py_truthy(&Value::Number("1e3".to_string())));
}
