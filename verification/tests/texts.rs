//! Texts, times, names and orders.

use std::hash::{Hash, Hasher};

use chrono::{DateTime, Utc};
use my_k8s::clock::{parse_rfc3339, seconds_between, Timestamp};
use my_k8s::digest::hash_text;
use my_k8s::endpoints::EndpointAddress;
use my_k8s::labels::{satisfies, Labels};
use my_k8s::names::NameMap;
use my_k8s::order::sort;
use my_k8s::text;

#[test]
fn numbers_are_written_and_read_like_std_does() {
    for n in [0, 7, 10, 255, 1_000_000, u64::MAX] {
        assert_eq!(text::decimal(n), n.to_string());
        assert_eq!(text::parse_u64(&n.to_string()), Some(n));
        assert_eq!(text::padded_decimal(n), format!("{n:020}").into_bytes());
    }
    for s in ["", "+", "-1", "+5", "007", "18446744073709551616", "1x", " 1", "\u{663}"] {
        assert_eq!(text::parse_u64(s), s.parse().ok(), "{s}");
    }
    let mut out = String::from(">");
    text::push_hex(&mut out, 0xBEEF, 6, true);
    text::push_hex(&mut out, 0xBEEF, 3, false);
    assert_eq!(out, format!(">{:06X}{:03x}", 0xBEEF, 0xEEF));
    let mut out = String::new();
    text::push_fixed_decimal(&mut out, 1234, 3);
    assert_eq!(out, "234");
}

#[test]
fn texts_are_compared_by_their_bytes() {
    for (a, b) in [("", "a"), ("a", "ab"), ("B", "a"), ("\u{e9}", "z"), ("x", "x")] {
        assert_eq!(text::before(a, b), a < b, "{a} {b}");
        assert_eq!(text::before(b, a), b < a, "{b} {a}");
        assert_eq!(text::same(a, b), a == b);
    }
}

#[test]
fn texts_are_taken_apart_like_std_does() {
    for s in ["", ",", "a,b,,c", "\u{e9},x", "abc"] {
        let expected: Vec<&str> = s.split(',').collect();
        assert_eq!(text::split(s, ','), expected);
        let once = s.split_once(',').map(|(a, b)| (a.to_string(), b.to_string()));
        assert_eq!(text::split_once(s, ','), once);
    }
    assert_eq!(text::strip_prefix("spec.x=1", "spec.x=").as_deref(), Some("1"));
    assert_eq!(text::strip_prefix("spec", "spec.x="), None);
    assert!(text::contains("File exists", "exists"));
    assert!(!text::contains("File", "Files"));
    assert_eq!(text::join_path("/a", "b"), "/a/b");
    assert_eq!(text::join_path("/a/", "b"), "/a/b");
    assert_eq!(text::join_path("/a", "/b"), "/b");
    let mut out = String::new();
    text::push_left_aligned(&mut out, "\u{e9}", 3);
    text::push_left_aligned(&mut out, "long", 2);
    assert_eq!(out, format!("{:<3}{:<2}", "\u{e9}", "long"));
}

fn chrono_time(s: &str) -> Option<DateTime<Utc>> {
    DateTime::parse_from_rfc3339(s).ok().map(|t| t.with_timezone(&Utc))
}

const TIMES: [&str; 12] = [
    "2026-06-04T10:00:00Z",
    "2026-06-04T10:00:00.25+02:00",
    "2026-06-04T09:59:59.999999999Z",
    "2016-12-31T23:59:60Z",
    "2016-12-31T23:59:60.5Z",
    "2016-12-31T23:59:59.75Z",
    "2017-01-01T00:00:00Z",
    "1969-12-31T23:59:59.5Z",
    "0000-01-01T00:00:00Z",
    "2026-13-01T00:00:00Z",
    "yesterday",
    "",
];

#[test]
fn times_are_read_like_chrono_does() {
    for s in TIMES {
        let expected = chrono_time(s).map(|t| Timestamp {
            secs: t.timestamp(),
            nanos: t.timestamp_subsec_nanos(),
        });
        assert_eq!(parse_rfc3339(s), expected, "{s}");
    }
}

#[test]
fn seconds_are_counted_like_chrono_does() {
    for a in TIMES {
        for b in TIMES {
            if let (Some(x), Some(y)) = (chrono_time(a), chrono_time(b)) {
                let (p, q) = (parse_rfc3339(a).unwrap(), parse_rfc3339(b).unwrap());
                let expected = (x - y).num_seconds();
                assert_eq!(seconds_between(p, q), Some(expected), "{a} - {b}");
                assert_eq!(seconds_between(q, p), Some(-expected), "{b} - {a}");
            }
        }
    }
}

#[test]
fn seconds_are_rounded_towards_zero() {
    let at = |secs, nanos| Timestamp { secs, nanos };
    assert_eq!(seconds_between(at(10, 0), at(7, 0)), Some(3));
    assert_eq!(seconds_between(at(10, 0), at(7, 1)), Some(2));
    assert_eq!(seconds_between(at(7, 1), at(10, 0)), Some(-2));
    assert_eq!(seconds_between(at(-1, 999_999_999), at(1, 0)), Some(-1));
    let far = 8_000_000_000_000;
    assert_eq!(seconds_between(at(far, 0), at(-far, 0)), Some(2 * far));
    // Not points in time.
    assert_eq!(seconds_between(at(i64::MAX, 0), at(0, 0)), None);
    assert_eq!(seconds_between(at(0, 2_000_000_000), at(0, 0)), None);
}

#[test]
fn a_name_map_keeps_its_keys_in_order() {
    let mut m: NameMap<u32> = NameMap::new();
    for (i, k) in ["b", "a", "\u{e9}", "ab", "b"].iter().enumerate() {
        m.insert(k.to_string(), i as u32);
    }
    assert_eq!(m.len(), 4);
    assert_eq!(m.get("b"), Some(&4));
    assert_eq!(m.remove("b"), Some(4));
    assert_eq!(m.remove("b"), None);
    assert_eq!(m.get("b"), None);
    assert!(!m.is_empty());
    let mut other: NameMap<u32> = NameMap::new();
    for (k, v) in [("\u{e9}", 2), ("ab", 3), ("a", 1)] {
        other.insert(k.into(), v);
    }
    assert_eq!(m, other, "the order of insertion does not show");
}

#[test]
fn a_selection_is_kept_by_more_tags() {
    let mut tags = Labels::new();
    let mut selector = Labels::new();
    selector.insert("app".into(), "web".into());
    assert!(!satisfies(&tags, &selector));
    tags.insert("app".into(), "web".into());
    assert!(satisfies(&tags, &selector));
    tags.insert("tier".into(), "fe".into());
    assert!(satisfies(&tags, &selector));
    assert!(satisfies(&tags, &Labels::new()));
}

#[test]
fn sorting_keeps_equal_items_in_place() {
    let items: Vec<EndpointAddress> = [("b", 1), ("a", 2), ("b", 3), ("a", 4)]
        .iter()
        .map(|(ip, port)| EndpointAddress {
            ip: ip.to_string(),
            port: *port,
        })
        .collect();
    let mut expected = items.clone();
    expected.sort_by(|a, b| a.ip.cmp(&b.ip));
    assert_eq!(sort(&items), expected);
}

#[test]
fn texts_hash_like_std_does() {
    for s in ["", "web", "default/web:80"] {
        let mut h = std::collections::hash_map::DefaultHasher::new();
        s.hash(&mut h);
        assert_eq!(hash_text(s), h.finish());
    }
}
