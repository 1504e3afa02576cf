//! What the rest of the library is made of.

use remux::binary64::{seconds_text, segment_number};
use remux::keyed::Keyed;
use remux::order::{push_distinct, rank};
use remux::paths::{
    components, extension, file_name, file_stem, join_storage_components, same_texts, Dir,
};
use remux::store::{AutoSessionChoice, Store, Stored};
use remux::text::{
    chars_of, concat2, concat3, contains, dec_int_text, dec_padded_text, dec_text, ends_with,
    eq_ignore_case, join_path, list_has, parse_signed, parse_unsigned, same_text, split,
    split_words, starts_with, to_lower, to_upper, trim, Separator,
};

#[test]
fn seconds_are_printed_as_doubles_are() {
    for ticks in [0i64, 1, 5, 305_000_000, 300_000_000, -15_000_000, 123_456_789_012_345, i64::MAX] {
        assert_eq!(seconds_text(ticks), format!("{:.6}", ticks as f64 / 10_000_000.0), "{ticks}");
    }
    // Halves of the last digit go to the even neighbour of what is stored.
    for ticks in 0..2_000i64 {
        assert_eq!(seconds_text(ticks), format!("{:.6}", ticks as f64 / 10_000_000.0), "{ticks}");
    }
}

#[test]
fn segments_are_numbered_as_doubles_divide() {
    for length in [1u32, 3, 4, 6, 7, 10] {
        for i in 0..500u32 {
            let start = i as i64 * length as i64 * 10_000_000;
            assert_eq!(segment_number(start, length), i);
            for ticks in [start - 1, start + 1, start + 9_999_999] {
                let expected = (ticks as f64 / 10_000_000.0 / length as f64).floor() as u32;
                assert_eq!(segment_number(ticks, length), expected, "{ticks} {length}");
            }
        }
    }
    assert_eq!(segment_number(-5, 4), 0);
    assert_eq!(segment_number(10, 0), u32::MAX);
    assert_eq!(segment_number(0, 0), 0);
    assert_eq!(segment_number(i64::MAX, 1), u32::MAX);
}

#[test]
fn equal_keys_keep_their_order() {
    let keys = vec![vec![1, 5], vec![2, 0], vec![1, 5], vec![1, 9]];
    assert_eq!(rank(&keys), vec![1, 3, 0, 2]);
    assert_eq!(rank(&vec![]), Vec::<usize>::new());
    let mut list = vec!["a".to_string()];
    assert!(!push_distinct(&mut list, "a"));
    assert!(push_distinct(&mut list, "b"));
    assert_eq!(list, vec!["a", "b"]);
}

#[test]
fn texts_map_to_values() {
    let mut m: Keyed<u32> = Keyed::new();
    m.insert("a".to_string(), 1);
    m.insert("b".to_string(), 2);
    m.insert("a".to_string(), 3);
    assert_eq!(m.len(), 2);
    assert_eq!(m.get("a"), Some(&3));
    assert_eq!(m.at(1), ("b", &2));
    assert_eq!(m.remove("a"), Some(3));
    assert_eq!(m.get("a"), None);
}

#[test]
fn facts_are_kept_until_they_expire() {
    let mut store = Store::new();
    store.save("k".to_string(), Stored::Id(7), 10, 100);
    assert_eq!(store.get_id("k", 109), Some(7));
    assert_eq!(store.get_id("k", 110), None);
    assert!(!store.insert("k".to_string(), Stored::Mark, 10, 105));
    assert!(store.insert("k".to_string(), Stored::Mark, 10, 110));
    assert!(store.is_marked("k", 111));
    assert_eq!(store.get_id("k", 111), None);
    store.delete("k");
    assert!(store.get("k", 111).is_none());
    store.save("forever".to_string(), Stored::Mark, u64::MAX, 5);
    assert!(store.is_marked("forever", u64::MAX - 1));
    let choice = AutoSessionChoice {
        item_id: 1,
        resolution: "4K".to_string(),
        winner_id: 2,
        fallback_ids: vec![3],
        user_id: None,
    };
    assert_eq!(choice.duplicate().fallback_ids, vec![3]);
}

#[test]
fn texts_are_taken_apart() {
    assert_eq!(to_lower("ÀBc"), "Àbc");
    assert_eq!(to_upper("àBc"), "àBC");
    assert!(eq_ignore_case("AbC", "aBc"));
    assert!(!eq_ignore_case("É", "é"));
    assert!(contains("hay needle", "need") && !contains("hay", "needle"));
    assert!(starts_with("abc", "ab") && ends_with("abc", "bc"));
    assert_eq!(trim("\u{a0} x y \n"), "x y");
    assert_eq!(split("a,,b", Separator::At(',')), vec!["a", "", "b"]);
    assert_eq!(split_words("a..b-c", Separator::NotAlphanumeric), vec!["a", "b", "c"]);
    assert_eq!(split_words("a1b", Separator::NotAlphabetic), vec!["a", "b"]);
    assert_eq!(chars_of("aé"), vec!['a', 'é']);
    assert!(same_text("x", "x") && list_has(&vec!["x".to_string()], "x"));
    assert_eq!(concat2("a", "b"), "ab");
    assert_eq!(concat3("a", "b", "c"), "abc");
}

#[test]
fn numbers_are_written_and_read() {
    assert_eq!(dec_text(u64::MAX), "18446744073709551615");
    assert_eq!(dec_int_text(i64::MIN), "-9223372036854775808");
    assert_eq!(dec_padded_text(42, 5), "00042");
    assert_eq!(dec_padded_text(123456, 5), "123456");
    assert_eq!(parse_unsigned("+7", 10), Some(7));
    assert_eq!(parse_unsigned("11", 10), None);
    assert_eq!(parse_unsigned("", 10), None);
    assert_eq!(parse_unsigned("18446744073709551616", u64::MAX), None);
    assert_eq!(parse_signed("-9223372036854775808"), Some(i64::MIN));
    assert_eq!(parse_signed("9223372036854775808"), None);
    assert_eq!(parse_signed("- 1"), None);
}

#[test]
fn paths_are_taken_apart() {
    assert_eq!(components("/a//b/./c/"), vec!["a", "b", "c"]);
    assert_eq!(file_name("/a/b.tar.gz"), Some("b.tar.gz".to_string()));
    assert_eq!(file_name("/a/.."), None);
    assert_eq!(extension("/a/b.tar.gz"), Some("gz".to_string()));
    assert_eq!(extension("/a/.hidden"), None);
    assert_eq!(file_stem("/a/b.tar.gz"), "b.tar");
    assert_eq!(join_path("/a/", "b"), "/a/b");
    assert_eq!(join_path("/a", "b"), "/a/b");
    assert!(Dir::of("a/b").same(&Dir::of("a/./b/")));
    assert!(Dir::of("a/b").into_parent().same(&Dir::of("a")));
    assert!(same_texts(&vec!["a".to_string()], &vec!["a".to_string()]));
    let bad = vec!["a\\b".to_string()];
    assert_eq!(join_storage_components("/x", &bad), None);
    let path = join_storage_components("/x/y/", &vec!["Subs".into(), "a.srt".into()]).unwrap();
    assert_eq!(components(&path), vec!["x", "y", "Subs", "a.srt"]);
    let path = join_storage_components("", &vec!["Subs".into(), "a..b".into()]).unwrap();
    assert_eq!(components(&path), vec!["Subs", "a..b"]);
}
