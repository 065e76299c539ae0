use archiinventory::istr::{Istr, StringCache};
use archiinventory::order::{arrange, positions, sort_indices};
use archiinventory::slots::{sort_by_keys, swap_items, KeyOrder};
use archiinventory::text::{
    chars_of, joined, push_decimal, push_signed, str_eq, str_lt, text_between,
};

#[test]
fn decimal_numbers() {
    let mut out = String::from("n=");
    push_decimal(&mut out, 0);
    push_decimal(&mut out, 10);
    push_decimal(&mut out, u64::MAX);
    assert_eq!(out, "n=01018446744073709551615");
}

#[test]
fn signed_numbers() {
    let mut out = String::new();
    push_signed(&mut out, -7);
    out.push(' ');
    push_signed(&mut out, i64::MIN + 1);
    out.push(' ');
    push_signed(&mut out, 42);
    assert_eq!(out, "-7 -9223372036854775807 42");
}

#[test]
fn smallest_signed_number() {
    let mut out = String::new();
    push_signed(&mut out, i64::MIN);
    assert_eq!(out, "-9223372036854775808");
}

#[test]
fn text_order() {
    assert!(str_lt("", "a"));
    assert!(str_lt("a", "ab"));
    assert!(str_lt("Z", "a"));
    assert!(str_lt("z", "\u{e4}"));
    assert!(str_lt("\u{ffff}", "\u{10000}"));
    assert!(!str_lt("b", "a"));
    assert!(!str_lt("same", "same"));
}

#[test]
fn text_equality() {
    assert!(str_eq("", ""));
    assert!(str_eq("Sun\u{df}", "Sun\u{df}"));
    assert!(!str_eq("a", "A"));
}

#[test]
fn text_pieces() {
    let chars = chars_of("h\u{e9}llo");
    assert_eq!(chars.len(), 5);
    assert_eq!(text_between(&chars, 1, 3), "\u{e9}l");
    assert_eq!(text_between(&chars, 5, 5), "");
    assert_eq!(joined("a", "bc"), "abc");
}

#[test]
fn interned_strings_are_shared() {
    let mut cache = StringCache::new();
    assert_eq!(cache.len(), 0);
    let a = Istr::new(&mut cache, "Sword");
    let b = Istr::new(&mut cache, "Shield");
    let c = Istr::new(&mut cache, "Sword");
    assert_eq!(cache.len(), 2);
    assert_eq!(a.as_ref(), "Sword");
    assert_eq!(b.as_ref(), "Shield");
    assert_eq!(a, c);
    assert!(a != b);
    assert!(std::ptr::eq(a.as_ref(), c.as_ref()));
}

#[test]
fn unused_strings_are_collected() {
    let mut cache = StringCache::new();
    let kept = Istr::new(&mut cache, "kept");
    let copy = kept.clone();
    drop(Istr::new(&mut cache, "gone"));
    drop(Istr::new(&mut cache, "also gone"));
    assert_eq!(Istr::gc(&mut cache), 2);
    assert_eq!(cache.len(), 1);
    drop(kept);
    assert_eq!(Istr::gc(&mut cache), 0);
    drop(copy);
    assert_eq!(Istr::gc(&mut cache), 1);
    assert_eq!(cache.len(), 0);
}

#[test]
fn used_strings_are_kept() {
    let mut cache = StringCache::new();
    for text in ["b", "a", "c"] {
        drop(Istr::new(&mut cache, text));
    }
    // The texts are kept in order: a, b, c.
    assert_eq!(cache.retain_used(&vec![1, 2, 0]), 2);
    assert_eq!(cache.len(), 1);
    assert_eq!(cache.retain_used(&vec![2]), 0);
    drop(Istr::new(&mut cache, "b"));
    assert_eq!(cache.len(), 1);
}

#[test]
fn a_collection_leaves_used_strings_shared() {
    let mut cache = StringCache::new();
    let used = Istr::new(&mut cache, "used");
    assert_eq!(Istr::gc(&mut cache), 0);
    let again = Istr::new(&mut cache, "used");
    assert!(std::ptr::eq(used.as_ref(), again.as_ref()));
    let other = Istr::new(&mut cache, "other");
    assert!(!std::ptr::eq(used.as_ref(), other.as_ref()));
    assert!(std::ptr::eq(used.clone().as_ref(), used.as_ref()));
    assert_eq!(Istr::gc(&mut cache), 0);
}

#[test]
fn flagged_strings_are_kept() {
    let mut cache = StringCache::new();
    for text in ["b", "a", "c"] {
        drop(Istr::new(&mut cache, text));
    }
    // The texts are kept in order: a, b, c.
    assert_eq!(cache.retain(&vec![true, false, true]), 1);
    assert_eq!(cache.len(), 2);
    drop(Istr::new(&mut cache, "a"));
    drop(Istr::new(&mut cache, "c"));
    assert_eq!(cache.len(), 2);
    drop(Istr::new(&mut cache, "b"));
    assert_eq!(cache.len(), 3);
}

#[test]
fn positions_are_sorted_by_key() {
    let keys: Vec<String> = ["c", "a", "b", "a"].iter().map(|s| s.to_string()).collect();
    let order = KeyOrder { keys: &keys };
    assert_eq!(sort_indices(&order, positions(4)), vec![1, 3, 2, 0]);
    assert_eq!(sort_indices(&order, vec![0, 3]), vec![3, 0]);
    assert_eq!(sort_indices(&order, Vec::new()), Vec::<usize>::new());
}

#[test]
fn items_are_arranged() {
    assert_eq!(arrange(vec!['x', 'y', 'z'], &vec![2, 0, 1]), vec!['z', 'x', 'y']);
}

#[test]
fn sorting_is_stable_and_settles() {
    let keys: Vec<String> = ["b", "a", "b", "a"].iter().map(|s| s.to_string()).collect();
    let sorted = sort_by_keys(vec![0, 1, 2, 3], &keys);
    assert_eq!(sorted, vec![1, 3, 0, 2]);
    let keys: Vec<String> = ["a", "a", "b", "b"].iter().map(|s| s.to_string()).collect();
    assert_eq!(sort_by_keys(sorted, &keys), vec![1, 3, 0, 2]);
}

#[test]
fn swapping_twice_changes_nothing() {
    let mut items = vec!["a", "b", "c", "d"];
    swap_items(&mut items, 0, 2);
    assert_eq!(items, vec!["c", "b", "a", "d"]);
    swap_items(&mut items, 2, 0);
    assert_eq!(items, vec!["a", "b", "c", "d"]);
    swap_items(&mut items, 1, 1);
    assert_eq!(items, vec!["a", "b", "c", "d"]);
}
