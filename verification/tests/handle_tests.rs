use atom_table::atom::{str_eq_atom, Atom};
use atom_table::table::Table;
use atom_table::utf16::{encode_text, Decoded};

#[test]
fn equal_text_interns_to_equal_handles() {
    let mut t = Table::new();
    let a1 = Atom::from_text(&mut t, "abc");
    let a2 = Atom::from_text(&mut t, "abc");
    assert_eq!(a1, a2);
    assert!(a1.eq_str(&t, "abc"));
    assert!(a2.eq_str(&t, "abc"));
    assert!(!a1.eq_str(&t, "abd"));
    assert_eq!(t.len(), 1);
}

#[test]
fn distinct_text_interns_to_distinct_handles() {
    let mut t = Table::new();
    let a1 = Atom::from_text(&mut t, "abc");
    let a3 = Atom::from_text(&mut t, "abd");
    assert_ne!(a1, a3);
    assert_eq!(t.len(), 2);
}

#[test]
fn equality_is_length_sensitive() {
    let mut t = Table::new();
    let ab = Atom::from_text(&mut t, "ab");
    let abc = Atom::from_text(&mut t, "abc");
    assert_ne!(ab, abc);
    assert!(!ab.eq_str(&t, "abc"));
    assert!(!abc.eq_str(&t, "ab"));
    assert!(ab.eq_str(&t, "ab"));
}

#[test]
fn equality_is_symmetric() {
    let mut t = Table::new();
    let a = Atom::from_text(&mut t, "xyz");
    assert_eq!(a.eq_str(&t, "xyz"), str_eq_atom("xyz", &t, &a));
    assert_eq!(a.eq_str(&t, "xyw"), str_eq_atom("xyw", &t, &a));
    assert_eq!(a.eq_str(&t, ""), str_eq_atom("", &t, &a));
    assert!(str_eq_atom("xyz", &t, &a));
    assert!(!str_eq_atom("xyw", &t, &a));
}

#[test]
fn hash_of_clone_equals_hash() {
    let mut t = Table::new();
    let a = Atom::from_text(&mut t, "xyz");
    let h = a.get_hash(&t);
    let c = a.clone_handle(&mut t);
    assert_eq!(c.get_hash(&t), h);
    assert_eq!(a.get_hash(&t), h);
}

#[test]
fn hash_exact_values() {
    let mut t = Table::new();
    let empty = Atom::from_text(&mut t, "");
    assert_eq!(empty.get_hash(&t), 0x811C9DC5);
    let a = Atom::from_text(&mut t, "A");
    assert_eq!(a.get_hash(&t), 0xA2771B1C);
    let abc = Atom::from_text(&mut t, "abc");
    assert_eq!(abc.get_hash(&t), 0xE11D487D);
}

#[test]
fn hash_is_stable_for_equal_text() {
    let mut t = Table::new();
    let a1 = Atom::from_text(&mut t, "stable");
    let a2 = Atom::from_text(&mut t, "stable");
    assert_eq!(a1.get_hash(&t), a2.get_hash(&t));
}

#[test]
fn refcount_balances_over_clones_and_destroys() {
    let mut t = Table::new();
    let a = Atom::from_text(&mut t, "xyz");
    let p = a.as_ptr();
    assert_eq!(t.ref_count(p), 1);
    let c1 = a.clone_handle(&mut t);
    let c2 = a.clone_handle(&mut t);
    let c3 = c1.clone_handle(&mut t);
    assert_eq!(t.ref_count(p), 4);
    // Destroy all four handles in an order unlike the one they were made in.
    c2.destroy(&mut t);
    assert_eq!(t.ref_count(p), 3);
    a.destroy(&mut t);
    c3.destroy(&mut t);
    assert_eq!(t.ref_count(p), 1);
    c1.destroy(&mut t);
    assert_eq!(t.ref_count(p), 0);
}

#[test]
fn destroy_leaves_other_entries_alone() {
    let mut t = Table::new();
    let a = Atom::from_text(&mut t, "one");
    let b = Atom::from_text(&mut t, "two");
    let pb = b.as_ptr();
    a.destroy(&mut t);
    assert_eq!(t.ref_count(pb), 1);
    assert!(b.eq_str(&t, "two"));
}

#[test]
fn round_trip_ascii() {
    let mut t = Table::new();
    let a = Atom::from_text(&mut t, "hello");
    assert_eq!(a.to_string(&t), "hello");
}

#[test]
fn round_trip_empty() {
    let mut t = Table::new();
    let a = Atom::from_text(&mut t, "");
    assert_eq!(a.to_string(&t), "");
}

#[test]
fn round_trip_full_unicode() {
    let text = "h\u{E9}llo \u{1F980} \u{65E5}\u{672C}\u{8A9E}";
    let mut t = Table::new();
    let a = Atom::from_text(&mut t, text);
    assert_eq!(a.to_string(&t), text);
    assert!(a.eq_str(&t, text));
}

#[test]
fn as_slice_exposes_code_units() {
    let mut t = Table::new();
    let a = Atom::from_text(&mut t, "A\u{1F980}");
    assert_eq!(a.as_slice(&t), &[0x41u16, 0xD83E, 0xDD80]);
}

#[test]
fn as_ptr_names_the_same_entry() {
    let mut t = Table::new();
    let a1 = Atom::from_text(&mut t, "abc");
    let a2 = Atom::from_text(&mut t, "abc");
    let b = Atom::from_text(&mut t, "other");
    assert_eq!(a1.as_ptr(), a2.as_ptr());
    assert_ne!(a1.as_ptr(), b.as_ptr());
}

#[test]
fn lone_surrogate_entry_decodes_with_failure() {
    let mut t = Table::new();
    let a = Atom::from_units(&mut t, vec![0xD800]);
    let d = a.chars(&t);
    assert_eq!(d, vec![Decoded::LoneSurrogate(0xD800)]);
    assert!(!a.eq_str(&t, "a"));
    assert!(!a.eq_str(&t, "\u{FFFD}"));
    assert!(!a.eq_str(&t, ""));
}

#[test]
fn mixed_units_keep_valid_positions() {
    let mut t = Table::new();
    let a = Atom::from_units(&mut t, vec![0x41, 0xDC00, 0x42]);
    let d = a.chars(&t);
    assert_eq!(
        d,
        vec![Decoded::Scalar(0x41), Decoded::LoneSurrogate(0xDC00), Decoded::Scalar(0x42)]
    );
}

#[test]
fn from_units_and_from_text_share_entries() {
    let mut t = Table::new();
    let a = Atom::from_text(&mut t, "abc");
    let units = encode_text("abc");
    let b = Atom::from_units(&mut t, units);
    assert_eq!(a, b);
    assert_eq!(t.ref_count(a.as_ptr()), 2);
}

#[test]
fn from_string_matches_from_text() {
    let mut t = Table::new();
    let a = Atom::from_text(&mut t, "abc");
    let b = Atom::from_string(&mut t, String::from("abc"));
    assert_eq!(a, b);
}

#[test]
fn chars_is_restartable() {
    let mut t = Table::new();
    let a = Atom::from_text(&mut t, "ok");
    let first = a.chars(&t);
    let second = a.chars(&t);
    assert_eq!(first, second);
    assert_eq!(first, vec![Decoded::Scalar(0x6F), Decoded::Scalar(0x6B)]);
}
