use atom_table::atom::{Atom, Namespace};
use atom_table::table::Table;

#[test]
fn namespace_wraps_a_handle() {
    let mut t = Table::new();
    let a = Atom::from_text(&mut t, "http://example.test/ns");
    let p = a.as_ptr();
    let ns = Namespace::construct(a);
    assert_eq!(ns.0.as_ptr(), p);
}

#[test]
fn namespace_equality_follows_the_handle() {
    let mut t = Table::new();
    let n1 = Namespace::construct(Atom::from_text(&mut t, "ns"));
    let n2 = Namespace::construct(Atom::from_text(&mut t, "ns"));
    let n3 = Namespace::construct(Atom::from_text(&mut t, "other"));
    assert_eq!(n1, n2);
    assert_ne!(n1, n3);
}

#[test]
fn namespace_hash_forwards() {
    let mut t = Table::new();
    let a = Atom::from_text(&mut t, "ns");
    let h = a.get_hash(&t);
    let ns = Namespace::construct(a);
    assert_eq!(ns.get_hash(&t), h);
}

#[test]
fn namespace_eq_str_forwards() {
    let mut t = Table::new();
    let ns = Namespace::construct(Atom::from_text(&mut t, "ns"));
    assert!(ns.eq_str(&t, "ns"));
    assert!(!ns.eq_str(&t, "no"));
}

#[test]
fn namespace_lifecycle_balances_the_count() {
    let mut t = Table::new();
    let a = Atom::from_text(&mut t, "ns");
    let p = a.as_ptr();
    let ns = Namespace::construct(a);
    let ns2 = ns.clone_value(&mut t);
    assert_eq!(t.ref_count(p), 2);
    ns2.destroy(&mut t);
    ns.destroy(&mut t);
    assert_eq!(t.ref_count(p), 0);
}
