use landgen::edges::Edge;
use landgen::generator::EdgeDescription;

#[test]
fn canonicalize_plain_descriptor() {
    let d = EdgeDescription::from_descriptor("abc");
    assert_eq!(d.name, "abc");
    assert_eq!(d.symmetrical, Some(false));
    assert_eq!(d.reversed, Some(false));
    assert_eq!(d.hard_match, Some(false));
}

#[test]
fn canonicalize_picks_smaller_reading() {
    let d = EdgeDescription::from_descriptor("cba");
    assert_eq!(d.name, "abc");
    assert_eq!(d.symmetrical, Some(false));
    assert_eq!(d.reversed, Some(true));
    assert_eq!(d.hard_match, Some(false));
}

#[test]
fn canonicalize_symmetrical_descriptor() {
    let d = EdgeDescription::from_descriptor("aba");
    assert_eq!(d.name, "aba");
    assert_eq!(d.symmetrical, Some(true));
    assert_eq!(d.reversed, Some(false));
}

#[test]
fn canonicalize_strips_hard_marker() {
    let d = EdgeDescription::from_descriptor("!cba");
    assert_eq!(d.name, "abc");
    assert_eq!(d.reversed, Some(true));
    assert_eq!(d.hard_match, Some(true));
}

#[test]
fn canonicalization_idempotent_on_canonical_name() {
    // canonicalizing an already-canonical descriptor changes nothing
    let once = EdgeDescription::from_descriptor("mountain");
    let twice = EdgeDescription::from_descriptor(once.name.as_str());
    assert_eq!(once.name, twice.name);
    assert_eq!(once.symmetrical, twice.symmetrical);
    assert_eq!(twice.reversed, Some(false));
}

#[test]
fn soft_compatibility_needs_only_equal_names() {
    let a = Edge::new(String::from("grass"), false, false);
    let b = a.reversed();
    let c = Edge::new(String::from("rock"), false, false);
    assert!(a.is_compatible(&a));
    assert!(a.is_compatible(&b));
    assert!(!a.is_compatible(&c));
}

#[test]
fn hard_compatibility_needs_opposite_orientation() {
    let a = Edge::new(String::from("cliff"), false, true);
    let r = a.reversed();
    assert!(!a.is_compatible(&a));
    assert!(a.is_compatible(&r));
    assert!(r.is_compatible(&a));
    // a symmetrical edge is its own reversed counterpart
    let s = Edge::new(String::from("flat"), true, true);
    assert!(s.is_compatible(&s));
}

#[test]
fn compatibility_is_symmetric() {
    let edges = [
        Edge::new(String::from("x"), false, false),
        Edge::new(String::from("x"), false, true),
        Edge::new(String::from("x"), false, true).reversed(),
        Edge::new(String::from("y"), true, false),
    ];
    for a in edges.iter() {
        for b in edges.iter() {
            assert_eq!(a.is_compatible(b), b.is_compatible(a));
        }
    }
}
