use playbook_lang_core::ast::{Point, PositionMap};

#[test]
fn position_maps_compare_by_content() {
    let mut a = PositionMap::new();
    a.insert("p1".to_string(), Point::from_ints(1, 1));
    a.insert("p2".to_string(), Point::from_ints(2, 2));
    let mut b = PositionMap::new();
    b.insert("p2".to_string(), Point::from_ints(2, 2));
    b.insert("p1".to_string(), Point::from_ints(0, 0));
    b.insert("p1".to_string(), Point::from_ints(1, 1));
    assert_eq!(a, b);
    let mut c = a.duplicate();
    assert_eq!(a, c);
    c.insert("p1".to_string(), Point::from_ints(1, 2));
    assert_ne!(a, c);
    let mut d = a.duplicate();
    d.insert("p3".to_string(), Point::origin());
    assert_ne!(a, d);
    assert_ne!(d, a);
}

#[test]
fn position_map_lookup() {
    let mut m = PositionMap::default();
    assert_eq!(m.get("p1"), None);
    m.insert("p1".to_string(), Point::from_ints(3, 4));
    m.insert("p1".to_string(), Point::from_ints(5, 6));
    assert_eq!(m.get("p1"), Some(&Point::from_ints(5, 6)));
    assert_eq!(m.get("p"), None);
}
