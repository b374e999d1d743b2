use cb2_core::strmap::StrMap;

#[test]
fn insert_then_get_gives_back_the_value() {
    let mut m: StrMap<u32> = StrMap::new();
    assert_eq!(0, m.len());
    assert_eq!(None, m.get("a"));
    m.insert("a".to_string(), 1);
    m.insert("b".to_string(), 2);
    assert_eq!(Some(&1), m.get("a"));
    assert_eq!(Some(&2), m.get("b"));
    m.insert("a".to_string(), 3);
    assert_eq!(Some(&3), m.get("a"));
    assert_eq!(2, m.len());
    assert_eq!(None, m.get("c"));
}
