use kvline::Property;

#[test]
fn test_new() {
    let property: Property = Property::new();
    assert_eq!(property.key(), String::new());
    assert_eq!(property.value(), String::new());
}

#[test]
fn test_init() {
    let property: Property = Property::init("foo", "bar");
    assert_eq!(property.key(), String::from("foo"));
    assert_eq!(property.value(), String::from("bar"));
}

#[test]
fn equality_compares_key_and_value() {
    assert_eq!(Property::init("a", "b"), Property::init("a", "b"));
    assert_ne!(Property::init("a", "b"), Property::init("a", "c"));
    assert_ne!(Property::init("a", "b"), Property::init("x", "b"));
    assert_ne!(Property::init("ab", ""), Property::init("a", "b"));
    assert_eq!(Property::new(), Property::init("", ""));
}
