use kvline::{split, try_split, Property};

#[test]
fn test_split() {
    let expected: Property = Property::init("foo", "bar");
    assert_eq!(split("foo: bar", Some(':')), expected);
}

#[test]
fn test_try_split() {
    assert_eq!(try_split("", None, None), None);
    assert_eq!(try_split("foo:bar:baz", Some(':'), None), None);
    assert_eq!(try_split("//foo:bar", Some(':'), Some("//")), None);

    let expected: Property = Property::init("foo", "bar");
    assert_eq!(try_split("foo:bar", Some(':'), Some("//")), Some(expected));
}

#[test]
fn split_uses_equals_sign_by_default() {
    assert_eq!(split("foo=bar", None), Property::init("foo", "bar"));
}

#[test]
fn split_trims_both_sides() {
    assert_eq!(split("foo : bar", Some(':')), Property::init("foo", "bar"));
    let p = split("  spaced key\t=\t spaced value \n", None);
    assert_eq!(p.key(), "spaced key");
    assert_eq!(p.value(), "spaced value");
}

#[test]
fn split_trims_unicode_white_space() {
    let p = split("\u{3000}k\u{a0}=\u{2003}v\u{2029}", None);
    assert_eq!(p.key(), "k");
    assert_eq!(p.value(), "v");
}

#[test]
fn split_of_joined_key_and_value() {
    let keys = ["", "k", " key ", "a b", "ä"];
    let values = ["", "v", " value\t", "x y", "ö"];
    for k in keys.iter() {
        for v in values.iter() {
            let line = format!("{}|{}", k, v);
            let p = split(&line, Some('|'));
            assert_eq!(p.key(), k.trim());
            assert_eq!(p.value(), v.trim());
        }
    }
}

#[test]
fn split_of_separator_alone_is_empty() {
    assert_eq!(split("=", None), Property::new());
    assert_eq!(split(" : ", Some(':')), Property::init("", ""));
}

#[test]
fn split_keeps_inner_text() {
    assert_eq!(split("a key=a value", None), Property::init("a key", "a value"));
    assert_eq!(split("k=v: w", None), Property::init("k", "v: w"));
}

#[test]
fn try_split_skips_empty_line_whatever_the_options() {
    assert_eq!(try_split("", Some(':'), Some("#")), None);
    assert_eq!(try_split("", None, Some("")), None);
}

#[test]
fn try_split_skips_comment_lines() {
    assert_eq!(try_split("# a=b", None, Some("#")), None);
    assert_eq!(try_split("#", None, Some("#")), None);
    assert_eq!(try_split("a=b", None, Some("")), None);
    assert_eq!(try_split("//x", Some(':'), Some("//")), None);
}

#[test]
fn try_split_prefix_match_is_exact() {
    assert_eq!(try_split(" # a=b", None, Some("#")), Some(Property::init("# a", "b")));
    assert_eq!(try_split("REM a=b", None, Some("rem")), Some(Property::init("REM a", "b")));
    assert_eq!(try_split("/a=b", None, Some("//")), Some(Property::init("/a", "b")));
}

#[test]
fn try_split_needs_exactly_one_separator() {
    assert_eq!(try_split("foo", Some(':'), None), None);
    assert_eq!(try_split("foo", None, None), None);
    assert_eq!(try_split("a=b=c", None, None), None);
    assert_eq!(try_split("a::b", Some(':'), None), None);
    assert_eq!(try_split("a:b", None, None), None);
}

#[test]
fn try_split_uses_equals_sign_by_default() {
    assert_eq!(try_split("a = b", None, None), Some(Property::init("a", "b")));
    assert_eq!(try_split("a=b:c", None, None), Some(Property::init("a", "b:c")));
}

#[test]
fn try_split_matches_split_on_accepted_lines() {
    let lines = ["foo:bar", " a : b ", ":", "key:", ":value", "ä:ö"];
    for line in lines.iter() {
        assert_eq!(try_split(line, Some(':'), Some("//")), Some(split(line, Some(':'))));
    }
    assert_eq!(try_split("x=y", None, None), Some(split("x=y", None)));
}
