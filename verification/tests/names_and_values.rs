use seedwing_policy::json::{Json, JsonNumber, NotJson};
use seedwing_policy::names::{PackagePath, TypeName};
use seedwing_policy::text::{has_prefix, join, replace};
use seedwing_policy::value::{Decimal, RuntimeValue};

fn text(s: &str) -> String {
    s.to_string()
}

fn decimal(f: f64) -> Decimal {
    Decimal::from_bits(f.to_bits())
}

#[test]
fn package_path_from_splits_at_separators() {
    assert_eq!(PackagePath::from("foo::bar").segments, vec![text("foo"), text("bar")]);
    assert_eq!(PackagePath::from("foo/bar/baz").segments, vec![text("foo"), text("bar"), text("baz")]);
    assert_eq!(PackagePath::from("foo").segments, vec![text("foo")]);
}

#[test]
fn package_path_from_drops_empty_segments() {
    assert_eq!(PackagePath::from("").segments, Vec::<String>::new());
    assert_eq!(PackagePath::from("::foo::").segments, vec![text("foo")]);
    assert_eq!(PackagePath::from("/a//b/").segments, vec![text("a"), text("b")]);
}

#[test]
fn the_root_package_has_no_segment() {
    assert_eq!(PackagePath::root().segments, Vec::<String>::new());
    assert_eq!(PackagePath::root().as_package_str(), "");
}

#[test]
fn name_for_gives_a_qualified_name() {
    let name = PackagePath::from("a::b").name_for(text("c"));
    assert!(name.is_qualified());
    assert_eq!(name.name(), "c");
    assert_eq!(name.as_type_str(), "a::b::c");
    assert_eq!(PackagePath::from("a::b").as_package_str(), "a::b");
}

#[test]
fn a_name_of_the_root_package_is_qualified_and_reads_as_its_leaf() {
    let name = PackagePath::root().name_for(text("int"));
    assert!(name.is_qualified());
    assert_eq!(name.as_type_str(), "int");
}

#[test]
fn a_bare_name_is_not_qualified() {
    let name = TypeName::new(None, text("Person"));
    assert!(!name.is_qualified());
    assert_eq!(name.as_type_str(), "Person");
    assert_eq!(name.name(), "Person");
}

#[test]
fn names_are_equal_by_segments_without_case_folding() {
    let a = PackagePath::from("foo::bar").name_for(text("T"));
    let b = PackagePath::from("foo/bar").name_for(text("T"));
    let c = PackagePath::from("foo::Bar").name_for(text("T"));
    let d = TypeName::new(None, text("T"));
    assert!(a.same(&b));
    assert!(!a.same(&c));
    assert!(!a.same(&d));
    assert!(PackagePath::from("x::y").same(&PackagePath::from("x::y")));
    assert!(!PackagePath::from("x::y").same(&PackagePath::from("x")));
    assert!(a.clone().same(&a));
}

#[test]
fn replace_replaces_every_occurrence_from_the_left() {
    assert_eq!(replace("a::b::c", "::", "/"), "a/b/c");
    assert_eq!(replace("a/b", "/", "::"), "a::b");
    assert_eq!(replace(":::", "::", "/"), "/:");
    assert_eq!(replace("abc", "x", "y"), "abc");
    assert_eq!(replace("", "x", "y"), "");
    assert_eq!(replace("aaa", "aa", "b"), "ba");
}

#[test]
fn join_puts_the_separator_between_neighbours() {
    assert_eq!(join(&vec![text("a"), text("b"), text("c")], "::"), "a::b::c");
    assert_eq!(join(&vec![text("a")], "::"), "a");
    assert_eq!(join(&Vec::new(), "::"), "");
}

#[test]
fn has_prefix_tells_how_a_text_begins() {
    assert!(has_prefix("foo::bar", "foo"));
    assert!(has_prefix("foo", ""));
    assert!(has_prefix("", ""));
    assert!(!has_prefix("foo", "foo::bar"));
    assert!(!has_prefix("foo", "bar"));
}

#[test]
fn a_decimal_denotes_the_integer_of_the_same_value() {
    assert!(decimal(1.0).denotes(1));
    assert!(decimal(0.0).denotes(0));
    assert!(decimal(-0.0).denotes(0));
    assert!(decimal(-7.0).denotes(-7));
    assert!(decimal(4096.0).denotes(4096));
    assert!(decimal(9007199254740992.0).denotes(9007199254740992));
    assert!(decimal(-9223372036854775808.0).denotes(i64::MIN));
    assert!(decimal(4611686018427387904.0).denotes(4611686018427387904));
}

#[test]
fn a_decimal_denotes_no_other_integer() {
    assert!(!decimal(1.5).denotes(1));
    assert!(!decimal(1.5).denotes(2));
    assert!(!decimal(1.0).denotes(-1));
    assert!(!decimal(-1.0).denotes(1));
    assert!(!decimal(0.0).denotes(1));
    assert!(!decimal(1.0).denotes(0));
    assert!(!decimal(5e-324).denotes(0));
    assert!(!decimal(1e300).denotes(i64::MAX));
    assert!(!decimal(9223372036854775808.0).denotes(i64::MAX));
    assert!(!decimal(f64::INFINITY).denotes(i64::MAX));
    assert!(!decimal(f64::NAN).denotes(0));
    assert!(!decimal(0.1).denotes(0));
}

#[test]
fn decimals_are_equal_by_bits_but_for_the_zeros() {
    assert!(decimal(2.5).same(&decimal(2.5)));
    assert!(decimal(0.0).same(&decimal(-0.0)));
    assert!(!decimal(2.5).same(&decimal(-2.5)));
    assert!(!decimal(2.5).same(&decimal(2.25)));
}

#[test]
fn values_of_different_kinds_differ_but_for_numbers() {
    assert!(RuntimeValue::Integer(3).same(&RuntimeValue::Decimal(decimal(3.0))));
    assert!(RuntimeValue::Decimal(decimal(3.0)).same(&RuntimeValue::Integer(3)));
    assert!(!RuntimeValue::Integer(3).same(&RuntimeValue::Decimal(decimal(3.5))));
    assert!(!RuntimeValue::Integer(1).same(&RuntimeValue::Boolean(true)));
    assert!(!RuntimeValue::Null.same(&RuntimeValue::Integer(0)));
    assert!(!RuntimeValue::String(text("1")).same(&RuntimeValue::Integer(1)));
    assert!(RuntimeValue::Null.same(&RuntimeValue::Null));
    assert!(RuntimeValue::String(text("a")).same(&RuntimeValue::String(text("a"))));
    assert!(!RuntimeValue::String(text("a")).same(&RuntimeValue::String(text("A"))));
}

#[test]
fn objects_are_equal_whatever_the_order_of_their_members() {
    let one = || RuntimeValue::Integer(1);
    let two = || RuntimeValue::Integer(2);
    let ab = RuntimeValue::Object(vec![(text("a"), one()), (text("b"), two())]);
    let ba = RuntimeValue::Object(vec![(text("b"), two()), (text("a"), one())]);
    let swapped = RuntimeValue::Object(vec![(text("a"), two()), (text("b"), one())]);
    let a = RuntimeValue::Object(vec![(text("a"), one())]);
    let shadowed = RuntimeValue::Object(vec![(text("a"), one()), (text("a"), two())]);
    let nested = |inner: RuntimeValue| RuntimeValue::Object(vec![(text("k"), inner)]);
    assert!(ab.same(&ba));
    assert!(ba.same(&ab));
    assert!(!ab.same(&swapped));
    assert!(!ab.same(&a));
    assert!(!a.same(&ab));
    assert!(a.same(&shadowed));
    assert!(shadowed.same(&a));
    assert!(shadowed.same(&shadowed));
    assert!(nested(ab.clone()).same(&nested(ba.clone())));
    assert!(!nested(ab.clone()).same(&nested(a.clone())));
    assert!(RuntimeValue::Object(Vec::new()).same(&RuntimeValue::Object(Vec::new())));
}

#[test]
fn lists_and_objects_are_equal_member_by_member() {
    let a = RuntimeValue::List(vec![RuntimeValue::Integer(1), RuntimeValue::Decimal(decimal(2.0))]);
    let b = RuntimeValue::List(vec![RuntimeValue::Decimal(decimal(1.0)), RuntimeValue::Integer(2)]);
    let c = RuntimeValue::List(vec![RuntimeValue::Integer(1)]);
    assert!(a.same(&b));
    assert!(!a.same(&c));
    let x = RuntimeValue::Object(vec![(text("k"), RuntimeValue::Integer(1))]);
    let y = RuntimeValue::Object(vec![(text("k"), RuntimeValue::Integer(1))]);
    let z = RuntimeValue::Object(vec![(text("j"), RuntimeValue::Integer(1))]);
    let w = RuntimeValue::Object(vec![(text("k"), RuntimeValue::Integer(2))]);
    assert!(x.same(&y));
    assert!(!x.same(&z));
    assert!(!x.same(&w));
    assert!(!x.same(&RuntimeValue::Object(Vec::new())));
}

#[test]
fn a_clone_of_a_value_holds_the_same() {
    let v = RuntimeValue::Object(vec![
        (text("a"), RuntimeValue::List(vec![RuntimeValue::Null, RuntimeValue::Boolean(true)])),
        (text("b"), RuntimeValue::Decimal(decimal(0.5))),
    ]);
    assert_eq!(v.clone(), v);
}

#[test]
fn from_json_reads_every_kind_of_value() {
    let got = RuntimeValue::from_json(b"{\"a\":[1,2.5,\"x\",null,true,-3],\"b\":{}}");
    let expected = RuntimeValue::Object(vec![
        (
            text("a"),
            RuntimeValue::List(vec![
                RuntimeValue::Integer(1),
                RuntimeValue::Decimal(decimal(2.5)),
                RuntimeValue::String(text("x")),
                RuntimeValue::Null,
                RuntimeValue::Boolean(true),
                RuntimeValue::Integer(-3),
            ]),
        ),
        (text("b"), RuntimeValue::Object(Vec::new())),
    ]);
    assert_eq!(got, Ok(expected));
}

#[test]
fn from_json_tells_integers_from_decimals_by_their_shape() {
    assert_eq!(RuntimeValue::from_json(b"7"), Ok(RuntimeValue::Integer(7)));
    assert_eq!(RuntimeValue::from_json(b"7.0"), Ok(RuntimeValue::Decimal(decimal(7.0))));
    assert_eq!(RuntimeValue::from_json(b"1e2"), Ok(RuntimeValue::Decimal(decimal(100.0))));
    assert_eq!(
        RuntimeValue::from_json(b"-9223372036854775808"),
        Ok(RuntimeValue::Integer(i64::MIN))
    );
    assert_eq!(
        RuntimeValue::from_json(b"18446744073709551615"),
        Ok(RuntimeValue::Decimal(decimal(18446744073709551615.0)))
    );
}

#[test]
fn from_json_orders_the_members_of_an_object_by_key() {
    assert_eq!(
        RuntimeValue::from_json(b"{\"b\":1,\"a\":2}"),
        Ok(RuntimeValue::Object(vec![
            (text("a"), RuntimeValue::Integer(2)),
            (text("b"), RuntimeValue::Integer(1)),
        ]))
    );
}

#[test]
fn from_json_refuses_what_is_no_document() {
    assert_eq!(RuntimeValue::from_json(b"{"), Err(NotJson));
    assert_eq!(RuntimeValue::from_json(b""), Err(NotJson));
    assert_eq!(RuntimeValue::from_json(b"1 2"), Err(NotJson));
    assert_eq!(Json::parse(b"nope"), Err(NotJson));
}

#[test]
fn parse_copies_the_document_node_by_node() {
    assert_eq!(
        Json::parse(b"[null,false,\"s\",3,0.5]"),
        Ok(Json::Array(vec![
            Json::Null,
            Json::Bool(false),
            Json::String(text("s")),
            Json::Number(JsonNumber { integer: Some(3), bits: Some(3.0f64.to_bits()) }),
            Json::Number(JsonNumber { integer: None, bits: Some(0.5f64.to_bits()) }),
        ]))
    );
}

#[test]
fn a_number_without_integer_and_without_bits_is_null() {
    assert_eq!(JsonNumber { integer: None, bits: None }.to_value(), RuntimeValue::Null);
    assert_eq!(
        JsonNumber { integer: Some(4), bits: Some(4.0f64.to_bits()) }.to_value(),
        RuntimeValue::Integer(4)
    );
}

#[test]
fn decimals_that_denote_one_integer_are_the_same() {
    for i in [0i64, 1, -1, 2, 1024, -4096, 9007199254740992, i64::MIN] {
        let x = decimal(i as f64);
        assert!(x.denotes(i));
        for y in [decimal(i as f64), decimal(-(i as f64)), decimal(0.0), decimal(1.0), decimal(0.5)] {
            if y.denotes(i) {
                assert!(x.same(&y));
            }
        }
    }
}

#[test]
fn equality_of_values_is_reflexive_and_symmetric() {
    let values = vec![
        RuntimeValue::Null,
        RuntimeValue::Boolean(false),
        RuntimeValue::Integer(2),
        RuntimeValue::Decimal(decimal(2.0)),
        RuntimeValue::Decimal(decimal(2.5)),
        RuntimeValue::String(text("2")),
        RuntimeValue::List(vec![RuntimeValue::Integer(2)]),
        RuntimeValue::List(vec![RuntimeValue::Decimal(decimal(2.0))]),
        RuntimeValue::Object(vec![(text("k"), RuntimeValue::Integer(2))]),
        RuntimeValue::Object(vec![
            (text("j"), RuntimeValue::Null),
            (text("k"), RuntimeValue::Decimal(decimal(2.0))),
        ]),
        RuntimeValue::Object(vec![
            (text("k"), RuntimeValue::Integer(2)),
            (text("j"), RuntimeValue::Null),
        ]),
    ];
    for a in &values {
        assert!(a.same(a));
        for b in &values {
            assert_eq!(a.same(b), b.same(a));
        }
    }
}
