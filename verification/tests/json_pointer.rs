use overlands_agent::json::{adjustments, check_pointer, json_equal, part, set_part, JsonNumber, JsonValue};

fn num(n: u64) -> JsonValue {
    JsonValue::Number(JsonNumber::PosInt(n))
}

fn text(s: &str) -> JsonValue {
    JsonValue::String(s.to_owned())
}

fn list(items: Vec<JsonValue>) -> JsonValue {
    JsonValue::Array(items)
}

/// An object, its members given in the order of their names.
fn obj(members: Vec<(&str, JsonValue)>) -> JsonValue {
    JsonValue::Object(members.into_iter().map(|(k, v)| (k.to_owned(), v)).collect())
}

fn same(a: &JsonValue, b: &JsonValue) -> bool {
    json_equal(a, b)
}

#[test]
fn a_pointer_reads_a_part_and_nothing_reads_the_whole() {
    let document = obj(vec![
        ("a", obj(vec![("b", list(vec![num(10), num(20)]))])),
        ("c/d", num(1)),
    ]);
    assert!(same(&part(&document, "/a/b/1").unwrap(), &num(20)));
    assert!(same(&part(&document, "/c~1d").unwrap(), &num(1)));
    assert!(same(&part(&document, "").unwrap(), &document));
    assert!(part(&document, "/a/x")
        .unwrap_err()
        .contains("nothing is at /a/x"));
    assert!(part(&document, "a").unwrap_err().contains("starts with /"));
}

/// Replace, add a member, append two ways, and the refusals: a missing
/// parent, an index past the end, a part of a single value.
#[test]
fn a_pointer_sets_replaces_adds_and_appends() {
    let mut document = obj(vec![
        ("a", obj(vec![("b", list(vec![num(10), num(20)]))])),
        ("n", num(5)),
    ]);
    set_part(&mut document, "/a/b/0", num(11)).unwrap();
    set_part(&mut document, "/a/new", text("x")).unwrap();
    set_part(&mut document, "/a/b/-", num(30)).unwrap();
    set_part(&mut document, "/a/b/3", num(40)).unwrap();
    let want = obj(vec![
        (
            "a",
            obj(vec![
                ("b", list(vec![num(11), num(20), num(30), num(40)])),
                ("new", text("x")),
            ]),
        ),
        ("n", num(5)),
    ]);
    assert!(same(&document, &want));

    assert!(set_part(&mut document, "/missing/x", num(1)).is_err());
    assert!(set_part(&mut document, "/a/b/9", num(1)).is_err());
    assert!(set_part(&mut document, "/n/x", num(1)).is_err());
    assert!(set_part(&mut document, "/a/b/x", num(1)).is_err());

    set_part(&mut document, "", list(vec![])).unwrap();
    assert!(same(&document, &list(vec![])));
}

#[test]
fn a_refused_set_says_why_and_leaves_the_document() {
    let mut document = obj(vec![
        ("a", obj(vec![("b", list(vec![num(10), num(20)]))])),
        ("n", num(5)),
    ]);
    let before = document.copy();
    assert_eq!(
        set_part(&mut document, "/missing/x", num(1)).unwrap_err(),
        "nothing is at /missing"
    );
    assert_eq!(
        set_part(&mut document, "/a/b/9", num(1)).unwrap_err(),
        "/a/b holds 2 items, so there is no index 9 to set"
    );
    assert_eq!(
        set_part(&mut document, "/n/x", num(1)).unwrap_err(),
        "/n is a single value, with no parts to set"
    );
    assert_eq!(
        set_part(&mut document, "/a/b/x", num(1)).unwrap_err(),
        "/a/b is a list, and \"x\" is not an index in it"
    );
    assert_eq!(
        set_part(&mut document, "a", num(1)).unwrap_err(),
        "\"a\" is not a JSON pointer: one starts with / (as in /environment), or is empty for the whole record"
    );
    let mut scalar = num(3);
    assert_eq!(
        set_part(&mut scalar, "/x", num(1)).unwrap_err(),
        "/ is a single value, with no parts to set"
    );
    assert!(same(&document, &before));
}

#[test]
fn what_is_set_is_what_reads_back() {
    let mut document = obj(vec![("b", num(1)), ("d", num(2))]);
    set_part(&mut document, "/c", text("new")).unwrap();
    assert!(same(&part(&document, "/c").unwrap(), &text("new")));
    // A new member goes where its name sorts, as a map keeps them.
    match &document {
        JsonValue::Object(members) => {
            let names: Vec<&str> = members.iter().map(|(k, _)| k.as_str()).collect();
            assert_eq!(names, vec!["b", "c", "d"]);
        }
        _ => panic!("an object"),
    }
    set_part(&mut document, "/a~1b", num(7)).unwrap();
    assert!(same(&part(&document, "/a~1b").unwrap(), &num(7)));
}

#[test]
fn a_pointer_must_start_with_a_slash() {
    assert!(check_pointer("").is_ok());
    assert!(check_pointer("/x").is_ok());
    assert!(check_pointer("x/").is_err());
}

#[test]
fn an_index_with_a_leading_zero_reads_nothing() {
    let document = list(vec![num(1), num(2)]);
    assert!(same(&part(&document, "/1").unwrap(), &num(2)));
    assert!(part(&document, "/01").is_err());
    assert!(part(&document, "/+1").is_err());
    assert!(part(&document, "/2").is_err());
}

#[test]
fn a_value_kept_as_sent_is_no_adjustment() {
    let v = obj(vec![("x", num(1)), ("y", list(vec![num(1), num(2)]))]);
    assert!(adjustments("/g", Some(&v), Some(&v.copy())).is_empty());
    assert!(adjustments("/g", None, None).is_empty());
    assert_eq!(adjustments("/g", Some(&v), None), vec!["/g".to_owned()]);
}

#[test]
fn a_changed_field_is_named_where_it_changed() {
    let sent = obj(vec![
        ("radius", num(9000)),
        ("resolution", num(24)),
        ("solid", JsonValue::Bool(true)),
    ]);
    let kept = obj(vec![
        ("radius", num(9000)),
        ("resolution", num(6)),
        ("solid", JsonValue::Bool(true)),
    ]);
    assert_eq!(
        adjustments("/generators/ball", Some(&sent), Some(&kept)),
        vec!["/generators/ball/resolution".to_owned()]
    );
}

#[test]
fn adjustments_name_added_taken_and_escaped_members_and_items() {
    let sent = obj(vec![
        ("a/b", num(1)),
        ("gone", num(3)),
        ("list", list(vec![num(1), num(2)])),
    ]);
    let kept = obj(vec![
        ("a/b", num(2)),
        ("added", num(1)),
        ("list", list(vec![num(1), num(5)])),
    ]);
    assert_eq!(
        adjustments("", Some(&sent), Some(&kept)),
        vec![
            "/a~1b".to_owned(),
            "/added".to_owned(),
            "/gone".to_owned(),
            "/list/1".to_owned()
        ]
    );
    // Lists of different lengths are a place of their own.
    let a = list(vec![num(1)]);
    let b = list(vec![num(1), num(2)]);
    assert_eq!(adjustments("/l", Some(&a), Some(&b)), vec!["/l".to_owned()]);
}

#[test]
fn at_most_sixteen_adjustments_are_named() {
    let sent = list((0..40).map(num).collect());
    let kept = list((0..40).map(|n| num(n + 1)).collect());
    let named = adjustments("/l", Some(&sent), Some(&kept));
    assert_eq!(named.len(), 16);
    assert_eq!(named[0], "/l/0");
    assert_eq!(named[15], "/l/15");
}

#[test]
fn the_two_zeros_are_one_value() {
    let plus = JsonValue::Number(JsonNumber::Float(0));
    let minus = JsonValue::Number(JsonNumber::Float(0x8000_0000_0000_0000));
    assert!(json_equal(&plus, &minus));
    assert!(adjustments("/z", Some(&plus), Some(&minus)).is_empty());
    assert!(!json_equal(&num(0), &JsonValue::Number(JsonNumber::NegInt(-1))));
}
