use fxhash::FxHashMap;
use senya::param::{bind, FromParameters, FromValue, ParamMap};
use senya::table::Key;
use std::borrow::Cow;
use std::collections::HashMap;

#[test]
fn tuple() {
    assert_eq!(
        <(i32,)>::from_parameters(vec![("foo", "1234")]).unwrap(),
        (1234,)
    );
    assert_eq!(
        <(i32, String)>::from_parameters(vec![("foo", "1234"), ("bar", "baz")]).unwrap(),
        (1234, "baz".into())
    );
    assert_eq!(
        <(i32, i32)>::from_parameters(vec![]),
        Err(Cow::from("missing parameter"))
    );
    assert!(
        <(i32,)>::from_parameters(vec![("foo", "1234"), ("bar", "baz")]).is_err()
    );
}

#[test]
fn unit_binds_nothing() {
    assert_eq!(<()>::from_parameters(vec![]), Ok(()));
    assert_eq!(<()>::from_parameters(vec![("a", "b")]), Err(Cow::from("excess parameters")));
}

#[test]
fn tuple_failures_come_in_order() {
    assert_eq!(
        <(i32,)>::from_parameters(vec![("foo", "1234"), ("bar", "baz")]),
        Err(Cow::from("excess parameters"))
    );
    assert_eq!(
        <(i32, i32)>::from_parameters(vec![("a", "x")]),
        Err(Cow::from("invalid digit found in string"))
    );
    assert_eq!(
        <(i32, i32)>::from_parameters(vec![("a", "1")]),
        Err(Cow::from("missing parameter"))
    );
    assert_eq!(
        <(u32, String, i64)>::from_parameters(vec![("a", "1"), ("b", "two"), ("c", "-3")]),
        Ok((1, "two".to_string(), -3))
    );
    assert_eq!(
        <(u32,)>::from_parameters(vec![("a", "-1")]),
        Err(Cow::from("invalid digit found in string"))
    );
}

#[test]
fn ten_parameters() {
    let params: Vec<(&str, &str)> = vec![
        ("a", "0"), ("b", "1"), ("c", "2"), ("d", "3"), ("e", "4"),
        ("f", "5"), ("g", "6"), ("h", "7"), ("i", "8"), ("j", "9"),
    ];
    assert_eq!(
        <(u64, u64, u64, u64, u64, u64, u64, u64, u64, u64)>::from_parameters(params.clone()),
        Ok((0, 1, 2, 3, 4, 5, 6, 7, 8, 9))
    );
    assert_eq!(
        <(u64, u64, u64, u64, u64, u64, u64, u64, u64)>::from_parameters(params),
        Err(Cow::from("excess parameters"))
    );
}

#[test]
fn values_convert() {
    assert_eq!(i32::from_value("1234"), Ok(1234));
    assert_eq!(i32::from_value("-7"), Ok(-7));
    assert_eq!(i64::from_value("9000000000"), Ok(9000000000));
    assert_eq!(u32::from_value("42"), Ok(42));
    assert_eq!(u64::from_value("18446744073709551615"), Ok(u64::MAX));
    assert_eq!(String::from_value("piyo"), Ok("piyo".to_string()));
    assert_eq!(i32::from_value(""), Err("cannot parse integer from empty string".to_string()));
    assert_eq!(
        i32::from_value("99999999999"),
        Err("number too large to fit in target type".to_string())
    );
    assert!(i64::from_value("x").is_err());
    assert!(u32::from_value("x").is_err());
    assert!(u64::from_value("x").is_err());
}

#[test]
fn map() {
    let bound = ParamMap::<i32>::from_parameters(vec![("foo", "0"), ("bar", "1")]).unwrap();
    assert!(bound.len() == 2);
    let hashed: HashMap<String, i32> = bound.into_entries().into_iter().collect();
    assert!(hashed.len() == 2);
    let fx: FxHashMap<String, i32> =
        ParamMap::<i32>::from_parameters(vec![("foo", "0"), ("bar", "1")])
            .unwrap()
            .into_entries()
            .into_iter()
            .collect();
    assert!(fx.len() == 2);
}

#[test]
fn map_keeps_the_later_of_two_parameters() {
    let bound =
        ParamMap::<i32>::from_parameters(vec![("a", "1"), ("b", "2"), ("a", "3")]).unwrap();
    assert_eq!(bound.len(), 2);
    assert_eq!(bound.get(&"a".to_string()), Some(&3));
    assert_eq!(bound.get(&"b".to_string()), Some(&2));
    assert_eq!(bound.get(&"c".to_string()), None);
    assert!(bound.contains_key(&"a".to_string()));
}

#[test]
fn map_fails_on_the_first_value_that_does_not_convert() {
    assert_eq!(
        ParamMap::<i32>::from_parameters(vec![("a", "1"), ("b", ""), ("c", "x")]).err(),
        Some(Cow::from("cannot parse integer from empty string"))
    );
    assert!(ParamMap::<String>::from_parameters(vec![]).unwrap().len() == 0);
}

#[test]
fn text_keys_compare_by_content() {
    assert!("a".to_string().same(&"a".to_string()));
    assert!(!"a".to_string().same(&"b".to_string()));
}

#[test]
fn bind_takes_what_dispatch_captured() {
    let captured = vec![("id".to_string(), "7".to_string()), ("name".to_string(), "x".to_string())];
    assert_eq!(bind::<(u32, String)>(&captured), Ok((7, "x".to_string())));
    assert_eq!(bind::<(u32,)>(&captured), Err(Cow::from("excess parameters")));
    assert_eq!(bind::<()>(&Vec::new()), Ok(()));
}
