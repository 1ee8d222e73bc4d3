use chronos_collector::request_attributes::{
    merge, reset, take, Bag, MAX_ATTRIBUTES, MAX_VALUE_BYTES,
};

#[test]
fn last_write_wins_and_empty_keys_are_ignored() {
    let mut bag = Bag::new();
    merge(
        &mut bag,
        vec![
            ("http.route.action".into(), "OldController@show".into()),
            ("http.route.action".into(), "UserController@show".into()),
            ("".into(), "nope".into()),
            ("enduser.id".into(), "".into()),
        ],
    );
    let bag = take(&mut bag);
    assert_eq!(
        bag,
        vec![(
            "http.route.action".to_owned(),
            "UserController@show".to_owned()
        )]
    );
}

#[test]
fn new_keys_are_dropped_once_the_map_is_full() {
    let mut bag = Bag::new();
    let attrs = (0..MAX_ATTRIBUTES + 4)
        .map(|i| (format!("k{i}"), "v".to_owned()))
        .collect();
    merge(&mut bag, attrs);
    let bag = take(&mut bag);
    assert_eq!(bag.len(), MAX_ATTRIBUTES);
    assert_eq!(bag[0], ("k0".to_owned(), "v".to_owned()));
    assert!(bag.iter().all(|(k, _)| k != "k32"));
}

#[test]
fn overwriting_an_existing_key_still_works_when_full() {
    let mut bag = Bag::new();
    merge(
        &mut bag,
        (0..MAX_ATTRIBUTES)
            .map(|i| (format!("k{i}"), "v".to_owned()))
            .collect(),
    );
    merge(&mut bag, vec![("k0".to_owned(), "updated".to_owned())]);
    let bag = take(&mut bag);
    assert_eq!(bag[0], ("k0".to_owned(), "updated".to_owned()));
    assert_eq!(bag.len(), MAX_ATTRIBUTES);
}

#[test]
fn values_are_truncated_not_rejected() {
    let mut bag = Bag::new();
    merge(
        &mut bag,
        vec![("laravel.views".to_owned(), "x".repeat(MAX_VALUE_BYTES + 50))],
    );
    let bag = take(&mut bag);
    assert_eq!(bag[0].1.len(), MAX_VALUE_BYTES);
}

#[test]
fn truncation_never_splits_a_character() {
    let mut bag = Bag::new();
    let mut value = "x".repeat(MAX_VALUE_BYTES - 1);
    value.push('\u{20ac}');
    merge(&mut bag, vec![("k".to_owned(), value)]);
    assert_eq!(take(&mut bag)[0].1.len(), MAX_VALUE_BYTES - 1);
}

#[test]
fn keys_and_values_are_trimmed_and_a_reset_empties_the_bag() {
    let mut bag = Bag::new();
    merge(&mut bag, vec![(" k\u{3000}".to_owned(), "\tv ".to_owned())]);
    reset(&mut bag);
    assert!(take(&mut bag).is_empty());
    merge(&mut bag, vec![(" k\u{3000}".to_owned(), "\tv ".to_owned())]);
    assert_eq!(take(&mut bag), vec![("k".to_owned(), "v".to_owned())]);
}
