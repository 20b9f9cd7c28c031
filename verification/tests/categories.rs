use forex_split::categories::{
    category_precedes, ordered_category_list, register_category, unnamed_category,
};

fn names(list: &[&str]) -> Vec<String> {
    list.iter().map(|s| s.to_string()).collect()
}

#[test]
fn unnamed_categories_are_numbered() {
    assert_eq!(unnamed_category(1), "Unnamed category 1");
    assert_eq!(unnamed_category(42), "Unnamed category 42");
    assert_eq!(unnamed_category(u64::MAX), "Unnamed category 18446744073709551615");
}

#[test]
fn table_order_is_named_then_unnamed_then_other() {
    let stored = names(&["Other", "Unnamed category 10", "Tip", "Unnamed category 2", "Alcohol", "Food"]);
    let ordered = ordered_category_list(&stored);
    assert_eq!(
        ordered,
        names(&["Alcohol", "Food", "Tip", "Unnamed category 2", "Unnamed category 10", "Other"])
    );
}

#[test]
fn table_order_does_not_depend_on_storage_order() {
    let a = names(&["Food", "Other", "Unnamed category 1", "Alcohol"]);
    let b = names(&["Unnamed category 1", "Alcohol", "Other", "Food"]);
    assert_eq!(ordered_category_list(&a), ordered_category_list(&b));
}

#[test]
fn named_categories_in_character_order() {
    let ordered = ordered_category_list(&names(&["b", "B", "a", "ab", "Ä", "A"]));
    let mut expected = names(&["b", "B", "a", "ab", "Ä", "A"]);
    expected.sort();
    assert_eq!(ordered, expected);
}

#[test]
fn empty_table_has_no_rows() {
    assert_eq!(ordered_category_list(&Vec::new()), Vec::<String>::new());
}

#[test]
fn category_precedes_follows_the_table_order() {
    let s = |x: &str| x.to_string();
    assert!(category_precedes(&s("Zebra"), &s("Unnamed category 1")));
    assert!(category_precedes(&s("Unnamed category 9"), &s("Unnamed category 10")));
    assert!(!category_precedes(&s("Unnamed category 10"), &s("Unnamed category 9")));
    assert!(category_precedes(&s("Unnamed category 3"), &s("Other")));
    assert!(!category_precedes(&s("Other"), &s("Alcohol")));
    assert!(category_precedes(&s("Food"), &s("Food")));
}

#[test]
fn assigning_twice_to_a_name_keeps_one_category() {
    let mut categories = Vec::new();
    register_category(&mut categories, &"Foo".to_string());
    assert_eq!(categories, names(&["Foo"]));
    register_category(&mut categories, &"Bar".to_string());
    register_category(&mut categories, &"Foo".to_string());
    assert_eq!(categories, names(&["Foo", "Bar"]));
}

#[test]
fn typed_names_with_the_unnamed_prefix_are_named() {
    let stored = names(&[
        "Other",
        "Unnamed category z",
        "Unnamed category 2",
        "Zebra",
        "Unnamed category ab",
        "Unnamed category 02",
        "Unnamed category 0",
        "Unnamed category",
    ]);
    assert_eq!(
        ordered_category_list(&stored),
        names(&[
            "Unnamed category",
            "Unnamed category 0",
            "Unnamed category 02",
            "Unnamed category ab",
            "Unnamed category z",
            "Zebra",
            "Unnamed category 2",
            "Other",
        ])
    );
}

#[test]
fn typed_unnamed_prefix_names_in_character_order() {
    let s = |x: &str| x.to_string();
    assert!(category_precedes(&s("Unnamed category ab"), &s("Unnamed category z")));
    assert!(!category_precedes(&s("Unnamed category z"), &s("Unnamed category ab")));
    assert!(category_precedes(&s("Unnamed category 1a"), &s("Unnamed category 9")));
    assert!(category_precedes(&s("Unnamed category 9"), &s("Unnamed category 10")));
}
