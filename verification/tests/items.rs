use plugin_host::items::{copy_items, filter_items, matches_lowered, matches_query, PluginItem};

fn item(name: &str, description: &str) -> PluginItem {
    PluginItem { name: name.to_string(), description: description.to_string(), icon: "icon.png".to_string() }
}

#[test]
fn items_match_ignores_letter_case() {
    assert!(matches_query(&item("Alpha", "first"), "al"));
    assert!(matches_query(&item("Alpha", "first"), "AL"));
    assert!(matches_query(&item("alpha", "first"), "ALPHA"));
    assert!(matches_query(&item("ALPHA", "first"), "lph"));
    assert!(matches_query(&item("Ünïcode", ""), "üNÏ"));
}

#[test]
fn items_match_looks_at_name_and_description() {
    assert!(matches_query(&item("Beta", "The ALpha sibling"), "alpha"));
    assert!(!matches_query(&item("Beta", "second"), "al"));
    assert!(matches_query(&item("Beta", "second"), ""));
    assert!(!matches_query(&item("", ""), "x"));
}

#[test]
fn items_match_does_not_look_at_the_icon() {
    assert!(!matches_query(&item("Beta", "second"), "icon"));
}

#[test]
fn items_lowered_match_is_exact() {
    assert!(matches_lowered("alpha", "first", "al"));
    assert!(matches_lowered("beta", "alpha", "al"));
    assert!(!matches_lowered("Alpha", "first", "al"));
    assert!(!matches_lowered("alpha", "first", "AL"));
    assert!(matches_lowered("", "", ""));
}

#[test]
fn items_filter_keeps_matches_in_order() {
    let items = vec![item("Alpha", "one"), item("Beta", "two"), item("Gamma", "final"), item("alto", "x")];
    assert_eq!(filter_items(&items, "al"), vec![item("Alpha", "one"), item("Gamma", "final"), item("alto", "x")]);
    assert_eq!(filter_items(&items, "zzz"), Vec::<PluginItem>::new());
    assert_eq!(filter_items(&items, ""), items);
    assert_eq!(filter_items(&Vec::new(), "al"), Vec::<PluginItem>::new());
}

#[test]
fn items_copy_is_equal() {
    let items = vec![item("Alpha", "one"), item("Beta", "two")];
    assert_eq!(copy_items(&items), items);
    assert_eq!(items[0].clone(), items[0]);
}
