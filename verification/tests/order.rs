use dbdump::order::{dangling_reference, dangling_references, dangling_table_reference,
    dangling_table_references, eq_ignore_ascii_case, find_position, order, order_tables,
    reorder_vec};

fn names(list: &[&str]) -> Vec<String> {
    list.iter().map(|s| s.to_string()).collect()
}

fn edges(list: &[(&str, &str)]) -> Vec<(String, String)> {
    list.iter().map(|(d, r)| (d.to_string(), r.to_string())).collect()
}

fn place(list: &[String], name: &str) -> usize {
    list.iter().position(|s| s.eq_ignore_ascii_case(name)).unwrap()
}

#[test]
fn referenced_table_moves_before_its_dependent() {
    let sorted = order(names(&["orders", "customers"]), &edges(&[("orders", "customers")]));
    assert_eq!(sorted, names(&["customers", "orders"]));
}

#[test]
fn order_tables_is_the_same_ordering() {
    let sorted = order_tables(names(&["orders", "customers"]), &edges(&[("orders", "customers")]));
    assert_eq!(sorted, names(&["customers", "orders"]));
}

#[test]
fn no_edges_keep_the_discovery_order() {
    let sorted = order(names(&["b", "a", "c"]), &edges(&[]));
    assert_eq!(sorted, names(&["b", "a", "c"]));
}

#[test]
fn empty_list_stays_empty() {
    let sorted = order(names(&[]), &edges(&[("a", "b")]));
    assert_eq!(sorted, names(&[]));
}

#[test]
fn reorder_moves_reference_to_the_place_of_the_dependent() {
    let sorted = reorder_vec(names(&["a", "b", "c", "d"]), &"b".to_string(), &"d".to_string());
    assert_eq!(sorted, names(&["a", "d", "b", "c"]));
}

#[test]
fn reorder_finds_the_reference_by_its_place_in_the_whole_list() {
    let sorted = reorder_vec(names(&["a", "b", "c"]), &"a".to_string(), &"c".to_string());
    assert_eq!(sorted, names(&["c", "a", "b"]));
}

#[test]
fn reorder_leaves_a_reference_that_is_already_first() {
    let sorted = reorder_vec(names(&["a", "b", "c"]), &"c".to_string(), &"a".to_string());
    assert_eq!(sorted, names(&["a", "b", "c"]));
}

#[test]
fn reorder_leaves_a_self_reference() {
    let sorted = reorder_vec(names(&["a", "b"]), &"b".to_string(), &"b".to_string());
    assert_eq!(sorted, names(&["a", "b"]));
}

#[test]
fn reorder_matches_names_without_regard_to_case() {
    let sorted = reorder_vec(names(&["Orders", "Customers"]), &"ORDERS".to_string(), &"customers".to_string());
    assert_eq!(sorted, names(&["Customers", "Orders"]));
}

#[test]
fn reorder_ignores_a_missing_dependent() {
    let sorted = reorder_vec(names(&["a", "b"]), &"x".to_string(), &"b".to_string());
    assert_eq!(sorted, names(&["a", "b"]));
}

#[test]
fn reorder_ignores_a_missing_reference() {
    let sorted = reorder_vec(names(&["a", "b"]), &"a".to_string(), &"x".to_string());
    assert_eq!(sorted, names(&["a", "b"]));
}

#[test]
fn dangling_edge_changes_nothing_among_other_edges() {
    let objects = names(&["orders", "items", "customers"]);
    let with = edges(&[("orders", "customers"), ("items", "ghost"), ("ghost", "orders"), ("items", "orders")]);
    let without = edges(&[("orders", "customers"), ("items", "orders")]);
    assert_eq!(order(objects.clone(), &with), order(objects, &without));
}

#[test]
fn edges_listed_top_down_are_all_respected() {
    let objects = names(&["lines", "orders", "customers", "countries", "products"]);
    let fks = edges(&[
        ("lines", "orders"),
        ("lines", "products"),
        ("orders", "customers"),
        ("customers", "countries"),
    ]);
    let sorted = order(objects, &fks);
    for (d, r) in &fks {
        assert!(place(&sorted, r) <= place(&sorted, d));
    }
    assert_eq!(sorted, names(&["countries", "customers", "orders", "products", "lines"]));
}

#[test]
fn a_later_edge_can_undo_an_earlier_one() {
    let sorted = order(names(&["a", "b", "c"]), &edges(&[("b", "c"), ("a", "b")]));
    assert_eq!(sorted, names(&["b", "a", "c"]));
}

#[test]
fn a_cycle_settles_into_some_order() {
    let sorted = order(names(&["a", "b"]), &edges(&[("a", "b"), ("b", "a")]));
    assert_eq!(sorted, names(&["a", "b"]));
}

#[test]
fn ordering_again_changes_nothing() {
    let fks = edges(&[("lines", "orders"), ("orders", "customers")]);
    let once = order(names(&["lines", "orders", "customers"]), &fks);
    let twice = order(once.clone(), &fks);
    assert_eq!(once, names(&["customers", "orders", "lines"]));
    assert_eq!(twice, once);
}

#[test]
fn ordered_input_is_left_alone() {
    let fks = edges(&[("orders", "customers"), ("items", "orders")]);
    let sorted = order(names(&["customers", "orders", "items"]), &fks);
    assert_eq!(sorted, names(&["customers", "orders", "items"]));
}

#[test]
fn ordering_keeps_every_object_once() {
    let objects = names(&["a", "b", "c", "d"]);
    let mut sorted = order(objects.clone(), &edges(&[("a", "d"), ("b", "c"), ("a", "c"), ("c", "d")]));
    sorted.sort();
    assert_eq!(sorted, objects);
}

#[test]
fn position_is_the_first_match() {
    let list = names(&["a", "B", "b"]);
    assert_eq!(find_position(&list, "b"), Some(1));
    assert_eq!(find_position(&list, "A"), Some(0));
    assert_eq!(find_position(&list, "c"), None);
}

#[test]
fn names_compare_without_regard_to_ascii_case() {
    assert!(eq_ignore_ascii_case("Orders", "oRDERS"));
    assert!(eq_ignore_ascii_case("", ""));
    assert!(!eq_ignore_ascii_case("orders", "order"));
    assert!(!eq_ignore_ascii_case("order", "orders"));
    assert!(!eq_ignore_ascii_case("a_b", "a-b"));
    assert!(!eq_ignore_ascii_case("@", "`"));
    assert!(!eq_ignore_ascii_case("[", "{"));
    assert!(eq_ignore_ascii_case("Z9", "z9"));
    assert!(!eq_ignore_ascii_case("É", "é"));
    assert!(eq_ignore_ascii_case("té", "Té"));
}

#[test]
fn dangling_reference_names_the_missing_dependent() {
    let list = names(&["a", "b"]);
    assert_eq!(
        dangling_reference(&list, "x", "y"),
        Some("Found a reference to a table/view x that doesn't exists".to_string())
    );
}

#[test]
fn dangling_reference_names_the_missing_reference() {
    let list = names(&["a", "b"]);
    assert_eq!(
        dangling_reference(&list, "A", "y"),
        Some("Found a referenced table/view y that doesn't exists".to_string())
    );
    assert_eq!(dangling_reference(&list, "a", "B"), None);
}

#[test]
fn dangling_references_come_in_edge_order() {
    let list = names(&["a", "b"]);
    let reports = dangling_references(&list, &edges(&[("a", "z"), ("a", "b"), ("q", "b")]));
    assert_eq!(
        reports,
        vec![
            "Found a referenced table/view z that doesn't exists".to_string(),
            "Found a reference to a table/view q that doesn't exists".to_string(),
        ]
    );
}

#[test]
fn dangling_foreign_key_names_the_missing_dependent_table() {
    let list = names(&["a", "b"]);
    assert_eq!(
        dangling_table_reference(&list, "x", "y"),
        Some("Found a reference to a table x that doesn't exists".to_string())
    );
    assert_eq!(
        dangling_table_reference(&list, "x", "a"),
        Some("Found a reference to a table x that doesn't exists".to_string())
    );
}

#[test]
fn dangling_foreign_key_names_the_missing_table_and_who_refers_to_it() {
    let list = names(&["a", "b"]);
    assert_eq!(
        dangling_table_reference(&list, "A", "y"),
        Some("Found a referenced table y that doesn't exists for A".to_string())
    );
    assert_eq!(dangling_table_reference(&list, "a", "B"), None);
}

#[test]
fn dangling_foreign_keys_come_in_their_order() {
    let list = names(&["a", "b"]);
    let reports = dangling_table_references(&list, &edges(&[("a", "z"), ("a", "b"), ("q", "b")]));
    assert_eq!(
        reports,
        vec![
            "Found a referenced table z that doesn't exists for a".to_string(),
            "Found a reference to a table q that doesn't exists".to_string(),
        ]
    );
    assert_eq!(dangling_table_references(&list, &edges(&[])), Vec::<String>::new());
}
