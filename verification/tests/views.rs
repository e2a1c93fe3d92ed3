use dbdump::script::Definition;
use dbdump::views::{find_references, order_views, referenced_names, view_edges, view_references,
    PatternRefused, FROM_REFERENCE, JOIN_REFERENCE};

fn names(list: &[&str]) -> Vec<String> {
    list.iter().map(|s| s.to_string()).collect()
}

fn view(name: &str, ddl: &str) -> Definition {
    Definition { name: name.to_string(), ddl: ddl.to_string() }
}

const OPEN_ORDERS: &str = "CREATE ALGORITHM=UNDEFINED DEFINER=`root`@`%` SQL SECURITY DEFINER VIEW `open_orders` AS select `o`.`id` AS `id`,`c`.`name` AS `name` from (`shop`.`orders` `o` join `shop`.`customers` `c` on((`c`.`id` = `o`.`customer`))) where (`o`.`closed` = 0)";

const LATE_ORDERS: &str = "CREATE VIEW `late_orders` AS select `open_orders`.`id` AS `id` from `shop`.`open_orders` where (`open_orders`.`id` > 7)";

#[test]
fn references_after_from_and_join_are_found() {
    assert_eq!(view_references(OPEN_ORDERS), Ok(names(&["orders", "customers"])));
    assert_eq!(view_references(LATE_ORDERS), Ok(names(&["open_orders"])));
}

#[test]
fn references_after_from_come_before_those_after_join() {
    let ddl = "select 1 from `s`.`a` join `s`.`b` union select 2 from `s`.`c` join `s`.`d`";
    assert_eq!(view_references(ddl), Ok(names(&["a", "c", "b", "d"])));
}

#[test]
fn the_object_is_taken_and_not_the_schema() {
    assert_eq!(view_references("select * from   `warehouse`.`stock items`"), Ok(names(&["stock items"])));
}

#[test]
fn text_without_qualified_names_has_no_references() {
    assert_eq!(view_references("select 1"), Ok(names(&[])));
    assert_eq!(view_references(""), Ok(names(&[])));
    assert_eq!(view_references("select * from orders join customers"), Ok(names(&[])));
    assert_eq!(view_references("select * from `orders`"), Ok(names(&[])));
    assert_eq!(view_references("select * FROM `s`.`orders`"), Ok(names(&[])));
}

#[test]
fn a_pattern_finds_the_second_group_of_each_match() {
    assert_eq!(find_references("(a)(b+)", "ab abb xb abbb"), Ok(names(&["b", "bb", "bbb"])));
    assert_eq!(find_references(FROM_REFERENCE, OPEN_ORDERS), Ok(names(&["orders"])));
    assert_eq!(find_references(JOIN_REFERENCE, OPEN_ORDERS), Ok(names(&["customers"])));
}

#[test]
fn a_group_that_took_no_part_names_nothing() {
    assert_eq!(find_references("(a)|(b)", "abba"), Ok(names(&["b", "b"])));
    assert_eq!(find_references("(a)", "aaa"), Ok(names(&[])));
}

#[test]
fn a_pattern_that_does_not_compile_is_refused() {
    assert_eq!(find_references("(", "text"), Err(PatternRefused));
    assert_eq!(find_references("a{2,1}", "text"), Err(PatternRefused));
}

#[test]
fn referenced_names_keep_what_is_there() {
    let groups = vec![Some("a".to_string()), None, Some("b".to_string()), None];
    assert_eq!(referenced_names(groups), names(&["a", "b"]));
    assert_eq!(referenced_names(Vec::new()), names(&[]));
}

#[test]
fn edges_pair_each_view_with_what_it_reads() {
    let views = vec![view("late_orders", LATE_ORDERS), view("open_orders", OPEN_ORDERS)];
    assert_eq!(
        view_edges(&views),
        Ok(vec![
            ("late_orders".to_string(), "open_orders".to_string()),
            ("open_orders".to_string(), "orders".to_string()),
            ("open_orders".to_string(), "customers".to_string()),
        ])
    );
}

#[test]
fn a_view_comes_after_the_view_that_it_reads() {
    let views = vec![view("late_orders", LATE_ORDERS), view("open_orders", OPEN_ORDERS)];
    assert_eq!(order_views(&views), Ok(names(&["open_orders", "late_orders"])));
}

#[test]
fn views_in_order_stay_in_order() {
    let views = vec![view("open_orders", OPEN_ORDERS), view("late_orders", LATE_ORDERS)];
    assert_eq!(order_views(&views), Ok(names(&["open_orders", "late_orders"])));
    assert_eq!(order_views(&Vec::new()), Ok(names(&[])));
}

#[test]
fn a_chain_of_views_is_ordered_from_the_top_down() {
    let views = vec![
        view("c", "select 1 from `s`.`b`"),
        view("b", "select 1 from `s`.`a`"),
        view("a", "select 1 from `s`.`t`"),
    ];
    assert_eq!(order_views(&views), Ok(names(&["a", "b", "c"])));
}
