use surreal_simple_querybuilder::node_builder::concat3;
use surreal_simple_querybuilder::prelude::{NodeBuilder, ToNodeBuilder};

#[test]
fn concat3_puts_three_texts_together() {
    assert_eq!(concat3("a", "->", "b"), "a->b");
    assert_eq!(concat3("", "", ""), "");
    assert_eq!(concat3("é", "", "ü"), "éü");
}

#[test]
fn with_puts_an_arrow_between() {
    assert_eq!("Account".with("IS_FRIEND"), "Account->IS_FRIEND");
    assert_eq!("".with("x"), "->x");
    assert_eq!("a".to_owned().with(""), "a->");
}

#[test]
fn as_alias_names_a_path() {
    assert_eq!("->manage->Project".as_alias("managed_projects"), "->manage->Project as managed_projects");
    assert_eq!("count()".to_owned().as_alias("n"), "count() as n");
}

#[test]
fn equals_parameterized_uses_the_node_as_parameter() {
    assert_eq!("email".equals_parameterized(), "email = $email");
    assert_eq!("handle".to_owned().equals_parameterized(), "handle = $handle");
}

#[test]
fn as_named_label_puts_the_table_first() {
    assert_eq!("John".as_named_label("Account"), "Account:John");
    assert_eq!("ee".to_owned().as_named_label("Person"), "Person:ee");
}

#[test]
fn node_str_is_the_text() {
    assert_eq!("abc".node_str(), "abc");
    assert_eq!("abc".to_owned().node_str(), "abc");
}

#[test]
fn if_then_on_a_path() {
    let path = "a".to_owned();
    assert_eq!(path.clone().if_then(true, |p| p.with("b")), "a->b");
    assert_eq!(path.clone().if_then(false, |p| p.with("b")), "a");
    assert_eq!(path.if_then(false, |_| panic!("the action ran")), "a");
}
