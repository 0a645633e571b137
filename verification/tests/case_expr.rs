use thorn::expr::{Collector, Fragment};
use thorn::expr::Case;
use thorn::PgType;

fn render(c: &Case) -> (String, Vec<PgType>) {
    let mut w = String::new();
    let mut t = Collector::new();
    c.collect(&mut w, &mut t).unwrap();
    (w, t.params)
}

#[test]
fn simple_case_with_value() {
    let c = Case::case(Fragment::sql("x"))
        .when(Fragment::sql("1"), Fragment::sql("'one'"))
        .when(Fragment::sql("2"), Fragment::sql("'two'"));
    assert_eq!(render(&c).0, "CASE x WHEN 1 THEN 'one' WHEN 2 THEN 'two' END");
}

#[test]
fn searched_case_with_else() {
    let c = Case::default()
        .when_condition(Fragment::sql("a > 1"), Fragment::sql("true"))
        .otherwise(Fragment::sql("false"));
    assert_eq!(render(&c).0, "CASE WHEN a > 1 THEN true ELSE false END");
}

#[test]
fn otherwise_alone_is_enough() {
    let c = Case::default().otherwise(Fragment::sql("0"));
    assert_eq!(render(&c).0, "CASE ELSE 0 END");
}

#[test]
fn later_otherwise_replaces_earlier() {
    let c = Case::default()
        .otherwise(Fragment::sql("0"))
        .when_condition(Fragment::sql("b"), Fragment::sql("1"))
        .otherwise(Fragment::sql("2"));
    assert_eq!(render(&c).0, "CASE WHEN b THEN 1 ELSE 2 END");
}

#[test]
fn wrapped_operands_get_parentheses() {
    let c = Case::case(Fragment::sql("a + b").wrapped())
        .when(Fragment::sql("1"), Fragment::sql("c OR d").wrapped());
    assert_eq!(render(&c).0, "CASE (a + b) WHEN 1 THEN (c OR d) END");
}

#[test]
fn parameters_are_numbered_in_order() {
    let int8 = PgType::from_oid(20);
    let text = PgType::from_oid(25);
    let c = Case::case(Fragment::param(int8.clone()))
        .when(Fragment::param(int8.clone()), Fragment::sql("x").then_param(text.clone()))
        .otherwise(Fragment::param(text.clone()));
    let mut w = String::new();
    let mut t = Collector::new();
    t.params.push(PgType::from_oid(16));
    c.collect(&mut w, &mut t).unwrap();
    assert_eq!(w, "CASE $2 WHEN $3 THEN x$4 ELSE $5 END");
    assert_eq!(t.params, vec![PgType::from_oid(16), int8.clone(), int8, text.clone(), text]);
}

#[test]
fn case_inside_another_expression_is_parenthesized() {
    let c = Case::default().when_condition(Fragment::sql("p"), Fragment::sql("1"));
    assert!(c.needs_wrapping());
    let mut w = String::from("SELECT ");
    let mut t = Collector::new();
    c.collect_wrapped(&mut w, &mut t).unwrap();
    assert_eq!(w, "SELECT (CASE WHEN p THEN 1 END)");
}

#[test]
fn case_text_is_framed_by_case_and_end() {
    let c = Case::case(Fragment::sql("v")).when(Fragment::sql("1"), Fragment::sql("2"));
    let (s, _) = render(&c);
    assert!(s.starts_with("CASE"));
    assert!(s.ends_with(" END"));
}

#[test]
fn fragment_text_and_wrapping() {
    let f = Fragment::sql("a").then_sql(" = ").then_param(PgType::from_oid(23));
    assert!(!f.needs_wrapping());
    let mut w = String::new();
    let mut t = Collector::new();
    f.collect(&mut w, &mut t).unwrap();
    assert_eq!(w, "a = $1");
    let g = f.wrapped();
    assert!(g.needs_wrapping());
    let mut w2 = String::new();
    g.collect_wrapped(&mut w2, &mut t).unwrap();
    assert_eq!(w2, "(a = $2)");
}

#[test]
fn nested_case_as_a_branch_value() {
    let inner = Case::default()
        .when_condition(Fragment::sql("b"), Fragment::param(PgType::from_oid(23)))
        .otherwise(Fragment::sql("0"))
        .into_fragment();
    assert!(inner.needs_wrapping());
    let outer = Case::case(Fragment::param(PgType::from_oid(20)))
        .when(Fragment::sql("1"), inner)
        .otherwise(Fragment::param(PgType::from_oid(25)));
    let (text, params) = render(&outer);
    assert_eq!(text, "CASE $1 WHEN 1 THEN (CASE WHEN b THEN $2 ELSE 0 END) ELSE $3 END");
    assert_eq!(params, vec![PgType::from_oid(20), PgType::from_oid(23), PgType::from_oid(25)]);
}
