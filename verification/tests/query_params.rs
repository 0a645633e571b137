use thorn::query::{end_piece, ParamRef, TableInfo};
use thorn::pg_type::{CustomType, Field, Kind};
use thorn::{PgType, Query, SqlFormatError, StaticQuery};

pub struct Cols;

impl From<tokio_postgres::Row> for Cols {
    fn from(_row: tokio_postgres::Row) -> Self {
        Cols
    }
}

const ANY: u32 = 2276;
const INT8: u32 = 20;
const INT4: u32 = 23;

fn p(key: usize, value: &'static str) -> ParamRef<&'static str> {
    ParamRef { key, value }
}

fn new_query() -> Query<Cols, &'static str> {
    Query::default()
}

#[test]
fn default_query_is_empty() {
    let q = new_query();
    assert_eq!(q.q, "");
    assert!(q.param_tys.is_empty());
    assert!(q.params.is_empty());
    assert!(q.cached.is_none());
}

#[test]
fn static_params_are_always_appended() {
    let mut q = new_query();
    q.param::<false>(p(1, "a"), PgType::from_oid(INT8)).unwrap();
    q.write_str(" ").unwrap();
    q.param::<false>(p(1, "a"), PgType::from_oid(INT8)).unwrap();
    assert_eq!(q.q, "$1 $2");
    assert_eq!(q.params.len(), 2);
    assert_eq!(q.param_tys, vec![PgType::from_oid(INT8), PgType::from_oid(INT8)]);
}

#[test]
fn dynamic_params_are_deduplicated() {
    let mut q = new_query();
    q.param::<true>(p(7, "a"), PgType::from_oid(INT8)).unwrap();
    q.write_str(",").unwrap();
    q.param::<true>(p(9, "b"), PgType::from_oid(INT4)).unwrap();
    q.write_str(",").unwrap();
    q.param::<true>(p(7, "a"), PgType::from_oid(INT8)).unwrap();
    assert_eq!(q.q, "$1,$2,$1");
    assert_eq!(q.params.len(), 2);
    assert_eq!(q.params[0].value, "a");
    assert_eq!(q.params[1].value, "b");
}

#[test]
fn dynamic_param_refines_any() {
    let mut q = new_query();
    q.param::<true>(p(3, "x"), PgType::from_oid(ANY)).unwrap();
    assert_eq!(q.param_tys, vec![PgType::from_oid(ANY)]);
    q.param::<true>(p(3, "x"), PgType::from_oid(INT4)).unwrap();
    assert_eq!(q.param_tys, vec![PgType::from_oid(INT4)]);
    q.param::<true>(p(3, "x"), PgType::from_oid(ANY)).unwrap();
    assert_eq!(q.param_tys, vec![PgType::from_oid(INT4)]);
    assert_eq!(q.q, "$1$1$1");
}

#[test]
fn dynamic_param_conflicting_types() {
    let mut q = new_query();
    q.param::<true>(p(3, "x"), PgType::from_oid(INT4)).unwrap();
    let before = q.q.clone();
    match q.param::<true>(p(3, "x"), PgType::from_oid(INT8)) {
        Err(SqlFormatError::ConflictingParameterType(idx, new_ty, old_ty)) => {
            assert_eq!(idx, 0);
            assert_eq!(new_ty, PgType::from_oid(INT8));
            assert_eq!(old_ty, PgType::from_oid(INT4));
        }
        _ => panic!("expected a conflict"),
    }
    assert_eq!(q.q, before);
    assert_eq!(q.param_tys, vec![PgType::from_oid(INT4)]);
}

#[test]
fn tenth_parameter_has_two_digits() {
    let mut q = new_query();
    for k in 0..10 {
        q.param::<false>(p(k, "v"), PgType::from_oid(INT8)).unwrap();
    }
    assert_eq!(q.q, "$1$2$3$4$5$6$7$8$9$10");
}

#[test]
fn cached_query_keeps_params() {
    let sq: &'static StaticQuery<Cols> = Box::leak(Box::new(StaticQuery::from(new_query())));
    let q: Query<Cols, &'static str> = Query::__from_cached(sq, vec![p(5, "z")]);
    assert!(q.cached.is_some());
    assert_eq!(q.params.len(), 1);
    assert!(q.param_tys.is_empty());
    assert_eq!(q.q, "");
}

#[test]
fn static_query_from_query() {
    let mut q = new_query();
    q.write_str("SELECT ").unwrap();
    q.param::<false>(p(1, "a"), PgType::from_oid(INT8)).unwrap();
    let sq: StaticQuery<Cols> = StaticQuery::from(q);
    assert_eq!(sq.q, "SELECT $1");
    assert_eq!(sq.params, vec![PgType::from_oid(INT8)]);
}

#[test]
fn literals() {
    let mut q = new_query();
    q.write_literal(0i64).unwrap();
    q.write_str(" ").unwrap();
    q.write_literal(-42i32).unwrap();
    q.write_str(" ").unwrap();
    q.write_literal(i64::MIN).unwrap();
    q.write_str(" ").unwrap();
    q.write_literal(i64::MAX).unwrap();
    assert_eq!(q.q, "0 -42 -9223372036854775808 9223372036854775807");
}

fn users(schema: Option<&str>, alias: Option<&str>) -> TableInfo {
    TableInfo {
        name: String::from("users"),
        typename_snake: String::from("users_table"),
        schema: schema.map(String::from),
        alias: alias.map(String::from),
    }
}

#[test]
fn table_references() {
    let mut q = new_query();
    q.write_table(&users(None, None)).unwrap();
    q.write_table(&users(Some("app"), None)).unwrap();
    q.write_table(&users(None, Some("u"))).unwrap();
    q.write_table(&users(Some("app"), Some("u"))).unwrap();
    assert_eq!(
        q.q,
        "\"users\" \"app\".\"users\" \"users\" AS u \"app\".\"users\" AS u "
    );
}

#[test]
fn column_references() {
    let t = users(None, None);
    let mut q = new_query();
    q.write_column(&t, "users_table", "id").unwrap();
    q.write_str(" ").unwrap();
    q.write_column(&t, "u", "id").unwrap();
    assert_eq!(q.q, "\"users\".\"id\" \"u\".\"id\"");
}

#[test]
fn column_names_functions_and_raw_text() {
    let mut q = new_query();
    q.write_column_name("id").unwrap();
    q.write_func("COUNT");
    q.write_str("(*)").unwrap();
    assert_eq!(q.q, "\"id\" COUNT(*)");
}

#[test]
fn inner_gives_the_text() {
    let mut q = new_query();
    q.inner().push_str("abc");
    assert_eq!(q.q, "abc");
}

#[test]
fn text_sink_adds_a_space_after_each_piece() {
    let mut q = new_query();
    std::fmt::Write::write_str(&mut q, "SELECT").unwrap();
    std::fmt::Write::write_char(&mut q, '*').unwrap();
    std::fmt::Write::write_str(&mut q, "FROM t").unwrap();
    assert_eq!(q.q, "SELECT * FROM t ");
}

#[test]
fn string_literals_are_quoted_and_escaped() {
    let mut q = new_query();
    q.write_literal("hel'lo").unwrap();
    q.write_str(" ").unwrap();
    q.write_literal(String::from("")).unwrap();
    q.write_str(" ").unwrap();
    q.write_literal(7i16).unwrap();
    q.write_str(" ").unwrap();
    q.write_literal(true).unwrap();
    q.write_str(" ").unwrap();
    q.write_literal(false).unwrap();
    assert_eq!(q.q, "'hel''lo' '' 7 TRUE FALSE");
}

#[test]
fn position_finds_the_first_binding() {
    let mut q = new_query();
    q.param::<false>(p(4, "a"), PgType::from_oid(INT8)).unwrap();
    q.param::<false>(p(6, "b"), PgType::from_oid(INT8)).unwrap();
    q.param::<false>(p(4, "c"), PgType::from_oid(INT8)).unwrap();
    assert_eq!(q.position(4), Some(0));
    assert_eq!(q.position(6), Some(1));
    assert_eq!(q.position(5), None);
}

#[test]
fn ending_a_piece() {
    let mut s = String::from("x");
    assert!(end_piece(&mut s, Ok(())).is_ok());
    assert_eq!(s, "x ");
    assert!(end_piece(&mut s, Err(std::fmt::Error)).is_err());
    assert_eq!(s, "x ");
}

fn custom(name: &str, oid: u32, kind: Kind) -> PgType {
    PgType::Custom(Box::new(CustomType {
        name: String::from(name),
        oid,
        kind,
        schema: String::from("public"),
    }))
}

#[test]
fn custom_types_with_one_oid_but_other_names_conflict() {
    let mut q = new_query();
    q.param::<true>(p(3, "x"), custom("mood", 90000, Kind::Enum(vec![String::from("sad")]))).unwrap();
    match q.param::<true>(p(3, "x"), custom("feeling", 90000, Kind::Enum(vec![String::from("sad")]))) {
        Err(SqlFormatError::ConflictingParameterType(0, _, old_ty)) => {
            assert_eq!(old_ty, custom("mood", 90000, Kind::Enum(vec![String::from("sad")])));
        }
        _ => panic!("expected a conflict"),
    }
    // the same custom type again is no conflict
    q.param::<true>(p(3, "x"), custom("mood", 90000, Kind::Enum(vec![String::from("sad")]))).unwrap();
    assert_eq!(q.q, "$1$1");
}

#[test]
fn custom_type_with_the_oid_of_any_is_not_any() {
    let mut q = new_query();
    q.param::<true>(p(3, "x"), custom("anyish", ANY, Kind::Pseudo)).unwrap();
    assert!(q.param::<true>(p(3, "x"), PgType::from_oid(INT4)).is_err());
    assert!(!custom("anyish", ANY, Kind::Pseudo).is_any());
    assert!(PgType::from_oid(ANY).is_any());
}

#[test]
fn composite_types_compare_by_fields() {
    let a = custom(
        "pair",
        91000,
        Kind::Composite(vec![Field { name: String::from("x"), type_: PgType::from_oid(INT4) }]),
    );
    let b = custom(
        "pair",
        91000,
        Kind::Composite(vec![Field { name: String::from("x"), type_: PgType::from_oid(INT8) }]),
    );
    assert!(a.same_as(&a.duplicate()));
    assert!(!a.same_as(&b));
    assert!(!a.same_as(&PgType::from_oid(91000)));
    let arr = custom("_pair", 91001, Kind::Array(a.clone()));
    assert!(arr.same_as(&custom("_pair", 91001, Kind::Array(a))));
    assert!(!arr.same_as(&custom("_pair", 91001, Kind::Array(b))));
}
