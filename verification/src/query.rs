//! The text of a query under construction and the parameters bound to it.
use std::marker::PhantomData;
use vstd::prelude::*;

use crate::pg_type::{lemma_same_type_reflexive, same_type, PgType};
use crate::literal::Literal;
use crate::text::{decimal, push_decimal};

verus! {

/// A row of a query result, as `tokio_postgres` hands it out.
#[verifier::external_type_specification]
#[verifier::external_body]
pub struct ExRow(tokio_postgres::Row);

/// The error of a `std::fmt::Write` sink.
#[verifier::external_type_specification]
#[verifier::external_body]
pub struct ExFmtError(std::fmt::Error);

/// The formatting arguments that `format_args!` builds.
#[verifier::external_type_specification]
#[verifier::external_body]
pub struct ExArguments<'a>(std::fmt::Arguments<'a>);

/// `std::fmt::Write::write_fmt` on a `String`: appends the formatted text.
/// Which text that is depends on the arguments' `Display` impls and is not
/// stated; what is stated is that the string only grows at its end.
#[verifier::external_body]
fn string_write_fmt(s: &mut String, args: std::fmt::Arguments<'_>) -> (r: Result<(), std::fmt::Error>)
    ensures
        old(s)@.is_prefix_of(final(s)@),
{
    std::fmt::Write::write_fmt(s, args)
}

/// Ends a piece written to the text sink, given what writing it gave:
/// after a piece written in full, one space and `Ok`; after a failed one,
/// the text as it is and the same error.
pub fn end_piece(q: &mut String, written: Result<(), std::fmt::Error>) -> (r: Result<(), std::fmt::Error>)
    ensures
        written is Ok ==> r is Ok && final(q)@ == old(q)@.push(' '),
        written is Err ==> r == written && final(q)@ == old(q)@,
{
    match written {
        Ok(()) => {
            q.push(' ');
            Ok(())
        },
        Err(e) => Err(e),
    }
}

/// `String::with_capacity`: an empty string with room reserved for `capacity` characters' bytes.
#[verifier::external_body]
fn string_with_capacity(capacity: usize) -> (s: String)
    ensures
        s@ == Seq::<char>::empty(),
{
    String::with_capacity(capacity)
}

/// `Clone` of `std::fmt::Error`, a unit struct: the clone is the same value.
pub assume_specification[ <std::fmt::Error as Clone>::clone ](e: &std::fmt::Error) -> (r: std::fmt::Error)
    ensures
        r == *e,
;

/// The result rows of a query can be read as a value of this type, which
/// owns its data (`'static`, as every `std::any::Any` type does).
pub trait RowColumns: From<tokio_postgres::Row> + 'static {}

impl<T> RowColumns for T where T: From<tokio_postgres::Row> + 'static {}

/// Why a query could not be written.
#[derive(Debug, Clone)]
pub enum SqlFormatError {
    /// The text sink refused a write.
    FmtError(std::fmt::Error),
    /// A parameter index out of range.
    InvalidParameterIndex(usize),
    /// A parameter bound twice with two different known types:
    /// its 0-based index, the new type and the type recorded before.
    ConflictingParameterType(usize, PgType, PgType),
}

/// A value bound as a query parameter, with the identity by which a second
/// binding of the same value is recognised.
pub struct ParamRef<P> {
    /// Identifies the bound value: two bindings with the same key bind the same value.
    pub key: usize,
    /// The bound value.
    pub value: P,
}

/// How a table is named in SQL text: its name, the snake-case name of the
/// type that stands for it, its schema, if any, and its alias, if any.
pub struct TableInfo {
    pub name: String,
    pub typename_snake: String,
    pub schema: Option<String>,
    pub alias: Option<String>,
}

/// A query under construction.
pub struct Query<E: RowColumns, P> {
    /// The query string
    pub q: String,
    /// The types of the parameters
    pub param_tys: Vec<PgType>,
    /// The parameters to the query
    pub params: Vec<ParamRef<P>>,
    /// Reference to a cached static query
    pub cached: Option<&'static StaticQuery<E>>,
}

/// The text and parameter types of a query, kept for reuse.
pub struct StaticQuery<E: RowColumns> {
    pub q: String,
    pub params: Vec<PgType>,
    pub e: PhantomData<E>,
}

/// What the parameter bookkeeping of a query is: its text, the recorded
/// parameter types and the keys of the bound values, in binding order.
pub struct QueryView {
    pub q: Seq<char>,
    pub param_tys: Seq<PgType>,
    pub keys: Seq<usize>,
}

/// `i` is the first position at which `key` occurs in `keys`.
pub open spec fn is_first_at(keys: Seq<usize>, key: usize, i: int) -> bool {
    &&& 0 <= i < keys.len()
    &&& keys[i] == key
    &&& forall|j: int| 0 <= j < i ==> keys[j] != key
}

/// The first position at which `key` occurs in `keys`, if it occurs.
pub open spec fn first_index(keys: Seq<usize>, key: usize) -> Option<int> {
    if exists|i: int| is_first_at(keys, key, i) {
        Some(choose|i: int| is_first_at(keys, key, i))
    } else {
        None
    }
}

/// A placeholder for the parameter numbered `n`: `$n`.
pub open spec fn placeholder(n: nat) -> Seq<char> {
    seq!['$'] + decimal(n)
}

/// Whether binding `key` adds a new parameter (rather than reusing an earlier one).
pub open spec fn binds_fresh(v: QueryView, key: usize, dynamic: bool) -> bool {
    !(dynamic && first_index(v.keys, key) is Some)
}

/// Whether binding `key` with type `ty` indexes a recorded type that is missing.
pub open spec fn bind_reads_past_types(v: QueryView, key: usize, ty: PgType, dynamic: bool) -> bool {
    &&& !binds_fresh(v, key, dynamic)
    &&& !ty.spec_is_any()
    &&& first_index(v.keys, key)->0 >= v.param_tys.len()
}

/// The effect of binding the value with key `key` and type `ty`: the new state
/// and either the 1-based number of the parameter written or the error.
///
/// A dynamic binding of a value that is already bound reuses its number; it
/// records `ty` where the type was still `any`, and fails where two different
/// known types meet. Every other binding appends a new parameter.
pub open spec fn bind(v: QueryView, key: usize, ty: PgType, dynamic: bool) -> (QueryView, Result<nat, SqlFormatError>) {
    if binds_fresh(v, key, dynamic) {
        let n = v.keys.len() + 1;
        (QueryView { q: v.q + placeholder(n as nat), param_tys: v.param_tys.push(ty), keys: v.keys.push(key) }, Ok(n as nat))
    } else {
        let i = first_index(v.keys, key)->0;
        if ty.spec_is_any() {
            (QueryView { q: v.q + placeholder((i + 1) as nat), ..v }, Ok((i + 1) as nat))
        } else if v.param_tys[i].spec_is_any() {
            (QueryView { q: v.q + placeholder((i + 1) as nat), param_tys: v.param_tys.update(i, ty), keys: v.keys }, Ok((i + 1) as nat))
        } else if same_type(v.param_tys[i], ty) {
            (QueryView { q: v.q + placeholder((i + 1) as nat), ..v }, Ok((i + 1) as nat))
        } else {
            (v, Err(SqlFormatError::ConflictingParameterType(i as usize, ty, v.param_tys[i])))
        }
    }
}

/// Two errors say the same: for a type conflict, the same index and types
/// that are the same types.
pub open spec fn same_error(a: SqlFormatError, b: SqlFormatError) -> bool {
    match (a, b) {
        (SqlFormatError::ConflictingParameterType(i, t, u), SqlFormatError::ConflictingParameterType(j, t2, u2)) => {
            i == j && same_type(t, t2) && same_type(u, u2)
        },
        _ => a == b,
    }
}

/// Two double quotes round `s`.
pub open spec fn quoted(s: Seq<char>) -> Seq<char> {
    seq!['"'] + s + seq!['"']
}

/// How a table is referred to: `"schema"."name"` or `"name"`, then ` AS alias` where it has one.
pub open spec fn table_ref(t: TableInfo) -> Seq<char> {
    let base = match t.schema {
        Some(s) => quoted(s@) + seq!['.'] + quoted(t.name@),
        None => quoted(t.name@),
    };
    match t.alias {
        Some(a) => base + seq![' ', 'A', 'S', ' '] + a@,
        None => base,
    }
}

/// How a column of a table is referred to under the name `name`: `"table"."column"`,
/// where `table` is the table's own name when `name` is the snake-case name of
/// its type, and `name` otherwise.
pub open spec fn column_ref(t: TableInfo, name: Seq<char>, column: Seq<char>) -> Seq<char> {
    let table = if name == t.typename_snake@ { t.name@ } else { name };
    quoted(table) + seq!['.'] + quoted(column)
}

impl<E: RowColumns, P> View for Query<E, P> {
    type V = QueryView;

    open spec fn view(&self) -> QueryView {
        QueryView {
            q: self.q@,
            param_tys: self.param_tys@,
            keys: self.params@.map_values(|p: ParamRef<P>| p.key),
        }
    }
}

/// The query as a text sink: each piece written is followed by one space.
impl<E: RowColumns, P> std::fmt::Write for Query<E, P> {
    fn write_str(&mut self, s: &str) -> (r: Result<(), std::fmt::Error>)
        ensures
            r is Ok,
            final(self).q@ == old(self).q@ + s@ + seq![' '],
            final(self).param_tys == old(self).param_tys,
            final(self).params == old(self).params,
            final(self).cached == old(self).cached,
    {
        self.q.append(s);
        self.q.push(' ');
        Ok(())
    }

    fn write_char(&mut self, c: char) -> (r: Result<(), std::fmt::Error>)
        ensures
            r is Ok,
            final(self).q@ == old(self).q@ + seq![c, ' '],
            final(self).param_tys == old(self).param_tys,
            final(self).params == old(self).params,
            final(self).cached == old(self).cached,
    {
        self.q.push(c);
        self.q.push(' ');
        Ok(())
    }

    fn write_fmt(&mut self, args: std::fmt::Arguments<'_>) -> (r: Result<(), std::fmt::Error>)
        ensures
            old(self).q@.is_prefix_of(final(self).q@),
            r is Ok ==> final(self).q@.len() > old(self).q@.len() && final(self).q@.last() == ' ',
            final(self).param_tys == old(self).param_tys,
            final(self).params == old(self).params,
            final(self).cached == old(self).cached,
    {
        let written = string_write_fmt(&mut self.q, args);
        end_piece(&mut self.q, written)
    }
}

impl<E: RowColumns, P> From<Query<E, P>> for StaticQuery<E> {
    fn from(q: Query<E, P>) -> (r: Self)
        ensures
            r.q == q.q,
            r.params == q.param_tys,
    {
        StaticQuery { q: q.q, params: q.param_tys, e: PhantomData }
    }
}

impl<E: RowColumns, P> vstd::std_specs::convert::FromSpecImpl<Query<E, P>> for StaticQuery<E> {
    open spec fn obeys_from_spec() -> bool {
        true
    }

    open spec fn from_spec(q: Query<E, P>) -> Self {
        StaticQuery { q: q.q, params: q.param_tys, e: PhantomData }
    }
}

impl<E: RowColumns, P> Default for Query<E, P> {
    fn default() -> (r: Self)
        ensures
            r.q@ == Seq::<char>::empty(),
            r.param_tys@ == Seq::<PgType>::empty(),
            r.params@ == Seq::<ParamRef<P>>::empty(),
            r.cached is None,
    {
        Query { q: string_with_capacity(128), params: Vec::new(), param_tys: Vec::new(), cached: None }
    }
}

impl<E: RowColumns, P> Query<E, P> {
    /// The query text, to write into directly.
    pub fn inner(&mut self) -> (r: &mut String)
        ensures
            *r == old(self).q,
            final(self).q == *final(r),
            final(self).param_tys == old(self).param_tys,
            final(self).params == old(self).params,
            final(self).cached == old(self).cached,
    {
        &mut self.q
    }

    /// A query that reuses a cached static query, with the given parameters.
    pub fn __from_cached(cached: &'static StaticQuery<E>, params: Vec<ParamRef<P>>) -> (r: Self)
        ensures
            r.params == params,
            r.cached == Some(cached),
            r.q@ == Seq::<char>::empty(),
            r.param_tys@ == Seq::<PgType>::empty(),
    {
        Query { params, cached: Some(cached), q: String::new(), param_tys: Vec::new() }
    }

    /// The first position of a bound value with the given key, if one has it.
    pub fn position(&self, key: usize) -> (r: Option<usize>)
        ensures
            r matches Some(i) ==> first_index(self@.keys, key) == Some(i as int) && i < self.params.len(),
            r is None ==> first_index(self@.keys, key) is None,
    {
        let ghost keys = self@.keys;
        let mut i: usize = 0;
        while i < self.params.len()
            invariant
                keys == self@.keys,
                keys.len() == self.params.len(),
                i <= self.params.len(),
                forall|j: int| 0 <= j < i ==> keys[j] != key,
            decreases self.params.len() - i,
        {
            if self.params[i].key == key {
                proof { lemma_first_index_at(keys, key, i as int); }
                return Some(i);
            }
            i = i + 1;
        }
        assert(!exists|c: int| is_first_at(keys, key, c));
        None
    }

    /// Binds `value` as a parameter of type `ty` and writes its placeholder `$n`.
    ///
    /// With `DYNAMIC`, a value bound before (recognised by its key) keeps its
    /// number, and its type is refined from `any` to `ty`; two different known
    /// types are an error. Otherwise the value is always bound anew.
    pub fn param<const DYNAMIC: bool>(&mut self, value: ParamRef<P>, ty: PgType) -> (res: Result<(), SqlFormatError>)
        requires
            !bind_reads_past_types(old(self)@, value.key, ty, DYNAMIC),
        ensures
            ({
                let (v, r) = bind(old(self)@, value.key, ty, DYNAMIC);
                &&& final(self)@ == v
                &&& (res is Ok <==> r is Ok)
                &&& (res matches Err(e) ==> r matches Err(e2) && same_error(e, e2))
            }),
            binds_fresh(old(self)@, value.key, DYNAMIC) ==> final(self).params@ == old(self).params@.push(value),
            !binds_fresh(old(self)@, value.key, DYNAMIC) ==> final(self).params@ == old(self).params@,
            final(self).cached == old(self).cached,
    {
        let ghost old_view = self@;
        let found = self.position(value.key);
        let idx: usize;
        if DYNAMIC && found.is_some() {
            let i = found.unwrap();
            if !ty.is_any() {
                if self.param_tys[i].is_any() {
                    self.param_tys.set(i, ty);
                } else if !self.param_tys[i].same_as(&ty) {
                    let existing_ty = self.param_tys[i].duplicate();
                    proof { lemma_same_type_reflexive(ty); }
                    return Err(SqlFormatError::ConflictingParameterType(i, ty, existing_ty));
                }
            }
            idx = i + 1;
        } else {
            self.param_tys.push(ty);
            self.params.push(value);
            idx = self.params.len();
            assert(self@.keys =~= old_view.keys.push(value.key));
        }
        self.q.push('$');
        push_decimal(&mut self.q, idx as u64);
        proof {
            let (v, r) = bind(old_view, value.key, ty, DYNAMIC);
            assert(self@.q =~= v.q);
            assert(self@.param_tys =~= v.param_tys);
            assert(self@.keys =~= v.keys);
        }
        Ok(())
    }

    /// Writes a literal: its SQL notation, with nothing around it.
    pub fn write_literal<L: Literal>(&mut self, lit: L) -> (r: Result<(), std::fmt::Error>)
        ensures
            r is Ok,
            final(self).q@ == old(self).q@ + lit.literal_text(),
            final(self).param_tys == old(self).param_tys,
            final(self).params == old(self).params,
            final(self).cached == old(self).cached,
    {
        lit.write_literal(&mut self.q)
    }

    /// Writes the reference to column `column` of `table`, under the table name
    /// `name`: `"table"."column"` (`table` is the table's own name when `name`
    /// is the snake-case name of its type).
    pub fn write_column(&mut self, table: &TableInfo, name: &str, column: &str) -> (r: Result<(), std::fmt::Error>)
        ensures
            r is Ok,
            final(self).q@ == old(self).q@ + column_ref(*table, name@, column@),
            final(self).param_tys == old(self).param_tys,
            final(self).params == old(self).params,
            final(self).cached == old(self).cached,
    {
        let ghost q0 = self.q@;
        self.q.push('"');
        let name_owned = name.to_string();
        if name_owned == table.typename_snake {
            self.q.append(table.name.as_str());
        } else {
            self.q.append(name);
        }
        self.q.append("\".\"");
        self.q.append(column);
        self.q.push('"');
        proof {
            reveal_strlit("\".\"");
            assert(self.q@ =~= q0 + column_ref(*table, name@, column@));
        }
        Ok(())
    }

    /// Writes the reference to `table`, followed by one space:
    /// `"schema"."name"` or `"name"`, then ` AS alias` where it has one.
    pub fn write_table(&mut self, table: &TableInfo) -> (r: Result<(), std::fmt::Error>)
        ensures
            r is Ok,
            final(self).q@ == old(self).q@ + table_ref(*table) + seq![' '],
            final(self).param_tys == old(self).param_tys,
            final(self).params == old(self).params,
            final(self).cached == old(self).cached,
    {
        let ghost q0 = self.q@;
        match &table.schema {
            Some(schema) => {
                self.q.push('"');
                self.q.append(schema.as_str());
                self.q.append("\".\"");
                proof { reveal_strlit("\".\""); }
            },
            None => {
                self.q.push('"');
            },
        }
        self.q.append(table.name.as_str());
        self.q.push('"');
        match &table.alias {
            Some(alias) => {
                self.q.append(" AS ");
                proof { reveal_strlit(" AS "); }
                self.q.append(alias.as_str());
            },
            None => {},
        }
        self.q.push(' ');
        proof {
            assert(self.q@ =~= q0 + table_ref(*table) + seq![' ']);
        }
        Ok(())
    }

    /// Writes the name of column `column`, quoted, followed by one space.
    pub fn write_column_name(&mut self, column: &str) -> (r: Result<(), std::fmt::Error>)
        ensures
            r is Ok,
            final(self).q@ == old(self).q@ + quoted(column@) + seq![' '],
            final(self).param_tys == old(self).param_tys,
            final(self).params == old(self).params,
            final(self).cached == old(self).cached,
    {
        self.q.push('"');
        self.q.append(column);
        self.q.push('"');
        self.q.push(' ');
        Ok(())
    }

    /// Writes the name of a function.
    pub fn write_func(&mut self, name: &str)
        ensures
            final(self).q@ == old(self).q@ + name@,
            final(self).param_tys == old(self).param_tys,
            final(self).params == old(self).params,
            final(self).cached == old(self).cached,
    {
        self.q.append(name)
    }

    /// Writes `s` as it stands, with no space after it, and returns `Ok`;
    /// its result type is that of the text sink's `write_str`.
    pub fn write_str(&mut self, s: &str) -> (r: Result<(), std::fmt::Error>)
        ensures
            r is Ok,
            final(self).q@ == old(self).q@ + s@,
            final(self).param_tys == old(self).param_tys,
            final(self).params == old(self).params,
            final(self).cached == old(self).cached,
    {
        self.q.append(s);
        Ok(())
    }
}

} // verus!

verus! {

/// The parameter bookkeeping is consistent: one recorded type per bound value.
pub open spec fn is_consistent(v: QueryView) -> bool {
    v.param_tys.len() == v.keys.len()
}

/// A binding keeps the bookkeeping consistent.
pub proof fn lemma_bind_keeps_consistent(v: QueryView, key: usize, ty: PgType, dynamic: bool)
    requires
        is_consistent(v),
    ensures
        is_consistent(bind(v, key, ty, dynamic).0),
{
}

/// A binding only appends to the query text.
pub proof fn lemma_bind_appends_text(v: QueryView, key: usize, ty: PgType, dynamic: bool)
    ensures
        v.q.is_prefix_of(bind(v, key, ty, dynamic).0.q),
{
    assert(v.q.is_prefix_of(v.q));
    assert forall|n: nat| v.q.is_prefix_of(#[trigger] (v.q + placeholder(n))) by {
        assert((v.q + placeholder(n)).subrange(0, v.q.len() as int) =~= v.q);
    }
}

/// The first position of `key` is the one position that is first.
pub proof fn lemma_first_index_at(keys: Seq<usize>, key: usize, i: int)
    requires
        is_first_at(keys, key, i),
    ensures
        first_index(keys, key) == Some(i),
{
    let c = choose|c: int| is_first_at(keys, key, c);
    if c < i {
        assert(keys[c] != key);
    }
    if c > i {
        assert(keys[i] != key);
    }
}

/// Where `key` occurs in `keys`, it has a first position.
pub proof fn lemma_first_exists(keys: Seq<usize>, key: usize, j: int)
    requires
        0 <= j < keys.len(),
        keys[j] == key,
    ensures
        exists|i: int| is_first_at(keys, key, i),
    decreases j,
{
    if exists|k: int| 0 <= k < j && keys[k] == key {
        let k = choose|k: int| 0 <= k < j && keys[k] == key;
        lemma_first_exists(keys, key, k);
    } else {
        assert(is_first_at(keys, key, j));
    }
}

/// A successful binding writes the placeholder `$n`, where `n` is the 1-based
/// position of the bound value; a dynamic binding names the first binding of it.
pub proof fn lemma_bind_number_names_value(v: QueryView, key: usize, ty: PgType, dynamic: bool)
    requires
        bind(v, key, ty, dynamic).1 is Ok,
    ensures
        ({
            let (v1, r) = bind(v, key, ty, dynamic);
            let n = r->Ok_0;
            &&& v1.q == v.q + placeholder(n)
            &&& 1 <= n <= v1.keys.len()
            &&& v1.keys[n - 1] == key
            &&& dynamic ==> is_first_at(v1.keys, key, n - 1)
        }),
{
    if binds_fresh(v, key, dynamic) {
        let k1 = v.keys.push(key);
        if dynamic {
            assert forall|j: int| 0 <= j < v.keys.len() implies k1[j] != key by {
                if k1[j] == key {
                    lemma_first_exists(v.keys, key, j);
                }
            }
            assert(is_first_at(k1, key, v.keys.len() as int));
        }
    } else {
        let i = first_index(v.keys, key)->0;
        assert(is_first_at(v.keys, key, i));
    }
}

/// Binding a value dynamically a second time, with the same type, gives the
/// number it got the first time, and changes neither the bound values nor
/// their types: the text only gains the placeholder.
pub proof fn lemma_dynamic_rebind_reuses_number(v: QueryView, key: usize, ty: PgType)
    requires
        is_consistent(v),
        bind(v, key, ty, true).1 is Ok,
    ensures
        ({
            let (v1, r1) = bind(v, key, ty, true);
            let (v2, r2) = bind(v1, key, ty, true);
            &&& r2 == r1
            &&& v2.keys == v1.keys
            &&& v2.param_tys == v1.param_tys
            &&& v2.q == v1.q + placeholder(r1->Ok_0)
        }),
{
    let (v1, r1) = bind(v, key, ty, true);
    lemma_bind_number_names_value(v, key, ty, true);
    let n = r1->Ok_0;
    let i = (n - 1) as int;
    lemma_first_index_at(v1.keys, key, i);
    lemma_same_type_reflexive(ty);
    if binds_fresh(v, key, true) {
        assert(v1.param_tys[i] == ty);
    } else {
        assert(i == first_index(v.keys, key)->0);
    }
}

/// Binding with the type `any` never fails: `any` meets every recorded type.
pub proof fn lemma_bind_any_never_fails(v: QueryView, key: usize, ty: PgType, dynamic: bool)
    requires
        ty.spec_is_any(),
    ensures
        bind(v, key, ty, dynamic).1 is Ok,
{
}

/// A binding changes no recorded type but that of the bound value. A fresh
/// binding appends `ty`. A dynamic re-binding of a value whose recorded type
/// is `any`, with a known `ty`, records `ty` at the position of the value's
/// first binding; any other re-binding leaves the recorded types as they were.
pub proof fn lemma_bind_records_type(v: QueryView, key: usize, ty: PgType, dynamic: bool)
    requires
        bind(v, key, ty, dynamic).1 is Ok,
        !bind_reads_past_types(v, key, ty, dynamic),
    ensures
        ({
            let v1 = bind(v, key, ty, dynamic).0;
            &&& binds_fresh(v, key, dynamic) ==> v1.param_tys == v.param_tys.push(ty)
            &&& !binds_fresh(v, key, dynamic) ==> {
                let i = first_index(v.keys, key)->0;
                &&& 0 <= i < v.keys.len()
                &&& v.keys[i] == key
                &&& v1.param_tys.len() == v.param_tys.len()
                &&& forall|j: int| 0 <= j < v.param_tys.len() && j != i
                    ==> #[trigger] v1.param_tys[j] == v.param_tys[j]
                &&& (!ty.spec_is_any() && v.param_tys[i].spec_is_any())
                    ==> v1.param_tys == v.param_tys.update(i, ty)
                &&& !(!ty.spec_is_any() && v.param_tys[i].spec_is_any())
                    ==> v1.param_tys == v.param_tys
            }
        }),
{
    if !binds_fresh(v, key, dynamic) {
        let i = first_index(v.keys, key)->0;
        assert(is_first_at(v.keys, key, i));
    }
}

/// Under the snake-case name of the table's type, a column is written with
/// the table's own name; under any other name, with that name. The table's
/// schema and alias play no part.
pub proof fn lemma_column_ref_names(
    t: TableInfo,
    name: Seq<char>,
    column: Seq<char>,
    schema: Option<String>,
    alias: Option<String>,
)
    ensures
        name == t.typename_snake@ ==> column_ref(t, name, column)
            == quoted(t.name@) + seq!['.'] + quoted(column),
        name != t.typename_snake@ ==> column_ref(t, name, column)
            == quoted(name) + seq!['.'] + quoted(column),
        column_ref(TableInfo { schema, alias, ..t }, name, column) == column_ref(t, name, column),
{
}

} // verus!
