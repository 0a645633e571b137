//! PostgreSQL types, held as plain values: a built-in type by its OID, and
//! any other type by its name, OID, kind and schema.
use vstd::prelude::*;

verus! {

/// The OID of the pseudo-type `any`, which accepts a value of every type.
pub const ANY_OID: u32 = 2276;

/// A PostgreSQL type.
#[derive(Debug, PartialEq, Eq)]
pub enum PgType {
    /// A built-in type, identified by its OID.
    Builtin(u32),
    /// A type defined in a database.
    Custom(Box<CustomType>),
}

/// A type defined in a database.
#[derive(Debug, PartialEq, Eq)]
pub struct CustomType {
    pub name: String,
    pub oid: u32,
    pub kind: Kind,
    pub schema: String,
}

/// What kind of type a type is.
#[derive(Debug, PartialEq, Eq)]
pub enum Kind {
    /// A simple type like `VARCHAR` or `INTEGER`.
    Simple,
    /// An enumerated type along with its variants.
    Enum(Vec<String>),
    /// A pseudo-type.
    Pseudo,
    /// An array type along with the type of its elements.
    Array(PgType),
    /// A range type along with the type of its elements.
    Range(PgType),
    /// A multirange type along with the type of its elements.
    Multirange(PgType),
    /// A domain type along with its underlying type.
    Domain(PgType),
    /// A composite type along with its fields.
    Composite(Vec<Field>),
}

/// A field of a composite type.
#[derive(Debug, PartialEq, Eq)]
pub struct Field {
    pub name: String,
    pub type_: PgType,
}

/// Two lists of names hold the same names, in the same order.
pub open spec fn same_names(a: Seq<String>, b: Seq<String>) -> bool {
    &&& a.len() == b.len()
    &&& forall|i: int| 0 <= i < a.len() ==> #[trigger] a[i]@ == b[i]@
}

/// Whether two types are the same type: the same built-in type, or two
/// defined types with the same name, OID, kind and schema.
pub open spec fn same_type(a: PgType, b: PgType) -> bool
    decreases a,
{
    match a {
        PgType::Builtin(x) => b matches PgType::Builtin(y) && x == y,
        PgType::Custom(ca) => match b {
            PgType::Custom(cb) => {
                &&& ca.name@ == cb.name@
                &&& ca.oid == cb.oid
                &&& ca.schema@ == cb.schema@
                &&& same_kind(ca.kind, cb.kind)
            },
            PgType::Builtin(_) => false,
        },
    }
}

/// Whether two kinds are the same kind.
pub open spec fn same_kind(a: Kind, b: Kind) -> bool
    decreases a,
{
    match a {
        Kind::Simple => b is Simple,
        Kind::Pseudo => b is Pseudo,
        Kind::Enum(va) => b matches Kind::Enum(vb) && same_names(va@, vb@),
        Kind::Array(x) => b matches Kind::Array(y) && same_type(x, y),
        Kind::Range(x) => b matches Kind::Range(y) && same_type(x, y),
        Kind::Multirange(x) => b matches Kind::Multirange(y) && same_type(x, y),
        Kind::Domain(x) => b matches Kind::Domain(y) && same_type(x, y),
        Kind::Composite(fa) => match b {
            Kind::Composite(fb) => {
                &&& fa@.len() == fb@.len()
                &&& forall|i: int| 0 <= i < fa@.len() ==> {
                    &&& (#[trigger] fa@[i]).name@ == fb@[i].name@
                    &&& same_type(fa@[i].type_, fb@[i].type_)
                }
            },
            _ => false,
        },
    }
}

/// Two lists of types hold the same types, in the same order.
pub open spec fn same_types(a: Seq<PgType>, b: Seq<PgType>) -> bool {
    &&& a.len() == b.len()
    &&& forall|i: int| 0 <= i < a.len() ==> same_type(#[trigger] a[i], b[i])
}

/// Every type is the same type as itself.
pub proof fn lemma_same_type_reflexive(t: PgType)
    ensures
        same_type(t, t),
    decreases t,
{
    match t {
        PgType::Builtin(_) => {},
        PgType::Custom(c) => {
            lemma_same_kind_reflexive(c.kind);
        },
    }
}

/// Every kind is the same kind as itself.
pub proof fn lemma_same_kind_reflexive(k: Kind)
    ensures
        same_kind(k, k),
    decreases k,
{
    match k {
        Kind::Array(x) => lemma_same_type_reflexive(x),
        Kind::Range(x) => lemma_same_type_reflexive(x),
        Kind::Multirange(x) => lemma_same_type_reflexive(x),
        Kind::Domain(x) => lemma_same_type_reflexive(x),
        Kind::Composite(fa) => {
            assert forall|i: int| 0 <= i < fa@.len() implies same_type(fa@[i].type_, fa@[i].type_) by {
                assert(decreases_to!(k => fa));
                assert(decreases_to!(fa => fa@[i]));
                lemma_same_type_reflexive(fa@[i].type_);
            }
        },
        _ => {},
    }
}

/// A list of types holds the same types as itself.
pub proof fn lemma_same_types_reflexive(a: Seq<PgType>)
    ensures
        same_types(a, a),
{
    assert forall|i: int| 0 <= i < a.len() implies same_type(#[trigger] a[i], a[i]) by {
        lemma_same_type_reflexive(a[i]);
    }
}

/// Two lists that hold the same types, each followed by a list of the same
/// types, hold the same types.
pub proof fn lemma_same_types_concat(a: Seq<PgType>, b: Seq<PgType>, c: Seq<PgType>, d: Seq<PgType>)
    requires
        same_types(a, b),
        same_types(c, d),
    ensures
        same_types(a + c, b + d),
{
    assert forall|i: int| 0 <= i < (a + c).len() implies same_type(#[trigger] (a + c)[i], (b + d)[i]) by {
        if i < a.len() {
            assert((a + c)[i] == a[i]);
            assert((b + d)[i] == b[i]);
        } else {
            assert((a + c)[i] == c[i - a.len()]);
            assert((b + d)[i] == d[i - a.len()]);
        }
    }
}

/// `new` is `old` followed by types that are the same as those of `added`.
pub open spec fn appended(old: Seq<PgType>, new: Seq<PgType>, added: Seq<PgType>) -> bool {
    &&& new.len() == old.len() + added.len()
    &&& new.take(old.len() as int) == old
    &&& same_types(new.skip(old.len() as int), added)
}

/// Appending nothing.
pub proof fn lemma_appended_nothing(a: Seq<PgType>)
    ensures
        appended(a, a, Seq::empty()),
{
    assert(a.take(a.len() as int) =~= a);
    assert(a.skip(a.len() as int) =~= Seq::<PgType>::empty());
}

/// Appending one type that is the same as `ty`.
pub proof fn lemma_appended_push(a: Seq<PgType>, d: PgType, ty: PgType)
    requires
        same_type(d, ty),
    ensures
        appended(a, a.push(d), seq![ty]),
{
    assert(a.push(d).take(a.len() as int) =~= a);
    assert(a.push(d).skip(a.len() as int) =~= seq![d]);
}

/// Appending `x`, then `y`, appends `x + y`.
pub proof fn lemma_appended_chain(a: Seq<PgType>, b: Seq<PgType>, c: Seq<PgType>, x: Seq<PgType>, y: Seq<PgType>)
    requires
        appended(a, b, x),
        appended(b, c, y),
    ensures
        appended(a, c, x + y),
{
    let n = a.len() as int;
    let m = b.len() as int;
    assert(c.take(n) =~= b.take(n));
    assert(c.skip(n) =~= b.skip(n) + c.skip(m)) by {
        assert(c.take(m) == b);
    }
    lemma_same_types_concat(b.skip(n), x, c.skip(m), y);
}

fn copy_names(v: &Vec<String>) -> (r: Vec<String>)
    ensures
        same_names(r@, v@),
{
    let mut r: Vec<String> = Vec::new();
    let mut i: usize = 0;
    while i < v.len()
        invariant
            i <= v.len(),
            r@.len() == i,
            forall|j: int| 0 <= j < i ==> #[trigger] r@[j]@ == v@[j]@,
        decreases v.len() - i,
    {
        r.push(v[i].clone());
        i = i + 1;
    }
    r
}

fn names_equal(a: &Vec<String>, b: &Vec<String>) -> (r: bool)
    ensures
        r == same_names(a@, b@),
{
    if a.len() != b.len() {
        return false;
    }
    let mut i: usize = 0;
    while i < a.len()
        invariant
            a.len() == b.len(),
            i <= a.len(),
            forall|j: int| 0 <= j < i ==> #[trigger] a@[j]@ == b@[j]@,
        decreases a.len() - i,
    {
        if a[i] != b[i] {
            return false;
        }
        i = i + 1;
    }
    true
}

impl Kind {
    /// A copy of this kind.
    pub fn duplicate(&self) -> (r: Kind)
        ensures
            same_kind(r, *self),
        decreases self,
    {
        match self {
            Kind::Simple => Kind::Simple,
            Kind::Pseudo => Kind::Pseudo,
            Kind::Enum(v) => Kind::Enum(copy_names(v)),
            Kind::Array(x) => Kind::Array(x.duplicate()),
            Kind::Range(x) => Kind::Range(x.duplicate()),
            Kind::Multirange(x) => Kind::Multirange(x.duplicate()),
            Kind::Domain(x) => Kind::Domain(x.duplicate()),
            Kind::Composite(fa) => {
                let mut r: Vec<Field> = Vec::new();
                let mut i: usize = 0;
                while i < fa.len()
                    invariant
                        *self == Kind::Composite(*fa),
                        i <= fa@.len(),
                        r@.len() == i,
                        forall|j: int| 0 <= j < i ==> {
                            &&& (#[trigger] r@[j]).name@ == fa@[j].name@
                            &&& same_type(r@[j].type_, fa@[j].type_)
                        },
                    decreases fa@.len() - i,
                {
                    proof {
                        assert(decreases_to!(*self => (*self)->Composite_0));
                        assert(decreases_to!(*fa => fa@[i as int]));
                    }
                    let f = &fa[i];
                    r.push(Field { name: f.name.clone(), type_: f.type_.duplicate() });
                    i = i + 1;
                }
                Kind::Composite(r)
            },
        }
    }

    /// Whether this kind is the same kind as `other`.
    pub fn same_as(&self, other: &Kind) -> (r: bool)
        ensures
            r == same_kind(*self, *other),
        decreases self,
    {
        match (self, other) {
            (Kind::Simple, Kind::Simple) => true,
            (Kind::Pseudo, Kind::Pseudo) => true,
            (Kind::Enum(va), Kind::Enum(vb)) => names_equal(va, vb),
            (Kind::Array(x), Kind::Array(y)) => x.same_as(y),
            (Kind::Range(x), Kind::Range(y)) => x.same_as(y),
            (Kind::Multirange(x), Kind::Multirange(y)) => x.same_as(y),
            (Kind::Domain(x), Kind::Domain(y)) => x.same_as(y),
            (Kind::Composite(fa), Kind::Composite(fb)) => {
                if fa.len() != fb.len() {
                    return false;
                }
                let mut i: usize = 0;
                while i < fa.len()
                    invariant
                        *self == Kind::Composite(*fa),
                        *other == Kind::Composite(*fb),
                        fa@.len() == fb@.len(),
                        i <= fa@.len(),
                        forall|j: int| 0 <= j < i ==> {
                            &&& (#[trigger] fa@[j]).name@ == fb@[j].name@
                            &&& same_type(fa@[j].type_, fb@[j].type_)
                        },
                    decreases fa@.len() - i,
                {
                    proof {
                        assert(decreases_to!(*self => (*self)->Composite_0));
                        assert(decreases_to!(*fa => fa@[i as int]));
                    }
                    if fa[i].name != fb[i].name {
                        return false;
                    }
                    if !fa[i].type_.same_as(&fb[i].type_) {
                        return false;
                    }
                    i = i + 1;
                }
                true
            },
            _ => false,
        }
    }
}

impl Clone for PgType {
    fn clone(&self) -> (r: PgType)
        ensures
            same_type(r, *self),
    {
        self.duplicate()
    }
}

impl PgType {
    /// Whether this is the pseudo-type `any`.
    pub open spec fn spec_is_any(self) -> bool {
        self matches PgType::Builtin(oid) && oid == ANY_OID
    }

    /// The built-in type with the given OID.
    pub fn from_oid(oid: u32) -> (t: PgType)
        ensures
            t == PgType::Builtin(oid),
    {
        PgType::Builtin(oid)
    }

    /// The pseudo-type `any`.
    pub fn any() -> (t: PgType)
        ensures
            t.spec_is_any(),
    {
        PgType::Builtin(ANY_OID)
    }

    /// A copy of this type.
    pub fn duplicate(&self) -> (r: PgType)
        ensures
            same_type(r, *self),
            self is Builtin ==> r == *self,
        decreases self,
    {
        match self {
            PgType::Builtin(oid) => PgType::Builtin(*oid),
            PgType::Custom(c) => PgType::Custom(Box::new(CustomType {
                name: c.name.clone(),
                oid: c.oid,
                kind: c.kind.duplicate(),
                schema: c.schema.clone(),
            })),
        }
    }

    /// Whether this type is the same type as `other`.
    pub fn same_as(&self, other: &PgType) -> (r: bool)
        ensures
            r == same_type(*self, *other),
        decreases self,
    {
        match (self, other) {
            (PgType::Builtin(x), PgType::Builtin(y)) => *x == *y,
            (PgType::Custom(ca), PgType::Custom(cb)) => {
                ca.name == cb.name && ca.oid == cb.oid && ca.schema == cb.schema
                    && ca.kind.same_as(&cb.kind)
            },
            _ => false,
        }
    }

    /// Whether this is the pseudo-type `any`.
    pub fn is_any(&self) -> (r: bool)
        ensures
            r == self.spec_is_any(),
    {
        match self {
            PgType::Builtin(oid) => *oid == ANY_OID,
            PgType::Custom(_) => false,
        }
    }
}

} // verus!
