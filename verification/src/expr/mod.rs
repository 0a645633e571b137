//! SQL expressions as the query writer sees them: text interleaved with
//! parameter placeholders, which a collector numbers in the order written.
use vstd::prelude::*;

use crate::pg_type::{appended, lemma_appended_chain, lemma_appended_nothing, lemma_appended_push, PgType};
use crate::query::placeholder;
use crate::text::push_decimal;

pub mod case;

pub use case::Case;

verus! {

/// One piece of an expression.
pub enum Part {
    /// SQL text, written as it stands.
    Sql(String),
    /// A parameter of the given type, written as its placeholder `$n`.
    Param(PgType),
}

/// An expression: its pieces, and whether it has to be put in parentheses
/// where it stands inside another expression.
pub struct Fragment {
    pub parts: Vec<Part>,
    pub wrap: bool,
}

/// Numbers the parameters of the expressions written through it, in order.
pub struct Collector {
    /// The types of the parameters met so far; the next one is numbered `len + 1`.
    pub params: Vec<PgType>,
}

/// The text of one piece when `n` parameters were met before it.
pub open spec fn part_text(p: Part, n: nat) -> Seq<char> {
    match p {
        Part::Sql(s) => s@,
        Part::Param(_) => placeholder(n + 1),
    }
}

/// The parameter types that one piece adds.
pub open spec fn part_params(p: Part) -> Seq<PgType> {
    match p {
        Part::Sql(_) => Seq::empty(),
        Part::Param(t) => seq![t],
    }
}

/// The parameter types of a run of pieces, in order.
pub open spec fn parts_params(parts: Seq<Part>) -> Seq<PgType>
    decreases parts.len(),
{
    if parts.len() == 0 {
        Seq::empty()
    } else {
        parts_params(parts.drop_last()) + part_params(parts.last())
    }
}

/// The text of a run of pieces when `n` parameters were met before it.
pub open spec fn parts_text(parts: Seq<Part>, n: nat) -> Seq<char>
    decreases parts.len(),
{
    if parts.len() == 0 {
        Seq::empty()
    } else {
        let prev = parts.drop_last();
        parts_text(prev, n) + part_text(parts.last(), n + parts_params(prev).len())
    }
}

/// The pieces `a` followed by the pieces `b`: the text of `a`, then that of
/// `b` numbered on from the parameters of `a`; the parameters of `a`, then those of `b`.
pub proof fn lemma_parts_concat(a: Seq<Part>, b: Seq<Part>, n: nat)
    ensures
        parts_text(a + b, n) == parts_text(a, n) + parts_text(b, n + parts_params(a).len()),
        parts_params(a + b) == parts_params(a) + parts_params(b),
    decreases b.len(),
{
    if b.len() == 0 {
        assert(a + b =~= a);
        assert(parts_text(b, n + parts_params(a).len()) =~= Seq::<char>::empty());
        assert(parts_params(b) =~= Seq::<PgType>::empty());
        assert(parts_text(a, n) + Seq::<char>::empty() =~= parts_text(a, n));
        assert(parts_params(a) + Seq::<PgType>::empty() =~= parts_params(a));
    } else {
        let b0 = b.drop_last();
        lemma_parts_concat(a, b0, n);
        assert((a + b).drop_last() =~= a + b0);
        assert((a + b).last() == b.last());
        assert(parts_params(a + b) =~= parts_params(a) + parts_params(b));
        assert(parts_text(a + b, n) =~= parts_text(a, n) + parts_text(b, n + parts_params(a).len()));
    }
}

/// One piece of SQL text `s`.
pub proof fn lemma_one_sql_part(p: Part, n: nat)
    requires
        p is Sql,
    ensures
        parts_text(seq![p], n) == part_text(p, n),
        parts_params(seq![p]) == Seq::<PgType>::empty(),
{
    assert(seq![p].drop_last() =~= Seq::<Part>::empty());
    assert(seq![p].last() == p);
    assert(parts_text(Seq::<Part>::empty(), n) == Seq::<char>::empty());
    assert(parts_params(Seq::<Part>::empty()) == Seq::<PgType>::empty());
    assert(parts_text(seq![p], n) =~= part_text(p, n));
    assert(parts_params(seq![p]) =~= Seq::<PgType>::empty());
}

/// Appends the pieces of `f` to `parts`, in parentheses where `f` needs them.
pub fn push_wrapped(parts: &mut Vec<Part>, f: Fragment)
    ensures
        forall|n: nat| #[trigger] parts_text(final(parts)@, n)
            == parts_text(old(parts)@, n) + f.wrapped_text(n + parts_params(old(parts)@).len()),
        parts_params(final(parts)@) == parts_params(old(parts)@) + f.params_of(),
{
    let ghost p0 = parts@;
    let ghost fp = f.parts@;
    let wrap = f.wrap;
    let mut inner = f.parts;
    if wrap {
        let open = Part::Sql("(".to_string());
        let ghost o = open;
        parts.push(open);
        let ghost p1 = parts@;
        parts.append(&mut inner);
        let ghost p2 = parts@;
        let close = Part::Sql(")".to_string());
        let ghost c = close;
        parts.push(close);
        proof {
            reveal_strlit("(");
            reveal_strlit(")");
            assert(p1 =~= p0 + seq![o]);
            assert(p2 =~= p1 + fp);
            assert(parts@ =~= p2 + seq![c]);
            assert forall|n: nat| #[trigger] parts_text(parts@, n)
                == parts_text(p0, n) + f.wrapped_text(n + parts_params(p0).len()) by {
                lemma_parts_concat(p0, seq![o], n);
                lemma_one_sql_part(o, n + parts_params(p0).len());
                lemma_parts_concat(p1, fp, n);
                lemma_parts_concat(p2, seq![c], n);
                lemma_one_sql_part(c, n + parts_params(p2).len());
                assert(parts_text(parts@, n) =~= parts_text(p0, n) + f.wrapped_text(n + parts_params(p0).len()));
            }
            lemma_parts_concat(p0, seq![o], 0);
            lemma_one_sql_part(o, 0);
            lemma_parts_concat(p1, fp, 0);
            lemma_parts_concat(p2, seq![c], 0);
            lemma_one_sql_part(c, 0);
            assert(parts_params(parts@) =~= parts_params(p0) + f.params_of());
        }
    } else {
        parts.append(&mut inner);
        proof {
            assert(parts@ =~= p0 + fp);
            assert forall|n: nat| #[trigger] parts_text(parts@, n)
                == parts_text(p0, n) + f.wrapped_text(n + parts_params(p0).len()) by {
                lemma_parts_concat(p0, fp, n);
            }
            lemma_parts_concat(p0, fp, 0);
        }
    }
}

/// Appends the SQL text `s` to `parts`, as one piece.
pub fn push_sql(parts: &mut Vec<Part>, s: &str)
    ensures
        forall|n: nat| #[trigger] parts_text(final(parts)@, n) == parts_text(old(parts)@, n) + s@,
        parts_params(final(parts)@) == parts_params(old(parts)@),
{
    let ghost p0 = parts@;
    let part = Part::Sql(s.to_string());
    let ghost o = part;
    parts.push(part);
    proof {
        assert(parts@ =~= p0 + seq![o]);
        assert forall|n: nat| #[trigger] parts_text(parts@, n) == parts_text(p0, n) + s@ by {
            lemma_parts_concat(p0, seq![o], n);
            lemma_one_sql_part(o, n + parts_params(p0).len());
        }
        lemma_parts_concat(p0, seq![o], 0);
        lemma_one_sql_part(o, 0);
        assert(parts_params(parts@) =~= parts_params(p0));
    }
}

impl Fragment {
    /// The parameter types of this expression, in order.
    pub open spec fn params_of(&self) -> Seq<PgType> {
        parts_params(self.parts@)
    }

    /// The text of this expression when `n` parameters were met before it.
    pub open spec fn text(&self, n: nat) -> Seq<char> {
        parts_text(self.parts@, n)
    }

    /// The text of this expression where it stands inside another one.
    pub open spec fn wrapped_text(&self, n: nat) -> Seq<char> {
        if self.wrap {
            seq!['('] + self.text(n) + seq![')']
        } else {
            self.text(n)
        }
    }

    /// An expression made of the SQL text `s` alone.
    pub fn sql(s: &str) -> (r: Fragment)
        ensures
            r.parts@.len() == 1,
            r.parts@[0] matches Part::Sql(t) && t@ == s@,
            !r.wrap,
    {
        let mut parts: Vec<Part> = Vec::new();
        parts.push(Part::Sql(s.to_string()));
        Fragment { parts, wrap: false }
    }

    /// An expression made of one parameter of type `ty`.
    pub fn param(ty: PgType) -> (r: Fragment)
        ensures
            r.parts@ == seq![Part::Param(ty)],
            !r.wrap,
    {
        let mut parts: Vec<Part> = Vec::new();
        parts.push(Part::Param(ty));
        Fragment { parts, wrap: false }
    }

    /// This expression followed by the SQL text `s`.
    pub fn then_sql(self, s: &str) -> (r: Fragment)
        ensures
            r.parts@.len() == self.parts@.len() + 1,
            r.parts@.drop_last() == self.parts@,
            r.parts@.last() matches Part::Sql(t) && t@ == s@,
            r.wrap == self.wrap,
    {
        let mut f = self;
        f.parts.push(Part::Sql(s.to_string()));
        f
    }

    /// This expression followed by a parameter of type `ty`.
    pub fn then_param(self, ty: PgType) -> (r: Fragment)
        ensures
            r.parts@ == self.parts@.push(Part::Param(ty)),
            r.wrap == self.wrap,
    {
        let mut f = self;
        f.parts.push(Part::Param(ty));
        f
    }

    /// This expression, to be put in parentheses inside another one.
    pub fn wrapped(self) -> (r: Fragment)
        ensures
            r.parts == self.parts,
            r.wrap,
    {
        Fragment { parts: self.parts, wrap: true }
    }

    /// Whether this expression is put in parentheses inside another one.
    pub fn needs_wrapping(&self) -> (r: bool)
        ensures
            r == self.wrap,
    {
        self.wrap
    }

    /// Writes this expression to `w`, numbering its parameters through `t`.
    pub fn collect(&self, w: &mut String, t: &mut Collector) -> (r: Result<(), std::fmt::Error>)
        ensures
            r is Ok,
            final(w)@ == old(w)@ + self.text(old(t).params@.len()),
            appended(old(t).params@, final(t).params@, self.params_of()),
    {
        let ghost w0 = w@;
        let ghost p0 = t.params@;
        let ghost parts = self.parts@;
        let mut i: usize = 0;
        proof {
            assert(parts.take(0) =~= Seq::<Part>::empty());
            lemma_appended_nothing(p0);
        }
        while i < self.parts.len()
            invariant
                parts == self.parts@,
                i <= parts.len(),
                w@ == w0 + parts_text(parts.take(i as int), p0.len()),
                appended(p0, t.params@, parts_params(parts.take(i as int))),
            decreases parts.len() - i,
        {
            let ghost pi = t.params@;
            proof {
                assert(parts.take(i + 1).drop_last() =~= parts.take(i as int));
                assert(parts.take(i + 1).last() == parts[i as int]);
            }
            match &self.parts[i] {
                Part::Sql(s) => {
                    w.append(s.as_str());
                    proof {
                        assert(w@ =~= w0 + parts_text(parts.take(i + 1), p0.len()));
                        assert(parts_params(parts.take(i + 1)) =~= parts_params(parts.take(i as int)));
                    }
                },
                Part::Param(ty) => {
                    let d = ty.duplicate();
                    t.params.push(d);
                    w.push('$');
                    push_decimal(w, t.params.len() as u64);
                    proof {
                        assert(w@ =~= w0 + parts_text(parts.take(i + 1), p0.len()));
                        lemma_appended_push(pi, d, *ty);
                        lemma_appended_chain(p0, pi, t.params@, parts_params(parts.take(i as int)), seq![*ty]);
                        assert(parts_params(parts.take(i + 1)) =~= parts_params(parts.take(i as int)) + seq![*ty]);
                    }
                },
            }
            i = i + 1;
        }
        proof {
            assert(parts.take(parts.len() as int) =~= parts);
        }
        Ok(())
    }

    /// Writes this expression where it stands inside another one: in
    /// parentheses when it needs them.
    pub fn collect_wrapped(&self, w: &mut String, t: &mut Collector) -> (r: Result<(), std::fmt::Error>)
        ensures
            r is Ok,
            final(w)@ == old(w)@ + self.wrapped_text(old(t).params@.len()),
            appended(old(t).params@, final(t).params@, self.params_of()),
    {
        let ghost w0 = w@;
        if self.wrap {
            w.push('(');
        }
        let ghost w1 = w@;
        let _ = self.collect(w, t);
        if self.wrap {
            w.push(')');
        }
        proof {
            assert(w@ =~= w0 + self.wrapped_text(old(t).params@.len()));
        }
        Ok(())
    }
}

impl Collector {
    /// A collector that has met no parameter.
    pub fn new() -> (r: Collector)
        ensures
            r.params@ == Seq::<PgType>::empty(),
    {
        Collector { params: Vec::new() }
    }
}

} // verus!
