//! `CASE` expressions.
use vstd::prelude::*;

use crate::expr::{parts_params, parts_text, push_sql, push_wrapped, Collector, Fragment, Part};
use crate::pg_type::{appended, lemma_appended_chain, lemma_appended_nothing, PgType};

verus! {

/// A `CASE` expression under construction: the value compared against, if
/// any, the `WHEN ... THEN ...` branches in order, and the `ELSE` value, if any.
pub struct Case {
    expr: Option<Fragment>,
    branches: Vec<(Fragment, Fragment)>,
    otherwise: Option<Fragment>,
}

/// What a `CASE` expression is made of.
pub struct CaseView {
    pub expr: Option<Fragment>,
    pub branches: Seq<(Fragment, Fragment)>,
    pub otherwise: Option<Fragment>,
}

impl View for Case {
    type V = CaseView;

    closed spec fn view(&self) -> CaseView {
        CaseView { expr: self.expr, branches: self.branches@, otherwise: self.otherwise }
    }
}

/// One builder call on a `CASE` expression.
pub enum CaseStep {
    /// `when(equals, then)`
    When(Fragment, Fragment),
    /// `when_condition(cond, then)`
    WhenCondition(Fragment, Fragment),
    /// `otherwise(value)`
    Otherwise(Fragment),
}

/// What one builder call makes of a `CASE` expression.
pub open spec fn apply_step(c: CaseView, step: CaseStep) -> CaseView {
    match step {
        CaseStep::When(a, b) => CaseView { branches: c.branches.push((a, b)), ..c },
        CaseStep::WhenCondition(a, b) => CaseView { branches: c.branches.push((a, b)), ..c },
        CaseStep::Otherwise(o) => CaseView { otherwise: Some(o), ..c },
    }
}

/// What a run of builder calls, in order, makes of a `CASE` expression.
pub open spec fn apply_steps(c: CaseView, steps: Seq<CaseStep>) -> CaseView
    decreases steps.len(),
{
    if steps.len() == 0 {
        c
    } else {
        apply_step(apply_steps(c, steps.drop_last()), steps.last())
    }
}

/// No run of builder calls changes the compared value: after `Case::case(e)`
/// it stays `e`, so `when` may always be called; after `Case::default()` there
/// is none, whatever branches and `ELSE` value were added.
pub proof fn lemma_steps_keep_compared_value(c: CaseView, steps: Seq<CaseStep>)
    ensures
        apply_steps(c, steps).expr == c.expr,
    decreases steps.len(),
{
    if steps.len() > 0 {
        lemma_steps_keep_compared_value(c, steps.drop_last());
    }
}

/// The parameter types of an optional expression.
pub open spec fn opt_params(e: Option<Fragment>) -> Seq<PgType> {
    match e {
        Some(f) => f.params_of(),
        None => Seq::empty(),
    }
}

/// The parameter types of the branches, in the order written.
pub open spec fn branches_params(bs: Seq<(Fragment, Fragment)>) -> Seq<PgType>
    decreases bs.len(),
{
    if bs.len() == 0 {
        Seq::empty()
    } else {
        branches_params(bs.drop_last()) + bs.last().0.params_of() + bs.last().1.params_of()
    }
}

/// ` WHEN ` + the condition + ` THEN ` + the value, when `n` parameters were met before.
pub open spec fn branch_text(b: (Fragment, Fragment), n: nat) -> Seq<char> {
    seq![' ', 'W', 'H', 'E', 'N', ' '] + b.0.wrapped_text(n)
        + seq![' ', 'T', 'H', 'E', 'N', ' '] + b.1.wrapped_text(n + b.0.params_of().len())
}

/// The text of the branches in order, when `n` parameters were met before them.
pub open spec fn branches_text(bs: Seq<(Fragment, Fragment)>, n: nat) -> Seq<char>
    decreases bs.len(),
{
    if bs.len() == 0 {
        Seq::empty()
    } else {
        let prev = bs.drop_last();
        branches_text(prev, n) + branch_text(bs.last(), n + branches_params(prev).len())
    }
}

/// `CASE` + the compared value, if any.
pub open spec fn head_text(e: Option<Fragment>, n: nat) -> Seq<char> {
    match e {
        Some(f) => seq!['C', 'A', 'S', 'E', ' '] + f.wrapped_text(n),
        None => seq!['C', 'A', 'S', 'E'],
    }
}

/// ` ELSE ` + the value, if any.
pub open spec fn else_text(e: Option<Fragment>, n: nat) -> Seq<char> {
    match e {
        Some(f) => seq![' ', 'E', 'L', 'S', 'E', ' '] + f.wrapped_text(n),
        None => Seq::empty(),
    }
}

/// The parameter types of a `CASE` expression, in the order written.
pub open spec fn case_params(c: CaseView) -> Seq<PgType> {
    opt_params(c.expr) + branches_params(c.branches) + opt_params(c.otherwise)
}

/// The text of a `CASE` expression when `n` parameters were met before it:
/// `CASE [e] WHEN c THEN v ... [ELSE o] END`.
pub open spec fn case_text(c: CaseView, n: nat) -> Seq<char> {
    let n1 = n + opt_params(c.expr).len();
    let n2 = n1 + branches_params(c.branches).len();
    head_text(c.expr, n) + branches_text(c.branches, n1) + else_text(c.otherwise, n2)
        + seq![' ', 'E', 'N', 'D']
}

/// A `CASE` expression can be written: it has a branch or an `ELSE` value.
pub open spec fn is_complete(c: CaseView) -> bool {
    c.branches.len() > 0 || c.otherwise is Some
}

impl Default for Case {
    fn default() -> (r: Case)
        ensures
            r@.expr is None,
            r@.branches == Seq::<(Fragment, Fragment)>::empty(),
            r@.otherwise is None,
    {
        Case { expr: None, branches: Vec::new(), otherwise: None }
    }
}

impl Case {
    /// A `CASE` that compares `expr` against the value of each branch.
    pub fn case(expr: Fragment) -> (r: Self)
        ensures
            r@.expr == Some(expr),
            r@.branches == Seq::<(Fragment, Fragment)>::empty(),
            r@.otherwise is None,
    {
        let mut case = Self::default();
        case.expr = Some(expr);
        case
    }

    /// Adds the branch `WHEN equals THEN then`, taken when the compared value equals `equals`.
    pub fn when(self, equals: Fragment, then: Fragment) -> (r: Self)
        requires
            self@.expr is Some,
        ensures
            r@.expr == self@.expr,
            r@.branches == self@.branches.push((equals, then)),
            r@.otherwise == self@.otherwise,
            r@ == apply_step(self@, CaseStep::When(equals, then)),
    {
        let mut c = self;
        c.branches.push((equals, then));
        c
    }

    /// Adds the branch `WHEN cond THEN then`, taken when the condition `cond` holds.
    pub fn when_condition(self, cond: Fragment, then: Fragment) -> (r: Self)
        ensures
            r@.expr == self@.expr,
            r@.branches == self@.branches.push((cond, then)),
            r@.otherwise == self@.otherwise,
            r@ == apply_step(self@, CaseStep::WhenCondition(cond, then)),
    {
        let mut c = self;
        c.branches.push((cond, then));
        c
    }

    /// Sets the `ELSE` value, in place of any set before.
    pub fn otherwise(self, value: Fragment) -> (r: Self)
        ensures
            r@.expr == self@.expr,
            r@.branches == self@.branches,
            r@.otherwise == Some(value),
            r@ == apply_step(self@, CaseStep::Otherwise(value)),
    {
        let mut c = self;
        c.otherwise = Some(value);
        c
    }

    /// A `CASE` expression is put in parentheses inside another expression.
    pub fn needs_wrapping(&self) -> (r: bool)
        ensures
            r,
    {
        true
    }

    /// Writes the branches, in order.
    fn collect_branches(&self, w: &mut String, t: &mut Collector)
        ensures
            final(w)@ == old(w)@ + branches_text(self@.branches, old(t).params@.len()),
            appended(old(t).params@, final(t).params@, branches_params(self@.branches)),
    {
        let ghost w1 = w@;
        let ghost p1 = t.params@;
        let ghost bs = self.branches@;
        let mut i: usize = 0;
        proof {
            assert(bs.take(0) =~= Seq::<(Fragment, Fragment)>::empty());
            lemma_appended_nothing(p1);
        }
        while i < self.branches.len()
            invariant
                bs == self.branches@,
                i <= bs.len(),
                w@ == w1 + branches_text(bs.take(i as int), p1.len()),
                appended(p1, t.params@, branches_params(bs.take(i as int))),
            decreases bs.len() - i,
        {
            let ghost wi = w@;
            let ghost pi = t.params@;
            proof {
                assert(bs.take(i + 1).drop_last() =~= bs.take(i as int));
                assert(bs.take(i + 1).last() == bs[i as int]);
            }
            let (cond, value) = &self.branches[i];
            w.append(" WHEN ");
            proof { reveal_strlit(" WHEN "); }
            let _ = cond.collect_wrapped(w, t);
            let ghost pc = t.params@;
            w.append(" THEN ");
            proof { reveal_strlit(" THEN "); }
            let _ = value.collect_wrapped(w, t);
            proof {
                assert(w@ =~= wi + branch_text(bs[i as int], pi.len()));
                assert(w@ =~= w1 + branches_text(bs.take(i + 1), p1.len()));
                lemma_appended_chain(pi, pc, t.params@, cond.params_of(), value.params_of());
                lemma_appended_chain(p1, pi, t.params@, branches_params(bs.take(i as int)), cond.params_of() + value.params_of());
                assert(branches_params(bs.take(i + 1)) =~= branches_params(bs.take(i as int)) + (cond.params_of() + value.params_of()));
            }
            i = i + 1;
        }
        proof {
            assert(bs.take(bs.len() as int) =~= bs);
        }
    }

    /// Writes the `CASE` expression to `w`, numbering its parameters through `t`.
    pub fn collect(&self, w: &mut String, t: &mut Collector) -> (r: Result<(), std::fmt::Error>)
        requires
            is_complete(self@),
        ensures
            r is Ok,
            final(w)@ == old(w)@ + case_text(self@, old(t).params@.len()),
            appended(old(t).params@, final(t).params@, case_params(self@)),
    {
        let ghost w0 = w@;
        let ghost p0 = t.params@;
        match &self.expr {
            Some(expr) => {
                w.append("CASE ");
                proof { reveal_strlit("CASE "); }
                let _ = expr.collect_wrapped(w, t);
            },
            None => {
                w.append("CASE");
                proof {
                    reveal_strlit("CASE");
                    lemma_appended_nothing(p0);
                }
            },
        }
        proof {
            assert(w@ =~= w0 + head_text(self@.expr, p0.len()));
        }
        let ghost p1 = t.params@;
        self.collect_branches(w, t);
        let ghost w2 = w@;
        let ghost p2 = t.params@;
        match &self.otherwise {
            Some(otherwise) => {
                w.append(" ELSE ");
                proof { reveal_strlit(" ELSE "); }
                let _ = otherwise.collect_wrapped(w, t);
            },
            None => {
                proof { lemma_appended_nothing(p2); }
            },
        }
        w.append(" END");
        proof {
            reveal_strlit(" END");
            assert(w@ =~= w2 + else_text(self@.otherwise, p2.len()) + seq![' ', 'E', 'N', 'D']);
            assert(w@ =~= w0 + case_text(self@, p0.len()));
            lemma_appended_chain(p0, p1, p2, opt_params(self@.expr), branches_params(self@.branches));
            lemma_appended_chain(p0, p2, t.params@, opt_params(self@.expr) + branches_params(self@.branches), opt_params(self@.otherwise));
        }
        Ok(())
    }

    /// Writes the `CASE` expression where it stands inside another one: in parentheses.
    pub fn collect_wrapped(&self, w: &mut String, t: &mut Collector) -> (r: Result<(), std::fmt::Error>)
        requires
            is_complete(self@),
        ensures
            r is Ok,
            final(w)@ == old(w)@ + seq!['('] + case_text(self@, old(t).params@.len()) + seq![')'],
            appended(old(t).params@, final(t).params@, case_params(self@)),
    {
        w.push('(');
        let _ = self.collect(w, t);
        w.push(')');
        Ok(())
    }

    /// This `CASE` expression as an expression of its own, with the same text
    /// and parameters, put in parentheses inside another expression.
    pub fn into_fragment(self) -> (r: Fragment)
        requires
            is_complete(self@),
        ensures
            r.wrap,
            forall|n: nat| #[trigger] r.text(n) == case_text(self@, n),
            r.params_of() == case_params(self@),
    {
        let ghost c = self@;
        let Case { expr, branches, otherwise } = self;
        let mut parts: Vec<Part> = Vec::new();
        proof {
            assert(parts_params(parts@) =~= Seq::<PgType>::empty());
        }
        match expr {
            Some(e) => {
                push_sql(&mut parts, "CASE ");
                push_wrapped(&mut parts, e);
                proof {
                    reveal_strlit("CASE ");
                }
            },
            None => {
                push_sql(&mut parts, "CASE");
                proof {
                    reveal_strlit("CASE");
                }
            },
        }
        let ghost op = opt_params(c.expr);
        proof {
            assert forall|n: nat| #[trigger] parts_text(parts@, n) == head_text(c.expr, n) by {
                assert(parts_text(Seq::<Part>::empty(), n) == Seq::<char>::empty());
            }
            assert(parts_params(parts@) =~= op);
        }
        let ghost bs = c.branches;
        let mut branches = branches;
        let len = branches.len();
        let mut i: usize = 0;
        proof {
            assert(bs.take(0) =~= Seq::<(Fragment, Fragment)>::empty());
            assert(branches@.subrange(0, len as int) =~= branches@);
        }
        while i < len
            invariant
                len == bs.len(),
                i <= len,
                branches@ == bs.subrange(i as int, len as int),
                forall|n: nat| #[trigger] parts_text(parts@, n)
                    == head_text(c.expr, n) + branches_text(bs.take(i as int), n + op.len()),
                parts_params(parts@) == op + branches_params(bs.take(i as int)),
            decreases len - i,
        {
            let ghost p0 = parts@;
            let (cond, value) = branches.remove(0);
            proof {
                assert(bs[i as int] == (cond, value));
                assert(bs.take(i + 1).drop_last() =~= bs.take(i as int));
                assert(bs.take(i + 1).last() == bs[i as int]);
            }
            let ghost cv = (cond, value);
            push_sql(&mut parts, " WHEN ");
            push_wrapped(&mut parts, cond);
            push_sql(&mut parts, " THEN ");
            push_wrapped(&mut parts, value);
            proof {
                reveal_strlit(" WHEN ");
                reveal_strlit(" THEN ");
                assert forall|n: nat| #[trigger] parts_text(parts@, n)
                    == head_text(c.expr, n) + branches_text(bs.take(i + 1), n + op.len()) by {
                    let m = n + op.len() + branches_params(bs.take(i as int)).len();
                    assert(parts_text(parts@, n) =~= parts_text(p0, n) + branch_text(cv, m));
                }
                assert(parts_params(parts@) =~= op + branches_params(bs.take(i + 1)));
                assert(branches@ =~= bs.subrange(i + 1, len as int));
            }
            i = i + 1;
        }
        proof {
            assert(bs.take(len as int) =~= bs);
        }
        let ghost bp = branches_params(bs);
        let ghost p2 = parts@;
        match otherwise {
            Some(o) => {
                push_sql(&mut parts, " ELSE ");
                push_wrapped(&mut parts, o);
                proof {
                    reveal_strlit(" ELSE ");
                }
            },
            None => {},
        }
        push_sql(&mut parts, " END");
        proof {
            reveal_strlit(" END");
            assert forall|n: nat| #[trigger] parts_text(parts@, n) == case_text(c, n) by {
                let n2 = n + op.len() + bp.len();
                assert(parts_text(parts@, n) =~= parts_text(p2, n) + else_text(c.otherwise, n2)
                    + seq![' ', 'E', 'N', 'D']);
            }
            assert(parts_params(parts@) =~= case_params(c));
        }
        Fragment { parts, wrap: true }
    }
}

/// Every `CASE` expression is written as `CASE ... END`.
pub proof fn lemma_case_text_frame(c: CaseView, n: nat)
    ensures
        case_text(c, n).len() >= 8,
        case_text(c, n).take(4) == seq!['C', 'A', 'S', 'E'],
        case_text(c, n).skip(case_text(c, n).len() - 4) == seq![' ', 'E', 'N', 'D'],
{
    let n1 = n + opt_params(c.expr).len();
    let n2 = n1 + branches_params(c.branches).len();
    let h = head_text(c.expr, n);
    let rest = branches_text(c.branches, n1) + else_text(c.otherwise, n2);
    let t = case_text(c, n);
    assert(t =~= h + rest + seq![' ', 'E', 'N', 'D']);
    assert(h.take(4) =~= seq!['C', 'A', 'S', 'E']);
    assert(t.take(4) =~= seq!['C', 'A', 'S', 'E']);
    assert(t.skip(t.len() - 4) =~= seq![' ', 'E', 'N', 'D']);
}

/// With an `ELSE` value, the text of a `CASE` ends with ` ELSE `, that value
/// and ` END`, and its parameters end with those of the `ELSE` value, whatever
/// the branches before it.
pub proof fn lemma_case_else_comes_last(c: CaseView, n: nat)
    requires
        c.otherwise is Some,
    ensures
        ({
            let o = c.otherwise->0;
            let ps = case_params(c);
            let before = (ps.len() - o.params_of().len()) as nat;
            let t = case_text(c, n);
            let tail = seq![' ', 'E', 'L', 'S', 'E', ' '] + o.wrapped_text(n + before)
                + seq![' ', 'E', 'N', 'D'];
            &&& ps.len() >= o.params_of().len()
            &&& ps.skip(before as int) == o.params_of()
            &&& t.len() >= tail.len()
            &&& t.skip(t.len() - tail.len()) == tail
        }),
{
    let o = c.otherwise->0;
    let n1 = n + opt_params(c.expr).len();
    let n2 = n1 + branches_params(c.branches).len();
    let ps = case_params(c);
    let front = opt_params(c.expr) + branches_params(c.branches);
    assert(ps =~= front + o.params_of());
    let before = (ps.len() - o.params_of().len()) as nat;
    assert(before == front.len());
    assert(ps.skip(before as int) =~= o.params_of());
    let t = case_text(c, n);
    let tail = seq![' ', 'E', 'L', 'S', 'E', ' '] + o.wrapped_text(n + before)
        + seq![' ', 'E', 'N', 'D'];
    let head = head_text(c.expr, n) + branches_text(c.branches, n1);
    assert(n + before == n2);
    assert(t =~= head + tail);
    assert(t.skip(t.len() - tail.len()) =~= tail);
}

} // verus!
