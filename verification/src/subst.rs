//! Inlining of applications of locally-bound helper clauses.
//!
//! A frontend resolves an application of a named local helper by
//! substitution: every occurrence of the helper's own bound parameter in its
//! body is replaced by the (already translated) argument expression. Where
//! several local clauses share the applied name — the helper itself pattern
//! matches — their substituted bodies are combined with logical `Or`. An
//! application whose name has no local binding is a hard failure.

use crate::adt::{funcs_view, Func, FuncView, OpView, Operation};
use crate::error::{ErrView, TransError};
use crate::strings::str_eq;
use vstd::prelude::*;

verus! {

/// The expression with every occurrence of the variable `name` replaced by
/// `repl`. Other leaves are unchanged; operators are rebuilt around the
/// substituted children.
pub open spec fn spec_subst(v: OpView, name: Seq<char>, repl: OpView) -> OpView
    decreases v,
{
    match v {
        OpView::BoolLit(_) => v,
        OpView::IntLit(_) => v,
        OpView::Var(n) => if n == name {
            repl
        } else {
            v
        },
        OpView::Not(o) => OpView::Not(Box::new(spec_subst(*o, name, repl))),
        OpView::And(l, r) => OpView::And(
            Box::new(spec_subst(*l, name, repl)),
            Box::new(spec_subst(*r, name, repl)),
        ),
        OpView::Or(l, r) => OpView::Or(
            Box::new(spec_subst(*l, name, repl)),
            Box::new(spec_subst(*r, name, repl)),
        ),
        OpView::Gt(l, r) => OpView::Gt(
            Box::new(spec_subst(*l, name, repl)),
            Box::new(spec_subst(*r, name, repl)),
        ),
        OpView::Lt(l, r) => OpView::Lt(
            Box::new(spec_subst(*l, name, repl)),
            Box::new(spec_subst(*r, name, repl)),
        ),
        OpView::Eq(l, r) => OpView::Eq(
            Box::new(spec_subst(*l, name, repl)),
            Box::new(spec_subst(*r, name, repl)),
        ),
        OpView::Neq(l, r) => OpView::Neq(
            Box::new(spec_subst(*l, name, repl)),
            Box::new(spec_subst(*r, name, repl)),
        ),
        OpView::Leq(l, r) => OpView::Leq(
            Box::new(spec_subst(*l, name, repl)),
            Box::new(spec_subst(*r, name, repl)),
        ),
        OpView::Geq(l, r) => OpView::Geq(
            Box::new(spec_subst(*l, name, repl)),
            Box::new(spec_subst(*r, name, repl)),
        ),
        OpView::Add(l, r) => OpView::Add(
            Box::new(spec_subst(*l, name, repl)),
            Box::new(spec_subst(*r, name, repl)),
        ),
        OpView::Sub(l, r) => OpView::Sub(
            Box::new(spec_subst(*l, name, repl)),
            Box::new(spec_subst(*r, name, repl)),
        ),
        OpView::Mul(l, r) => OpView::Mul(
            Box::new(spec_subst(*l, name, repl)),
            Box::new(spec_subst(*r, name, repl)),
        ),
    }
}

/// Replace every occurrence of the variable `name` in `op` by `repl`.
pub fn substitute(op: &Operation, name: &str, repl: &Operation) -> (r: Operation)
    ensures
        r@ == spec_subst(op@, name@, repl@),
    decreases op,
{
    match op {
        Operation::BoolLit(b) => Operation::BoolLit(*b),
        Operation::IntLit(i) => Operation::IntLit(*i),
        Operation::Var(n) => {
            if str_eq(n.as_str(), name) {
                repl.dup()
            } else {
                Operation::Var(n.clone())
            }
        },
        Operation::Not(o) => Operation::Not(Box::new(substitute(o, name, repl))),
        Operation::And(l, r) => Operation::And(
            Box::new(substitute(l, name, repl)),
            Box::new(substitute(r, name, repl)),
        ),
        Operation::Or(l, r) => Operation::Or(
            Box::new(substitute(l, name, repl)),
            Box::new(substitute(r, name, repl)),
        ),
        Operation::Gt(l, r) => Operation::Gt(
            Box::new(substitute(l, name, repl)),
            Box::new(substitute(r, name, repl)),
        ),
        Operation::Lt(l, r) => Operation::Lt(
            Box::new(substitute(l, name, repl)),
            Box::new(substitute(r, name, repl)),
        ),
        Operation::Eq(l, r) => Operation::Eq(
            Box::new(substitute(l, name, repl)),
            Box::new(substitute(r, name, repl)),
        ),
        Operation::Neq(l, r) => Operation::Neq(
            Box::new(substitute(l, name, repl)),
            Box::new(substitute(r, name, repl)),
        ),
        Operation::Leq(l, r) => Operation::Leq(
            Box::new(substitute(l, name, repl)),
            Box::new(substitute(r, name, repl)),
        ),
        Operation::Geq(l, r) => Operation::Geq(
            Box::new(substitute(l, name, repl)),
            Box::new(substitute(r, name, repl)),
        ),
        Operation::Add(l, r) => Operation::Add(
            Box::new(substitute(l, name, repl)),
            Box::new(substitute(r, name, repl)),
        ),
        Operation::Sub(l, r) => Operation::Sub(
            Box::new(substitute(l, name, repl)),
            Box::new(substitute(r, name, repl)),
        ),
        Operation::Mul(l, r) => Operation::Mul(
            Box::new(substitute(l, name, repl)),
            Box::new(substitute(r, name, repl)),
        ),
    }
}

/// The local clauses whose binding name matches `name`, in order.
pub open spec fn spec_matches(locals: Seq<FuncView>, name: Seq<char>) -> Seq<FuncView>
    decreases locals.len(),
{
    if locals.len() == 0 {
        Seq::empty()
    } else {
        let rest = spec_matches(locals.drop_last(), name);
        if locals.last().con.prefix == name {
            rest.push(locals.last())
        } else {
            rest
        }
    }
}

/// The disjunction of a non-empty sequence of bodies, combined left to right.
pub open spec fn spec_or_all(bodies: Seq<OpView>) -> OpView
    decreases bodies.len(),
{
    if bodies.len() <= 1 {
        bodies[0]
    } else {
        OpView::Or(Box::new(spec_or_all(bodies.drop_last())), Box::new(bodies.last()))
    }
}

/// The substituted body of one matching clause: its own bound parameter (the
/// first bound name) replaced by the argument expression.
pub open spec fn spec_inlined_body(f: FuncView, arg: OpView) -> OpView {
    spec_subst(f.opp, f.con.input[0], arg)
}

/// The result of inlining an application `name(arg)` against a list of local
/// clauses: the `Or` of the substituted bodies of the clauses whose binding
/// name matches, an unresolved-name error where none matches, and a
/// structure error where a matching clause binds no parameter.
pub open spec fn spec_inline(locals: Seq<FuncView>, name: Seq<char>, arg: OpView) -> Result<
    OpView,
    ErrView,
> {
    let ms = spec_matches(locals, name);
    if ms.len() == 0 {
        Err(ErrView::UnresolvedName(name))
    } else if exists|i: int| 0 <= i < ms.len() && ms[i].con.input.len() == 0 {
        Err(ErrView::Structure(name))
    } else {
        Ok(spec_or_all(ms.map_values(|f: FuncView| spec_inlined_body(f, arg))))
    }
}

proof fn lemma_matches_prefix(s: Seq<FuncView>, name: Seq<char>, j: int)
    requires
        0 <= j <= s.len(),
    ensures
        spec_matches(s.subrange(0, j), name).is_prefix_of(spec_matches(s, name)),
    decreases s.len() - j,
{
    if j == s.len() {
        assert(s.subrange(0, j) =~= s);
    } else {
        lemma_matches_prefix(s, name, j + 1);
        let pre = s.subrange(0, j);
        let post = s.subrange(0, j + 1);
        assert(post.drop_last() =~= pre);
        let a = spec_matches(pre, name);
        let b = spec_matches(post, name);
        assert(a.is_prefix_of(b));
        let c = spec_matches(s, name);
        assert(b.subrange(0, a.len() as int) =~= c.subrange(0, a.len() as int));
    }
}

/// Inline an application of the locally-bound helper `name` to `arg`:
/// substitute `arg` for each matching clause's bound parameter in that
/// clause's body, and combine the results with `Or`.
pub fn inline_apply(locals: &Vec<Func>, name: &str, arg: &Operation) -> (r: Result<
    Operation,
    TransError,
>)
    ensures
        match r {
            Ok(op) => spec_inline(funcs_view(locals@), name@, arg@) == Ok::<OpView, ErrView>(op@),
            Err(e) => spec_inline(funcs_view(locals@), name@, arg@) == Err::<OpView, ErrView>(e@),
        },
{
    let ghost all = funcs_view(locals@);
    let mut acc: Option<Operation> = None;
    let mut i: usize = 0;
    while i < locals.len()
        invariant
            i <= locals.len(),
            all == funcs_view(locals@),
            all.len() == locals@.len(),
            forall|k: int| 0 <= k < locals@.len() ==> all[k] == locals@[k]@,
            forall|k: int|
                0 <= k < spec_matches(all.subrange(0, i as int), name@).len() ==> spec_matches(
                    all.subrange(0, i as int),
                    name@,
                )[k].con.input.len() > 0,
            match acc {
                Some(op) => {
                    let ms = spec_matches(all.subrange(0, i as int), name@);
                    ms.len() > 0 && op@ == spec_or_all(
                        ms.map_values(|f: FuncView| spec_inlined_body(f, arg@)),
                    )
                },
                None => spec_matches(all.subrange(0, i as int), name@).len() == 0,
            },
        decreases locals.len() - i,
    {
        let ghost pre = all.subrange(0, i as int);
        let ghost post = all.subrange(0, i + 1 as int);
        proof {
            assert(post.drop_last() =~= pre);
            assert(post.last() == locals@[i as int]@);
        }
        let f = &locals[i];
        if str_eq(f.con.prefix.as_str(), name) {
            if f.con.input.len() == 0 {
                proof {
                    lemma_matches_prefix(all, name@, i + 1);
                    let pms = spec_matches(post, name@);
                    let ms = spec_matches(all, name@);
                    assert(pms.last() == locals@[i as int]@);
                    assert(ms.subrange(0, pms.len() as int) =~= pms);
                    assert(ms[pms.len() - 1] == pms.last());
                    assert(ms[pms.len() - 1].con.input.len() == 0);
                }
                return Err(TransError::Structure(String::from_str(name)));
            }
            let param = &f.con.input[0];
            let body = substitute(&f.opp, param.as_str(), arg);
            proof {
                let ms = spec_matches(post, name@);
                let msm = ms.map_values(|g: FuncView| spec_inlined_body(g, arg@));
                let pm = spec_matches(pre, name@).map_values(
                    |g: FuncView| spec_inlined_body(g, arg@),
                );
                assert(ms == spec_matches(pre, name@).push(locals@[i as int]@));
                assert(msm =~= pm.push(spec_inlined_body(locals@[i as int]@, arg@)));
                assert(msm.drop_last() =~= pm);
                assert(body@ == spec_inlined_body(locals@[i as int]@, arg@));
            }
            acc = match acc {
                None => Some(body),
                Some(prev) => Some(Operation::Or(Box::new(prev), Box::new(body))),
            };
        } else {
            proof {
                assert(spec_matches(post, name@) == spec_matches(pre, name@));
            }
        }
        i = i + 1;
    }
    proof {
        assert(all.subrange(0, locals@.len() as int) =~= all);
    }
    match acc {
        None => Err(TransError::UnresolvedName(String::from_str(name))),
        Some(op) => Ok(op),
    }
}

/// Inlining an application against a single matching helper clause is exactly
/// direct substitution: where `name` matches one clause `f` alone, the result
/// is `f`'s body with `f`'s bound parameter replaced by the argument.
pub proof fn lemma_inline_single(locals: Seq<FuncView>, name: Seq<char>, arg: OpView)
    requires
        spec_matches(locals, name).len() == 1,
        spec_matches(locals, name)[0].con.input.len() > 0,
    ensures
        spec_inline(locals, name, arg) == Ok::<OpView, ErrView>(
            spec_inlined_body(spec_matches(locals, name)[0], arg),
        ),
{
    let ms = spec_matches(locals, name);
    let msm = ms.map_values(|f: FuncView| spec_inlined_body(f, arg));
    assert(msm.len() == 1);
    assert(spec_or_all(msm) == msm[0]);
}

} // verus!
