//! The frontend adapter for the enum-and-match notation: walks a concrete
//! syntax tree and emits the enum declaration and one predicate clause per
//! match arm, using the precedence normalizer at the point each binary node
//! is constructed and resolving applications of local clauses by inlining.

use crate::adt::{bin_view, dup_prefix, funcs_view, spec_dup_prefix, Adt, AdtView, BinOp, Cons,
    ConsView, Func, FuncInput,
    FuncInputView, FuncView, OpView, Operation, Type};
use crate::cst::{capture, children, first_kind, first_slot, spec_capture, spec_children, spec_end,
    spec_first_kind, spec_first_slot, spec_texts, texts_of, Cst, CstNodeView};
use crate::error::{ErrView, TransError};
use crate::haskell::res_op_view;
use crate::precedence::{normalize, spec_normalize};
use crate::strings::{parse_i32, spec_parse_i32, str_eq};
use crate::subst::{inline_apply, spec_inline};
use vstd::prelude::*;

verus! {

/// The binary operator denoted by an operator spelling of the enum-and-match
/// notation, if it is in the modeled set.
pub open spec fn spec_rust_op_of_text(t: Seq<char>) -> Option<BinOp> {
    if t == ">"@ {
        Some(BinOp::Gt)
    } else if t == "<"@ {
        Some(BinOp::Lt)
    } else if t == "=="@ {
        Some(BinOp::Eq)
    } else if t == "!="@ {
        Some(BinOp::Neq)
    } else if t == "<="@ {
        Some(BinOp::Leq)
    } else if t == ">="@ {
        Some(BinOp::Geq)
    } else if t == "+"@ {
        Some(BinOp::Add)
    } else if t == "-"@ {
        Some(BinOp::Sub)
    } else if t == "*"@ {
        Some(BinOp::Mul)
    } else if t == "&&"@ {
        Some(BinOp::And)
    } else if t == "||"@ {
        Some(BinOp::Or)
    } else {
        None
    }
}

fn rust_op_of_text(t: &str) -> (r: Option<BinOp>)
    ensures
        r == spec_rust_op_of_text(t@),
{
    if str_eq(t, ">") {
        Some(BinOp::Gt)
    } else if str_eq(t, "<") {
        Some(BinOp::Lt)
    } else if str_eq(t, "==") {
        Some(BinOp::Eq)
    } else if str_eq(t, "!=") {
        Some(BinOp::Neq)
    } else if str_eq(t, "<=") {
        Some(BinOp::Leq)
    } else if str_eq(t, ">=") {
        Some(BinOp::Geq)
    } else if str_eq(t, "+") {
        Some(BinOp::Add)
    } else if str_eq(t, "-") {
        Some(BinOp::Sub)
    } else if str_eq(t, "*") {
        Some(BinOp::Mul)
    } else if str_eq(t, "&&") {
        Some(BinOp::And)
    } else if str_eq(t, "||") {
        Some(BinOp::Or)
    } else {
        None
    }
}

/// The expression denoted by the subtree rooted at node `i`: binary
/// expressions become operators normalized at construction, literals become
/// leaves, a bare identifier is a variable reference, parenthesized
/// expressions unwrap, and call expressions inline local clauses by
/// substitution. The recursion is bounded by `fuel`.
pub open spec fn spec_parse_rust_op(
    ns: Seq<CstNodeView>,
    i: int,
    locals: Seq<FuncView>,
    fuel: nat,
) -> Result<OpView, ErrView>
    decreases fuel,
{
    if fuel == 0 {
        Err(ErrView::Structure("expression depth"@))
    } else if !(0 <= i < ns.len()) {
        Err(ErrView::Structure("expression"@))
    } else {
        let k = ns[i].kind;
        if k == "binary_expression"@ {
            let cs = spec_children(ns, i);
            if cs.len() < 3 {
                Err(ErrView::Structure("binary_expression"@))
            } else {
                match spec_rust_op_of_text(ns[cs[1]].text) {
                    None => Err(ErrView::UnsupportedConstruct(ns[cs[1]].text)),
                    Some(b) => match spec_parse_rust_op(ns, cs[0], locals, (fuel - 1) as nat) {
                        Err(e) => Err(e),
                        Ok(l) => match spec_parse_rust_op(ns, cs[2], locals, (fuel - 1) as nat) {
                            Err(e) => Err(e),
                            Ok(r) => Ok(spec_normalize(bin_view(b, l, r))),
                        },
                    },
                }
            }
        } else if k == "integer_literal"@ {
            match spec_parse_i32(ns[i].text) {
                Some(v) => Ok(OpView::IntLit(v as int)),
                None => Err(ErrView::UnsupportedConstruct(ns[i].text)),
            }
        } else if k == "boolean_literal"@ {
            if ns[i].text == "true"@ {
                Ok(OpView::BoolLit(true))
            } else if ns[i].text == "false"@ {
                Ok(OpView::BoolLit(false))
            } else {
                Err(ErrView::UnsupportedConstruct(ns[i].text))
            }
        } else if k == "identifier"@ {
            Ok(OpView::Var(ns[i].text))
        } else if k == "parenthesized_expression"@ {
            let cs = spec_children(ns, i);
            if cs.len() < 2 {
                Err(ErrView::Structure("parenthesized_expression"@))
            } else {
                spec_parse_rust_op(ns, cs[1], locals, (fuel - 1) as nat)
            }
        } else if k == "call_expression"@ {
            let cs = spec_children(ns, i);
            if cs.len() < 2 {
                Err(ErrView::Structure("call_expression"@))
            } else if ns[cs[0]].kind == "identifier"@ {
                let args = spec_children(ns, cs[1]);
                if args.len() < 2 {
                    Err(ErrView::Structure("arguments"@))
                } else {
                    match spec_parse_rust_op(ns, args[1], locals, (fuel - 1) as nat) {
                        Err(e) => Err(e),
                        Ok(arg) => spec_inline(locals, ns[cs[0]].text, arg),
                    }
                }
            } else {
                Err(ErrView::UnsupportedConstruct(ns[cs[0]].kind))
            }
        } else {
            Err(ErrView::UnsupportedConstruct(k))
        }
    }
}

/// Translate the expression subtree rooted at node `i` by direct recursive
/// descent, applying the precedence normalizer at each binary node and
/// inlining call expressions against the local clauses.
pub fn parse_rust_operation(cst: &Cst, i: usize, locals: &Vec<Func>, fuel: usize) -> (r: Result<
    Operation,
    TransError,
>)
    requires
        i < cst@.len(),
    ensures
        res_op_view(r) == spec_parse_rust_op(cst@, i as int, funcs_view(locals@), fuel as nat),
    decreases fuel,
{
    if fuel == 0 {
        return Err(TransError::Structure(String::from_str("expression depth")));
    }
    let node_kind = &cst.nodes[i].kind;
    if str_eq(node_kind.as_str(), "binary_expression") {
        let cs = children(cst, i);
        if cs.len() < 3 {
            Err(TransError::Structure(String::from_str("binary_expression")))
        } else {
            match rust_op_of_text(cst.nodes[cs[1]].text.as_str()) {
                None => Err(TransError::UnsupportedConstruct(cst.nodes[cs[1]].text.clone())),
                Some(b) => {
                    match parse_rust_operation(cst, cs[0], locals, fuel - 1) {
                        Err(e) => Err(e),
                        Ok(l) => match parse_rust_operation(cst, cs[2], locals, fuel - 1) {
                            Err(e) => Err(e),
                            Ok(r) => Ok(normalize(Operation::join(b, Box::new(l), Box::new(r)))),
                        },
                    }
                },
            }
        }
    } else if str_eq(node_kind.as_str(), "integer_literal") {
        match parse_i32(cst.nodes[i].text.as_str()) {
            Some(v) => Ok(Operation::IntLit(v)),
            None => Err(TransError::UnsupportedConstruct(cst.nodes[i].text.clone())),
        }
    } else if str_eq(node_kind.as_str(), "boolean_literal") {
        if str_eq(cst.nodes[i].text.as_str(), "true") {
            Ok(Operation::BoolLit(true))
        } else if str_eq(cst.nodes[i].text.as_str(), "false") {
            Ok(Operation::BoolLit(false))
        } else {
            Err(TransError::UnsupportedConstruct(cst.nodes[i].text.clone()))
        }
    } else if str_eq(node_kind.as_str(), "identifier") {
        Ok(Operation::Var(cst.nodes[i].text.clone()))
    } else if str_eq(node_kind.as_str(), "parenthesized_expression") {
        let cs = children(cst, i);
        if cs.len() < 2 {
            Err(TransError::Structure(String::from_str("parenthesized_expression")))
        } else {
            parse_rust_operation(cst, cs[1], locals, fuel - 1)
        }
    } else if str_eq(node_kind.as_str(), "call_expression") {
        let cs = children(cst, i);
        if cs.len() < 2 {
            Err(TransError::Structure(String::from_str("call_expression")))
        } else if str_eq(cst.nodes[cs[0]].kind.as_str(), "identifier") {
            let args = children(cst, cs[1]);
            if args.len() < 2 {
                Err(TransError::Structure(String::from_str("arguments")))
            } else {
                match parse_rust_operation(cst, args[1], locals, fuel - 1) {
                    Err(e) => Err(e),
                    Ok(arg) => inline_apply(locals, cst.nodes[cs[0]].text.as_str(), &arg),
                }
            }
        } else {
            Err(TransError::UnsupportedConstruct(cst.nodes[cs[0]].kind.clone()))
        }
    } else {
        Err(TransError::UnsupportedConstruct(node_kind.clone()))
    }
}

/// The field type denoted by a primitive type name of the notation.
pub open spec fn spec_rust_type_of(t: Seq<char>) -> Result<Type, ErrView> {
    if t == "i32"@ {
        Ok(Type::Int)
    } else if t == "bool"@ {
        Ok(Type::Bool)
    } else {
        Err(ErrView::UnsupportedConstruct(t))
    }
}

/// The field types denoted by the nodes at the given positions, in order.
pub open spec fn spec_rust_types_of(ns: Seq<CstNodeView>, idxs: Seq<int>) -> Result<
    Seq<Type>,
    ErrView,
>
    decreases idxs.len(),
{
    if idxs.len() == 0 {
        Ok(Seq::empty())
    } else {
        match spec_rust_types_of(ns, idxs.drop_last()) {
            Err(e) => Err(e),
            Ok(ts) => match spec_rust_type_of(ns[idxs.last()].text) {
                Err(e) => Err(e),
                Ok(t) => Ok(ts.push(t)),
            },
        }
    }
}

proof fn lemma_rust_types_err_extend(ns: Seq<CstNodeView>, idxs: Seq<int>, j: int)
    requires
        0 <= j <= idxs.len(),
        spec_rust_types_of(ns, idxs.subrange(0, j)) is Err,
    ensures
        spec_rust_types_of(ns, idxs) == spec_rust_types_of(ns, idxs.subrange(0, j)),
    decreases idxs.len() - j,
{
    if j == idxs.len() {
        assert(idxs.subrange(0, j) =~= idxs);
    } else {
        assert(idxs.subrange(0, j + 1).drop_last() =~= idxs.subrange(0, j));
        lemma_rust_types_err_extend(ns, idxs, j + 1);
    }
}

fn rust_types_of(cst: &Cst, idxs: &Vec<usize>) -> (r: Result<Vec<Type>, TransError>)
    requires
        forall|k: int| 0 <= k < idxs@.len() ==> #[trigger] idxs@[k] < cst@.len(),
    ensures
        match r {
            Ok(ts) => spec_rust_types_of(cst@, idxs@.map_values(|u: usize| u as int)) == Ok::<
                Seq<Type>,
                ErrView,
            >(ts@),
            Err(e) => spec_rust_types_of(cst@, idxs@.map_values(|u: usize| u as int)) == Err::<
                Seq<Type>,
                ErrView,
            >(e@),
        },
{
    let ghost iv = idxs@.map_values(|u: usize| u as int);
    let mut out: Vec<Type> = Vec::new();
    let mut k: usize = 0;
    proof {
        assert(iv.subrange(0, 0) =~= Seq::<int>::empty());
    }
    while k < idxs.len()
        invariant
            k <= idxs.len(),
            iv == idxs@.map_values(|u: usize| u as int),
            iv.len() == idxs@.len(),
            forall|m: int| 0 <= m < idxs@.len() ==> #[trigger] idxs@[m] < cst@.len(),
            forall|m: int| 0 <= m < idxs@.len() ==> iv[m] == idxs@[m] as int,
            spec_rust_types_of(cst@, iv.subrange(0, k as int)) == Ok::<Seq<Type>, ErrView>(out@),
        decreases idxs.len() - k,
    {
        proof {
            assert(iv.subrange(0, k + 1 as int).drop_last() =~= iv.subrange(0, k as int));
            assert(iv.subrange(0, k + 1 as int).last() == iv[k as int]);
        }
        let t = &cst.nodes[idxs[k]].text;
        if str_eq(t.as_str(), "i32") {
            out.push(Type::Int);
        } else if str_eq(t.as_str(), "bool") {
            out.push(Type::Bool);
        } else {
            proof {
                lemma_rust_types_err_extend(cst@, iv, k + 1);
            }
            return Err(TransError::UnsupportedConstruct(t.clone()));
        }
        k = k + 1;
    }
    proof {
        assert(iv.subrange(0, idxs@.len() as int) =~= iv);
    }
    Ok(out)
}

/// The constructor declared by the enum variant at position `vi`: its name
/// and its primitive field types in declared order.
pub open spec fn spec_rust_cons_of(ns: Seq<CstNodeView>, vi: int) -> Result<ConsView, ErrView> {
    let ve = spec_end(ns, vi);
    let ids = spec_capture(ns, vi + 1, ve, "identifier"@);
    if ids.len() == 0 {
        Err(ErrView::Structure("enum_variant"@))
    } else {
        match spec_rust_types_of(ns, spec_capture(ns, vi + 1, ve, "primitive_type"@)) {
            Err(e) => Err(e),
            Ok(ts) => Ok(ConsView { prefix: ns[ids[0]].text, types: ts }),
        }
    }
}

/// The constructors declared by the enum variants at the given positions.
pub open spec fn spec_rust_cons_list(ns: Seq<CstNodeView>, vidxs: Seq<int>) -> Result<
    Seq<ConsView>,
    ErrView,
>
    decreases vidxs.len(),
{
    if vidxs.len() == 0 {
        Ok(Seq::empty())
    } else {
        match spec_rust_cons_list(ns, vidxs.drop_last()) {
            Err(e) => Err(e),
            Ok(cs) => match spec_rust_cons_of(ns, vidxs.last()) {
                Err(e) => Err(e),
                Ok(c) => Ok(cs.push(c)),
            },
        }
    }
}

proof fn lemma_rust_cons_err_extend(ns: Seq<CstNodeView>, vidxs: Seq<int>, j: int)
    requires
        0 <= j <= vidxs.len(),
        spec_rust_cons_list(ns, vidxs.subrange(0, j)) is Err,
    ensures
        spec_rust_cons_list(ns, vidxs) == spec_rust_cons_list(ns, vidxs.subrange(0, j)),
    decreases vidxs.len() - j,
{
    if j == vidxs.len() {
        assert(vidxs.subrange(0, j) =~= vidxs);
    } else {
        assert(vidxs.subrange(0, j + 1).drop_last() =~= vidxs.subrange(0, j));
        lemma_rust_cons_err_extend(ns, vidxs, j + 1);
    }
}

/// The enum declaration recovered from the tree: there must be exactly one
/// enum declaration; its name is the first type identifier inside it, and its
/// constructors are its variants in declaration order. Constructor tag names
/// must be unique within the Adt; a repeated one is a structure failure
/// naming the repeated tag.
pub open spec fn spec_collect_rust_adts(ns: Seq<CstNodeView>) -> Result<AdtView, ErrView> {
    let es = spec_capture(ns, 0, ns.len() as int, "enum_item"@);
    if es.len() != 1 {
        Err(ErrView::Structure("enum_item"@))
    } else {
        let i = es[0];
        let tids = spec_capture(ns, i + 1, spec_end(ns, i), "type_identifier"@);
        if tids.len() == 0 {
            Err(ErrView::Structure("type_identifier"@))
        } else {
            match spec_rust_cons_list(ns, spec_capture(ns, i + 1, spec_end(ns, i), "enum_variant"@)) {
                Err(e) => Err(e),
                Ok(cs) => match spec_dup_prefix(cs) {
                    Some(j) => Err(ErrView::Structure(cs[j].prefix)),
                    None => Ok(AdtView { name: ns[tids[0]].text, constructors: cs }),
                },
            }
        }
    }
}

/// Recover the single enum declaration of the source: its name and its
/// constructors in declaration order, each with its primitive field types in
/// declared field order. Zero or several enum declarations or a nameless
/// variant are structure failures; a field type outside the modeled subset is
/// an unsupported-construct failure.
pub fn collect_rust_adts(cst: &Cst) -> (r: Result<Adt, TransError>)
    ensures
        match r {
            Ok(a) => spec_collect_rust_adts(cst@) == Ok::<AdtView, ErrView>(a@),
            Err(e) => spec_collect_rust_adts(cst@) == Err::<AdtView, ErrView>(e@),
        },
{
    let total = cst.len();
    let es = capture(cst, 0, total, "enum_item");
    if es.len() != 1 {
        return Err(TransError::Structure(String::from_str("enum_item")));
    }
    let i = es[0];
    let end = cst.subtree_end(i);
    let tids = capture(cst, i + 1, end, "type_identifier");
    if tids.len() == 0 {
        return Err(TransError::Structure(String::from_str("type_identifier")));
    }
    let name_idx = tids[0];
    let vidxs = capture(cst, i + 1, end, "enum_variant");
    let ghost viv = vidxs@.map_values(|u: usize| u as int);
    let mut constructors: Vec<Cons> = Vec::new();
    let mut k: usize = 0;
    proof {
        assert(viv.subrange(0, 0) =~= Seq::<int>::empty());
        assert(constructors@.map_values(|c: Cons| c@) =~= Seq::<ConsView>::empty());
    }
    while k < vidxs.len()
        invariant
            k <= vidxs.len(),
            viv == vidxs@.map_values(|u: usize| u as int),
            viv.len() == vidxs@.len(),
            forall|m: int| 0 <= m < vidxs@.len() ==> #[trigger] vidxs@[m] < cst@.len(),
            forall|m: int| 0 <= m < vidxs@.len() ==> viv[m] == vidxs@[m] as int,
            spec_capture(cst@, 0, cst@.len() as int, "enum_item"@).len() == 1,
            i == spec_capture(cst@, 0, cst@.len() as int, "enum_item"@)[0],
            i < cst@.len(),
            name_idx < cst@.len(),
            spec_capture(cst@, i + 1 as int, spec_end(cst@, i as int), "type_identifier"@).len()
                > 0,
            name_idx == spec_capture(
                cst@,
                i + 1 as int,
                spec_end(cst@, i as int),
                "type_identifier"@,
            )[0],
            viv == spec_capture(cst@, i + 1 as int, spec_end(cst@, i as int), "enum_variant"@),
            spec_rust_cons_list(cst@, viv.subrange(0, k as int)) == Ok::<Seq<ConsView>, ErrView>(
                constructors@.map_values(|c: Cons| c@),
            ),
        decreases vidxs.len() - k,
    {
        proof {
            assert(viv.subrange(0, k + 1 as int).drop_last() =~= viv.subrange(0, k as int));
            assert(viv.subrange(0, k + 1 as int).last() == viv[k as int]);
        }
        let vi = vidxs[k];
        let ve = cst.subtree_end(vi);
        let ids = capture(cst, vi + 1, ve, "identifier");
        if ids.len() == 0 {
            proof {
                lemma_rust_cons_err_extend(cst@, viv, k + 1);
            }
            return Err(TransError::Structure(String::from_str("enum_variant")));
        }
        let tn = capture(cst, vi + 1, ve, "primitive_type");
        match rust_types_of(cst, &tn) {
            Err(e) => {
                proof {
                    lemma_rust_cons_err_extend(cst@, viv, k + 1);
                }
                return Err(e);
            },
            Ok(types) => {
                let c = Cons { prefix: cst.nodes[ids[0]].text.clone(), types };
                constructors.push(c);
                proof {
                    assert(constructors@.map_values(|x: Cons| x@) =~= spec_rust_cons_list(
                        cst@,
                        viv.subrange(0, k as int),
                    )->Ok_0.push(c@));
                }
            },
        }
        k = k + 1;
    }
    proof {
        assert(viv.subrange(0, vidxs@.len() as int) =~= viv);
    }
    match dup_prefix(&constructors) {
        Some(j) => Err(TransError::Structure(constructors[j].prefix.clone())),
        None => Ok(Adt { name: cst.nodes[name_idx].text.clone(), constructors }),
    }
}

/// One clause recovered from the match arm at position `ai`: the matched
/// constructor (the second identifier of the arm's pattern — the first names
/// the enum), the bound variable names in field-position order, and the arm's
/// body, the child after the arrow, translated against the clauses seen so
/// far.
pub open spec fn spec_rust_clause(
    ns: Seq<CstNodeView>,
    ai: int,
    locals: Seq<FuncView>,
    fuel: nat,
) -> Result<FuncView, ErrView> {
    let acs = spec_children(ns, ai);
    if acs.len() == 0 {
        Err(ErrView::Structure("match_arm"@))
    } else {
        let pat = acs[0];
        let ids = spec_capture(ns, pat, spec_end(ns, pat), "identifier"@);
        if ids.len() < 2 {
            Err(ErrView::Structure("pattern"@))
        } else {
            match spec_first_slot(ns, acs, "=>"@) {
                None => Err(ErrView::Structure("match_arm"@)),
                Some(slot) => {
                    if slot + 1 >= acs.len() {
                        Err(ErrView::Structure("match_arm"@))
                    } else {
                        match spec_parse_rust_op(ns, acs[slot + 1], locals, fuel) {
                            Err(e) => Err(e),
                            Ok(op) => Ok(
                                FuncView {
                                    con: FuncInputView {
                                        prefix: ns[ids[1]].text,
                                        input: spec_texts(ns, ids.subrange(2, ids.len() as int)),
                                    },
                                    opp: op,
                                },
                            ),
                        }
                    }
                },
            }
        }
    }
}

/// Recover one clause from the match arm at position `ai`.
fn parse_rust_clause(cst: &Cst, ai: usize, locals: &Vec<Func>, fuel: usize) -> (r: Result<
    Func,
    TransError,
>)
    requires
        ai < cst@.len(),
    ensures
        match r {
            Ok(f) => spec_rust_clause(cst@, ai as int, funcs_view(locals@), fuel as nat) == Ok::<
                FuncView,
                ErrView,
            >(f@),
            Err(e) => spec_rust_clause(cst@, ai as int, funcs_view(locals@), fuel as nat) == Err::<
                FuncView,
                ErrView,
            >(e@),
        },
{
    let acs = children(cst, ai);
    if acs.len() == 0 {
        return Err(TransError::Structure(String::from_str("match_arm")));
    }
    let pat = acs[0];
    let pe = cst.subtree_end(pat);
    let ids = capture(cst, pat, pe, "identifier");
    if ids.len() < 2 {
        return Err(TransError::Structure(String::from_str("pattern")));
    }
    let slot = match first_slot(cst, &acs, "=>") {
        None => {
            return Err(TransError::Structure(String::from_str("match_arm")));
        },
        Some(s) => s,
    };
    if slot + 1 >= acs.len() {
        return Err(TransError::Structure(String::from_str("match_arm")));
    }
    let ghost idv = ids@.map_values(|u: usize| u as int);
    let mut rest: Vec<usize> = Vec::new();
    let mut k: usize = 2;
    while k < ids.len()
        invariant
            2 <= k <= ids@.len() || (k == 2 && ids@.len() >= 2),
            idv == ids@.map_values(|u: usize| u as int),
            idv.len() == ids@.len(),
            forall|m: int| 0 <= m < ids@.len() ==> #[trigger] ids@[m] < cst@.len(),
            forall|m: int| 0 <= m < ids@.len() ==> idv[m] == ids@[m] as int,
            rest@.len() == k - 2,
            forall|m: int| 0 <= m < k - 2 ==> #[trigger] rest@[m] == ids@[m + 2],
        decreases ids.len() - k,
    {
        rest.push(ids[k]);
        k = k + 1;
    }
    proof {
        assert(rest@.map_values(|u: usize| u as int) =~= idv.subrange(2, idv.len() as int));
    }
    let input = texts_of(cst, &rest);
    match parse_rust_operation(cst, acs[slot + 1], locals, fuel) {
        Err(e) => Err(e),
        Ok(op) => {
            let prefix = cst.nodes[ids[1]].text.clone();
            Ok(Func { con: FuncInput { prefix, input }, opp: op })
        },
    }
}

/// The fold over the match arms: every arm becomes a clause, translated
/// against the clauses of the earlier arms.
pub open spec fn spec_rust_arms_fold(
    ns: Seq<CstNodeView>,
    aidxs: Seq<int>,
    acc: Seq<FuncView>,
    fuel: nat,
) -> Result<Seq<FuncView>, ErrView>
    decreases aidxs.len(),
{
    if aidxs.len() == 0 {
        Ok(acc)
    } else {
        match spec_rust_arms_fold(ns, aidxs.drop_last(), acc, fuel) {
            Err(e) => Err(e),
            Ok(fs) => match spec_rust_clause(ns, aidxs.last(), fs, fuel) {
                Err(e) => Err(e),
                Ok(f) => Ok(fs.push(f)),
            },
        }
    }
}

proof fn lemma_rust_arms_err_extend(ns: Seq<CstNodeView>, aidxs: Seq<int>, fuel: nat, j: int)
    requires
        0 <= j <= aidxs.len(),
        spec_rust_arms_fold(ns, aidxs.subrange(0, j), Seq::empty(), fuel) is Err,
    ensures
        spec_rust_arms_fold(ns, aidxs, Seq::empty(), fuel) == spec_rust_arms_fold(
            ns,
            aidxs.subrange(0, j),
            Seq::empty(),
            fuel,
        ),
    decreases aidxs.len() - j,
{
    if j == aidxs.len() {
        assert(aidxs.subrange(0, j) =~= aidxs);
    } else {
        assert(aidxs.subrange(0, j + 1).drop_last() =~= aidxs.subrange(0, j));
        lemma_rust_arms_err_extend(ns, aidxs, fuel, j + 1);
    }
}

/// The predicate clauses recovered from the tree: there must be exactly one
/// function declaration, and each match arm inside it yields one clause, in
/// arm order.
pub open spec fn spec_collect_rust_functions(ns: Seq<CstNodeView>) -> Result<
    Seq<FuncView>,
    ErrView,
> {
    let fs = spec_capture(ns, 0, ns.len() as int, "function_item"@);
    if fs.len() != 1 {
        Err(ErrView::Structure("function_item"@))
    } else {
        let fi = fs[0];
        spec_rust_arms_fold(
            ns,
            spec_capture(ns, fi + 1, spec_end(ns, fi), "match_arm"@),
            Seq::empty(),
            ns.len() as nat,
        )
    }
}

/// Recover the predicate's clauses from the single function declaration: one
/// clause per match arm, in arm order, each translated against the clauses of
/// the earlier arms. The declared input type name is not consulted here; the
/// encoder rejects clauses whose constructor is not the ADT's.
#[verifier::rlimit(50)]
pub fn collect_rust_functions(cst: &Cst, _adt_name: &str) -> (r: Result<Vec<Func>, TransError>)
    ensures
        match r {
            Ok(fs) => spec_collect_rust_functions(cst@) == Ok::<Seq<FuncView>, ErrView>(
                funcs_view(fs@),
            ),
            Err(e) => spec_collect_rust_functions(cst@) == Err::<Seq<FuncView>, ErrView>(e@),
        },
{
    let ghost ns = cst@;
    let total = cst.len();
    let ghost fuel = total as nat;
    let fitems = capture(cst, 0, total, "function_item");
    if fitems.len() != 1 {
        return Err(TransError::Structure(String::from_str("function_item")));
    }
    let fi = fitems[0];
    let fe = cst.subtree_end(fi);
    let aidxs = capture(cst, fi + 1, fe, "match_arm");
    let ghost aiv = aidxs@.map_values(|u: usize| u as int);
    let mut funcs: Vec<Func> = Vec::new();
    let mut k: usize = 0;
    proof {
        assert(aiv.subrange(0, 0) =~= Seq::<int>::empty());
        assert(funcs_view(funcs@) =~= Seq::<FuncView>::empty());
    }
    while k < aidxs.len()
        invariant
            k <= aidxs.len(),
            ns == cst@,
            fuel == cst@.len() as nat,
            total == cst@.len(),
            aiv == aidxs@.map_values(|u: usize| u as int),
            aiv.len() == aidxs@.len(),
            forall|m: int| 0 <= m < aidxs@.len() ==> #[trigger] aidxs@[m] < cst@.len(),
            forall|m: int| 0 <= m < aidxs@.len() ==> aiv[m] == aidxs@[m] as int,
            spec_capture(ns, 0, ns.len() as int, "function_item"@).len() == 1,
            fi == spec_capture(ns, 0, ns.len() as int, "function_item"@)[0],
            fi < cst@.len(),
            aiv == spec_capture(ns, fi + 1 as int, spec_end(ns, fi as int), "match_arm"@),
            spec_rust_arms_fold(ns, aiv.subrange(0, k as int), Seq::empty(), fuel) == Ok::<
                Seq<FuncView>,
                ErrView,
            >(funcs_view(funcs@)),
        decreases aidxs.len() - k,
    {
        proof {
            assert(aiv.subrange(0, k + 1 as int).drop_last() =~= aiv.subrange(0, k as int));
            assert(aiv.subrange(0, k + 1 as int).last() == aiv[k as int]);
        }
        match parse_rust_clause(cst, aidxs[k], &funcs, total) {
            Err(e) => {
                proof {
                    lemma_rust_arms_err_extend(ns, aiv, fuel, k + 1);
                }
                return Err(e);
            },
            Ok(f) => {
                funcs.push(f);
                proof {
                    assert(funcs_view(funcs@) =~= spec_rust_arms_fold(
                        ns,
                        aiv.subrange(0, k as int),
                        Seq::empty(),
                        fuel,
                    )->Ok_0.push(funcs@.last()@));
                }
            },
        }
        k = k + 1;
    }
    proof {
        assert(aiv.subrange(0, aidxs@.len() as int) =~= aiv);
    }
    Ok(funcs)
}

} // verus!
