//! The frontend adapter for the pattern-match notation: walks a concrete
//! syntax tree and emits the ADT declaration and the predicate clauses, using
//! the precedence normalizer at the point each binary node is constructed and
//! resolving applications of local helper clauses by inlining.

use crate::adt::{bin_view, dup_prefix, funcs_view, spec_dup_prefix, Adt, AdtView, BinOp, Cons,
    ConsView, Func, FuncInput,
    FuncInputView, FuncView, OpView, Operation, Type};
use crate::cst::{capture, children, first_kind, spec_capture, spec_children, spec_end,
    spec_first_kind, spec_texts, texts_of, Cst, CstNodeView};
use crate::error::{ErrView, TransError};
use crate::precedence::{normalize, spec_normalize};
use crate::strings::{parse_i32, spec_parse_i32, str_eq};
use crate::subst::{inline_apply, spec_inline};
use vstd::prelude::*;

verus! {

/// The binary operator denoted by an infix operator spelling of the
/// pattern-match notation, if it is in the modeled set.
pub open spec fn spec_op_of_text(t: Seq<char>) -> Option<BinOp> {
    if t == ">"@ {
        Some(BinOp::Gt)
    } else if t == "<"@ {
        Some(BinOp::Lt)
    } else if t == "=="@ {
        Some(BinOp::Eq)
    } else if t == "/="@ {
        Some(BinOp::Neq)
    } else if t == "<="@ {
        Some(BinOp::Leq)
    } else if t == ">="@ {
        Some(BinOp::Geq)
    } else if t == "+"@ {
        Some(BinOp::Add)
    } else if t == "-"@ {
        Some(BinOp::Sub)
    } else if t == "*"@ {
        Some(BinOp::Mul)
    } else if t == "&&"@ {
        Some(BinOp::And)
    } else if t == "||"@ {
        Some(BinOp::Or)
    } else {
        None
    }
}

fn op_of_text(t: &str) -> (r: Option<BinOp>)
    ensures
        r == spec_op_of_text(t@),
{
    if str_eq(t, ">") {
        Some(BinOp::Gt)
    } else if str_eq(t, "<") {
        Some(BinOp::Lt)
    } else if str_eq(t, "==") {
        Some(BinOp::Eq)
    } else if str_eq(t, "/=") {
        Some(BinOp::Neq)
    } else if str_eq(t, "<=") {
        Some(BinOp::Leq)
    } else if str_eq(t, ">=") {
        Some(BinOp::Geq)
    } else if str_eq(t, "+") {
        Some(BinOp::Add)
    } else if str_eq(t, "-") {
        Some(BinOp::Sub)
    } else if str_eq(t, "*") {
        Some(BinOp::Mul)
    } else if str_eq(t, "&&") {
        Some(BinOp::And)
    } else if str_eq(t, "||") {
        Some(BinOp::Or)
    } else {
        None
    }
}

/// The expression denoted by the subtree rooted at node `i`, translated by
/// direct recursive descent: infix nodes become binary operators normalized
/// at construction, integer literals and the spelled boolean constants become
/// literal leaves, other variables and names become variable leaves,
/// parenthesized expressions unwrap, and applications inline local helper
/// clauses by substitution. The recursion is bounded by `fuel`.
pub open spec fn spec_parse_op(
    ns: Seq<CstNodeView>,
    i: int,
    locals: Seq<FuncView>,
    fuel: nat,
) -> Result<OpView, ErrView>
    decreases fuel,
{
    if fuel == 0 {
        Err(ErrView::Structure("expression depth"@))
    } else if !(0 <= i < ns.len()) {
        Err(ErrView::Structure("expression"@))
    } else {
        let k = ns[i].kind;
        if k == "infix"@ {
            let cs = spec_children(ns, i);
            if cs.len() < 3 {
                Err(ErrView::Structure("infix"@))
            } else {
                match spec_op_of_text(ns[cs[1]].text) {
                    None => Err(ErrView::UnsupportedConstruct(ns[cs[1]].text)),
                    Some(b) => match spec_parse_op(ns, cs[0], locals, (fuel - 1) as nat) {
                        Err(e) => Err(e),
                        Ok(l) => match spec_parse_op(ns, cs[2], locals, (fuel - 1) as nat) {
                            Err(e) => Err(e),
                            Ok(r) => Ok(spec_normalize(bin_view(b, l, r))),
                        },
                    },
                }
            }
        } else if k == "literal"@ {
            match spec_parse_i32(ns[i].text) {
                Some(v) => Ok(OpView::IntLit(v as int)),
                None => Err(ErrView::UnsupportedConstruct(ns[i].text)),
            }
        } else if k == "variable"@ || k == "name"@ {
            if ns[i].text == "True"@ {
                Ok(OpView::BoolLit(true))
            } else if ns[i].text == "False"@ {
                Ok(OpView::BoolLit(false))
            } else {
                Ok(OpView::Var(ns[i].text))
            }
        } else if k == "parens"@ {
            let cs = spec_children(ns, i);
            if cs.len() < 2 {
                Err(ErrView::Structure("parens"@))
            } else {
                spec_parse_op(ns, cs[1], locals, (fuel - 1) as nat)
            }
        } else if k == "constructor"@ {
            if ns[i].text == "True"@ {
                Ok(OpView::BoolLit(true))
            } else if ns[i].text == "False"@ {
                Ok(OpView::BoolLit(false))
            } else {
                Err(ErrView::UnknownConstructor(ns[i].text))
            }
        } else if k == "apply"@ {
            let cs = spec_children(ns, i);
            if cs.len() < 2 {
                Err(ErrView::Structure("apply"@))
            } else if ns[cs[0]].kind == "variable"@ || ns[cs[0]].kind == "name"@ {
                match spec_parse_op(ns, cs[1], locals, (fuel - 1) as nat) {
                    Err(e) => Err(e),
                    Ok(arg) => spec_inline(locals, ns[cs[0]].text, arg),
                }
            } else {
                Err(ErrView::UnsupportedConstruct(ns[cs[0]].kind))
            }
        } else {
            Err(ErrView::UnsupportedConstruct(k))
        }
    }
}

/// Translate the expression subtree rooted at node `i` by direct recursive
/// descent, applying the precedence normalizer at each binary node and
/// inlining applications of local helper clauses.
pub fn parse_operation(cst: &Cst, i: usize, locals: &Vec<Func>, fuel: usize) -> (r: Result<
    Operation,
    TransError,
>)
    requires
        i < cst@.len(),
    ensures
        res_op_view(r) == spec_parse_op(cst@, i as int, funcs_view(locals@), fuel as nat),
    decreases fuel,
{
    if fuel == 0 {
        return Err(TransError::Structure(String::from_str("expression depth")));
    }
    let node_kind = &cst.nodes[i].kind;
    if str_eq(node_kind.as_str(), "infix") {
        let cs = children(cst, i);
        if cs.len() < 3 {
            Err(TransError::Structure(String::from_str("infix")))
        } else {
            match op_of_text(cst.nodes[cs[1]].text.as_str()) {
                None => Err(
                    TransError::UnsupportedConstruct(cst.nodes[cs[1]].text.clone()),
                ),
                Some(b) => {
                    match parse_operation(cst, cs[0], locals, fuel - 1) {
                        Err(e) => Err(e),
                        Ok(l) => match parse_operation(cst, cs[2], locals, fuel - 1) {
                            Err(e) => Err(e),
                            Ok(r) => Ok(
                                normalize(Operation::join(b, Box::new(l), Box::new(r))),
                            ),
                        },
                    }
                },
            }
        }
    } else if str_eq(node_kind.as_str(), "literal") {
        match parse_i32(cst.nodes[i].text.as_str()) {
            Some(v) => Ok(Operation::IntLit(v)),
            None => Err(TransError::UnsupportedConstruct(cst.nodes[i].text.clone())),
        }
    } else if str_eq(node_kind.as_str(), "variable") || str_eq(node_kind.as_str(), "name") {
        if str_eq(cst.nodes[i].text.as_str(), "True") {
            Ok(Operation::BoolLit(true))
        } else if str_eq(cst.nodes[i].text.as_str(), "False") {
            Ok(Operation::BoolLit(false))
        } else {
            Ok(Operation::Var(cst.nodes[i].text.clone()))
        }
    } else if str_eq(node_kind.as_str(), "parens") {
        let cs = children(cst, i);
        if cs.len() < 2 {
            Err(TransError::Structure(String::from_str("parens")))
        } else {
            parse_operation(cst, cs[1], locals, fuel - 1)
        }
    } else if str_eq(node_kind.as_str(), "constructor") {
        if str_eq(cst.nodes[i].text.as_str(), "True") {
            Ok(Operation::BoolLit(true))
        } else if str_eq(cst.nodes[i].text.as_str(), "False") {
            Ok(Operation::BoolLit(false))
        } else {
            Err(TransError::UnknownConstructor(cst.nodes[i].text.clone()))
        }
    } else if str_eq(node_kind.as_str(), "apply") {
        let cs = children(cst, i);
        if cs.len() < 2 {
            Err(TransError::Structure(String::from_str("apply")))
        } else if str_eq(cst.nodes[cs[0]].kind.as_str(), "variable") || str_eq(
            cst.nodes[cs[0]].kind.as_str(),
            "name",
        ) {
            match parse_operation(cst, cs[1], locals, fuel - 1) {
                Err(e) => Err(e),
                Ok(arg) => inline_apply(locals, cst.nodes[cs[0]].text.as_str(), &arg),
            }
        } else {
            Err(TransError::UnsupportedConstruct(cst.nodes[cs[0]].kind.clone()))
        }
    } else {
        Err(TransError::UnsupportedConstruct(node_kind.clone()))
    }
}

/// The mathematical value of an expression translation result.
pub open spec fn res_op_view(r: Result<Operation, TransError>) -> Result<OpView, ErrView> {
    match r {
        Ok(op) => Ok(op@),
        Err(e) => Err(e@),
    }
}

/// The field type denoted by a type name of the notation; any other name is
/// outside the modeled subset.
pub open spec fn spec_type_of(t: Seq<char>) -> Result<Type, ErrView> {
    if t == "Bool"@ {
        Ok(Type::Bool)
    } else if t == "Int"@ {
        Ok(Type::Int)
    } else {
        Err(ErrView::UnsupportedConstruct(t))
    }
}

/// The field types denoted by the nodes at the given positions, in order.
pub open spec fn spec_types_of(ns: Seq<CstNodeView>, idxs: Seq<int>) -> Result<Seq<Type>, ErrView>
    decreases idxs.len(),
{
    if idxs.len() == 0 {
        Ok(Seq::empty())
    } else {
        match spec_types_of(ns, idxs.drop_last()) {
            Err(e) => Err(e),
            Ok(ts) => match spec_type_of(ns[idxs.last()].text) {
                Err(e) => Err(e),
                Ok(t) => Ok(ts.push(t)),
            },
        }
    }
}

proof fn lemma_types_of_err_extend(ns: Seq<CstNodeView>, idxs: Seq<int>, j: int)
    requires
        0 <= j <= idxs.len(),
        spec_types_of(ns, idxs.subrange(0, j)) is Err,
    ensures
        spec_types_of(ns, idxs) == spec_types_of(ns, idxs.subrange(0, j)),
    decreases idxs.len() - j,
{
    if j == idxs.len() {
        assert(idxs.subrange(0, j) =~= idxs);
    } else {
        assert(idxs.subrange(0, j + 1).drop_last() =~= idxs.subrange(0, j));
        lemma_types_of_err_extend(ns, idxs, j + 1);
    }
}

/// The constructor declaration rooted at node `ci`: its unique tag name and
/// its field types, from the type names inside it, in declared order.
pub open spec fn spec_cons_of(ns: Seq<CstNodeView>, ci: int) -> Result<ConsView, ErrView> {
    let ce = spec_end(ns, ci);
    let pidx = spec_capture(ns, ci + 1, ce, "constructor"@);
    if pidx.len() != 1 {
        Err(ErrView::Structure("constructor"@))
    } else {
        match spec_types_of(ns, spec_capture(ns, ci + 1, ce, "name"@)) {
            Err(e) => Err(e),
            Ok(ts) => Ok(ConsView { prefix: ns[pidx[0]].text, types: ts }),
        }
    }
}

/// The constructor declarations rooted at the given positions, in order.
pub open spec fn spec_cons_list(ns: Seq<CstNodeView>, cidxs: Seq<int>) -> Result<
    Seq<ConsView>,
    ErrView,
>
    decreases cidxs.len(),
{
    if cidxs.len() == 0 {
        Ok(Seq::empty())
    } else {
        match spec_cons_list(ns, cidxs.drop_last()) {
            Err(e) => Err(e),
            Ok(cs) => match spec_cons_of(ns, cidxs.last()) {
                Err(e) => Err(e),
                Ok(c) => Ok(cs.push(c)),
            },
        }
    }
}

proof fn lemma_cons_list_err_extend(ns: Seq<CstNodeView>, cidxs: Seq<int>, j: int)
    requires
        0 <= j <= cidxs.len(),
        spec_cons_list(ns, cidxs.subrange(0, j)) is Err,
    ensures
        spec_cons_list(ns, cidxs) == spec_cons_list(ns, cidxs.subrange(0, j)),
    decreases cidxs.len() - j,
{
    if j == cidxs.len() {
        assert(cidxs.subrange(0, j) =~= cidxs);
    } else {
        assert(cidxs.subrange(0, j + 1).drop_last() =~= cidxs.subrange(0, j));
        lemma_cons_list_err_extend(ns, cidxs, j + 1);
    }
}

/// The ADT declaration recovered from the tree: there must be exactly one
/// `data` declaration; its name is its first name child, and its constructors
/// are the constructor declarations inside it, in declared order. Constructor
/// tag names must be unique within the Adt; a repeated one is a structure
/// failure naming the repeated tag.
pub open spec fn spec_collect_haskell_adts(ns: Seq<CstNodeView>) -> Result<AdtView, ErrView> {
    let ds = spec_capture(ns, 0, ns.len() as int, "data_type"@);
    if ds.len() != 1 {
        Err(ErrView::Structure("data_type"@))
    } else {
        let i = ds[0];
        match spec_first_kind(ns, spec_children(ns, i), "name"@) {
            None => Err(ErrView::Structure("name"@)),
            Some(ni) => {
                match spec_cons_list(
                    ns,
                    spec_capture(ns, i + 1, spec_end(ns, i), "data_constructor"@),
                ) {
                    Err(e) => Err(e),
                    Ok(cs) => match spec_dup_prefix(cs) {
                        Some(j) => Err(ErrView::Structure(cs[j].prefix)),
                        None => Ok(AdtView { name: ns[ni].text, constructors: cs }),
                    },
                }
            },
        }
    }
}


/// Translate the field type names found inside one constructor declaration.
fn types_of(cst: &Cst, idxs: &Vec<usize>) -> (r: Result<Vec<Type>, TransError>)
    requires
        forall|k: int| 0 <= k < idxs@.len() ==> #[trigger] idxs@[k] < cst@.len(),
    ensures
        match r {
            Ok(ts) => spec_types_of(cst@, idxs@.map_values(|u: usize| u as int)) == Ok::<
                Seq<Type>,
                ErrView,
            >(ts@),
            Err(e) => spec_types_of(cst@, idxs@.map_values(|u: usize| u as int)) == Err::<
                Seq<Type>,
                ErrView,
            >(e@),
        },
{
    let ghost iv = idxs@.map_values(|u: usize| u as int);
    let mut out: Vec<Type> = Vec::new();
    let mut k: usize = 0;
    proof {
        assert(iv.subrange(0, 0) =~= Seq::<int>::empty());
    }
    while k < idxs.len()
        invariant
            k <= idxs.len(),
            iv == idxs@.map_values(|u: usize| u as int),
            iv.len() == idxs@.len(),
            forall|m: int| 0 <= m < idxs@.len() ==> #[trigger] idxs@[m] < cst@.len(),
            forall|m: int| 0 <= m < idxs@.len() ==> iv[m] == idxs@[m] as int,
            spec_types_of(cst@, iv.subrange(0, k as int)) == Ok::<Seq<Type>, ErrView>(out@),
        decreases idxs.len() - k,
    {
        proof {
            assert(iv.subrange(0, k + 1 as int).drop_last() =~= iv.subrange(0, k as int));
            assert(iv.subrange(0, k + 1 as int).last() == iv[k as int]);
        }
        let v = idxs[k];
        let t = &cst.nodes[v].text;
        if str_eq(t.as_str(), "Bool") {
            out.push(Type::Bool);
        } else if str_eq(t.as_str(), "Int") {
            out.push(Type::Int);
        } else {
            proof {
                lemma_types_of_err_extend(cst@, iv, k + 1);
            }
            return Err(TransError::UnsupportedConstruct(t.clone()));
        }
        k = k + 1;
    }
    proof {
        assert(iv.subrange(0, idxs@.len() as int) =~= iv);
    }
    Ok(out)
}

/// Recover the single ADT declaration of the source: its name and its
/// constructors in declaration order, each with its field types in declared
/// field order. Zero or several ADT declarations, a missing name node or a
/// missing constructor tag are structure failures; a field type outside the
/// modeled subset is an unsupported-construct failure.
pub fn collect_haskell_adts(cst: &Cst) -> (r: Result<Adt, TransError>)
    ensures
        match r {
            Ok(a) => spec_collect_haskell_adts(cst@) == Ok::<AdtView, ErrView>(a@),
            Err(e) => spec_collect_haskell_adts(cst@) == Err::<AdtView, ErrView>(e@),
        },
{
    let total = cst.len();
    let ds = capture(cst, 0, total, "data_type");
    if ds.len() != 1 {
        return Err(TransError::Structure(String::from_str("data_type")));
    }
    let i = ds[0];
    let kids = children(cst, i);
    let name_idx = match first_kind(cst, &kids, "name") {
        None => {
            return Err(TransError::Structure(String::from_str("name")));
        },
        Some(ni) => ni,
    };
    let end = cst.subtree_end(i);
    let cidxs = capture(cst, i + 1, end, "data_constructor");
    let ghost civ = cidxs@.map_values(|u: usize| u as int);
    let mut constructors: Vec<Cons> = Vec::new();
    let mut k: usize = 0;
    proof {
        assert(civ.subrange(0, 0) =~= Seq::<int>::empty());
        assert(constructors@.map_values(|c: Cons| c@) =~= Seq::<ConsView>::empty());
    }
    while k < cidxs.len()
        invariant
            k <= cidxs.len(),
            civ == cidxs@.map_values(|u: usize| u as int),
            civ.len() == cidxs@.len(),
            forall|m: int| 0 <= m < cidxs@.len() ==> #[trigger] cidxs@[m] < cst@.len(),
            forall|m: int| 0 <= m < cidxs@.len() ==> civ[m] == cidxs@[m] as int,
            spec_capture(cst@, 0, cst@.len() as int, "data_type"@).len() == 1,
            i == spec_capture(cst@, 0, cst@.len() as int, "data_type"@)[0],
            i < cst@.len(),
            name_idx < cst@.len(),
            spec_first_kind(cst@, spec_children(cst@, i as int), "name"@) == Some(
                name_idx as int,
            ),
            civ == spec_capture(
                cst@,
                i + 1 as int,
                spec_end(cst@, i as int),
                "data_constructor"@,
            ),
            spec_cons_list(cst@, civ.subrange(0, k as int)) == Ok::<Seq<ConsView>, ErrView>(
                constructors@.map_values(|c: Cons| c@),
            ),
        decreases cidxs.len() - k,
    {
        proof {
            assert(civ.subrange(0, k + 1 as int).drop_last() =~= civ.subrange(0, k as int));
            assert(civ.subrange(0, k + 1 as int).last() == civ[k as int]);
        }
        let ci = cidxs[k];
        let ce = cst.subtree_end(ci);
        let pidx = capture(cst, ci + 1, ce, "constructor");
        if pidx.len() != 1 {
            proof {
                lemma_cons_list_err_extend(cst@, civ, k + 1);
            }
            return Err(TransError::Structure(String::from_str("constructor")));
        }
        let tn = capture(cst, ci + 1, ce, "name");
        match types_of(cst, &tn) {
            Err(e) => {
                proof {
                    lemma_cons_list_err_extend(cst@, civ, k + 1);
                }
                return Err(e);
            },
            Ok(types) => {
                let c = Cons { prefix: cst.nodes[pidx[0]].text.clone(), types };
                constructors.push(c);
                proof {
                    assert(constructors@.map_values(|x: Cons| x@) =~= spec_cons_list(
                        cst@,
                        civ.subrange(0, k as int),
                    )->Ok_0.push(c@));
                }
            },
        }
        k = k + 1;
    }
    proof {
        assert(civ.subrange(0, cidxs@.len() as int) =~= civ);
    }
    match dup_prefix(&constructors) {
        Some(j) => Err(TransError::Structure(constructors[j].prefix.clone())),
        None => Ok(Adt { name: cst.nodes[name_idx].text.clone(), constructors }),
    }
}

/// The positions of the run of `function` nodes that starts at position `t`
/// at depth `d`: the clause group following a signature. The walk is bounded
/// by `fuel`.
pub open spec fn spec_siblings(ns: Seq<CstNodeView>, t: int, d: int, fuel: nat) -> Seq<int>
    decreases fuel,
{
    if fuel == 0 || !(0 <= t < ns.len()) {
        Seq::empty()
    } else if ns[t].depth == d && ns[t].kind == "function"@ {
        seq![t] + spec_siblings(ns, spec_end(ns, t), d, (fuel - 1) as nat)
    } else {
        Seq::empty()
    }
}

/// Collect the run of `function` nodes that starts at position `t` at depth
/// `d`.
fn siblings(cst: &Cst, t: usize, d: usize, fuel: usize) -> (r: Vec<usize>)
    ensures
        r@.map_values(|u: usize| u as int) == spec_siblings(cst@, t as int, d as int, fuel as nat),
        forall|k: int| 0 <= k < r@.len() ==> #[trigger] r@[k] < cst@.len(),
    decreases fuel,
{
    let mut out: Vec<usize> = Vec::new();
    if fuel == 0 || t >= cst.nodes.len() {
        proof {
            assert(out@.map_values(|u: usize| u as int) =~= Seq::<int>::empty());
        }
        return out;
    }
    if cst.nodes[t].depth == d && str_eq(cst.nodes[t].kind.as_str(), "function") {
        out.push(t);
        let next = cst.subtree_end(t);
        let mut rest = siblings(cst, next, d, fuel - 1);
        out.append(&mut rest);
        proof {
            assert(out@.map_values(|u: usize| u as int) =~= seq![t as int] + spec_siblings(
                cst@,
                next as int,
                d as int,
                (fuel - 1) as nat,
            ));
        }
    } else {
        proof {
            assert(out@.map_values(|u: usize| u as int) =~= Seq::<int>::empty());
        }
    }
    out
}

/// One clause recovered from a `function` node: the matched constructor's
/// tag (or, for a helper clause that binds no constructor pattern, the
/// clause's own name), the bound variable names in field-position order, and
/// the arm's body translated against the local clauses seen so far.
pub open spec fn spec_clause(
    ns: Seq<CstNodeView>,
    fi: int,
    locals: Seq<FuncView>,
    fuel: nat,
) -> Result<FuncView, ErrView> {
    let fe = spec_end(ns, fi);
    let pats = spec_capture(ns, fi + 1, fe, "patterns"@);
    if pats.len() != 1 {
        Err(ErrView::Structure("patterns"@))
    } else {
        let pe = spec_end(ns, pats[0]);
        let cons = spec_capture(ns, pats[0] + 1, pe, "constructor"@);
        let vars = spec_capture(ns, pats[0] + 1, pe, "variable"@);
        let prefix: Result<Seq<char>, ErrView> = if cons.len() == 1 {
            Ok(ns[cons[0]].text)
        } else if cons.len() == 0 {
            match spec_first_kind(ns, spec_children(ns, fi), "variable"@) {
                Some(v) => Ok(ns[v].text),
                None => Err(ErrView::Structure("function"@)),
            }
        } else {
            Err(ErrView::Structure("constructor"@))
        };
        match prefix {
            Err(e) => Err(e),
            Ok(pfx) => {
                let matches = spec_capture(ns, fi + 1, fe, "match"@);
                if matches.len() != 1 {
                    Err(ErrView::Structure("match"@))
                } else {
                    let mcs = spec_children(ns, matches[0]);
                    if mcs.len() < 2 {
                        Err(ErrView::Structure("match"@))
                    } else {
                        match spec_parse_op(ns, mcs[1], locals, fuel) {
                            Err(e) => Err(e),
                            Ok(op) => Ok(
                                FuncView {
                                    con: FuncInputView { prefix: pfx, input: spec_texts(ns, vars) },
                                    opp: op,
                                },
                            ),
                        }
                    }
                }
            },
        }
    }
}

/// Recover one clause from the `function` node at position `fi`.
fn parse_clause(cst: &Cst, fi: usize, locals: &Vec<Func>, fuel: usize) -> (r: Result<
    Func,
    TransError,
>)
    requires
        fi < cst@.len(),
    ensures
        match r {
            Ok(f) => spec_clause(cst@, fi as int, funcs_view(locals@), fuel as nat) == Ok::<
                FuncView,
                ErrView,
            >(f@),
            Err(e) => spec_clause(cst@, fi as int, funcs_view(locals@), fuel as nat) == Err::<
                FuncView,
                ErrView,
            >(e@),
        },
{
    let fe = cst.subtree_end(fi);
    let pats = capture(cst, fi + 1, fe, "patterns");
    if pats.len() != 1 {
        return Err(TransError::Structure(String::from_str("patterns")));
    }
    let pe = cst.subtree_end(pats[0]);
    let cons = capture(cst, pats[0] + 1, pe, "constructor");
    let vars = capture(cst, pats[0] + 1, pe, "variable");
    let prefix: String = if cons.len() == 1 {
        cst.nodes[cons[0]].text.clone()
    } else if cons.len() == 0 {
        let kids = children(cst, fi);
        match first_kind(cst, &kids, "variable") {
            Some(v) => cst.nodes[v].text.clone(),
            None => {
                return Err(TransError::Structure(String::from_str("function")));
            },
        }
    } else {
        return Err(TransError::Structure(String::from_str("constructor")));
    };
    let matches = capture(cst, fi + 1, fe, "match");
    if matches.len() != 1 {
        return Err(TransError::Structure(String::from_str("match")));
    }
    let mcs = children(cst, matches[0]);
    if mcs.len() < 2 {
        return Err(TransError::Structure(String::from_str("match")));
    }
    match parse_operation(cst, mcs[1], locals, fuel) {
        Err(e) => Err(e),
        Ok(op) => {
            let input = texts_of(cst, &vars);
            Ok(Func { con: FuncInput { prefix, input }, opp: op })
        },
    }
}

/// Whether the signature at position `si` declares the predicate: exactly two
/// type names, the first the ADT's name and the second boolean.
pub open spec fn spec_sig_ok(ns: Seq<CstNodeView>, si: int, adt_name: Seq<char>) -> Result<
    bool,
    ErrView,
> {
    let names = spec_capture(ns, si + 1, spec_end(ns, si), "name"@);
    if names.len() != 2 {
        Err(ErrView::Structure("signature"@))
    } else {
        Ok(ns[names[0]].text == adt_name && ns[names[1]].text == "Bool"@)
    }
}

/// The fold over one signature's clause group: every clause joins the local
/// bindings, and the clauses of the predicate's own group also join the
/// result list.
pub open spec fn spec_group_fold(
    ns: Seq<CstNodeView>,
    fidxs: Seq<int>,
    is_pred: bool,
    locals: Seq<FuncView>,
    preds: Seq<FuncView>,
    fuel: nat,
) -> Result<(Seq<FuncView>, Seq<FuncView>), ErrView>
    decreases fidxs.len(),
{
    if fidxs.len() == 0 {
        Ok((locals, preds))
    } else {
        match spec_group_fold(ns, fidxs.drop_last(), is_pred, locals, preds, fuel) {
            Err(e) => Err(e),
            Ok((lo2, pr2)) => match spec_clause(ns, fidxs.last(), lo2, fuel) {
                Err(e) => Err(e),
                Ok(f) => Ok(
                    (
                        lo2.push(f),
                        if is_pred {
                            pr2.push(f)
                        } else {
                            pr2
                        },
                    ),
                ),
            },
        }
    }
}

proof fn lemma_group_fold_err_extend(
    ns: Seq<CstNodeView>,
    fidxs: Seq<int>,
    is_pred: bool,
    locals: Seq<FuncView>,
    preds: Seq<FuncView>,
    fuel: nat,
    j: int,
)
    requires
        0 <= j <= fidxs.len(),
        spec_group_fold(ns, fidxs.subrange(0, j), is_pred, locals, preds, fuel) is Err,
    ensures
        spec_group_fold(ns, fidxs, is_pred, locals, preds, fuel) == spec_group_fold(
            ns,
            fidxs.subrange(0, j),
            is_pred,
            locals,
            preds,
            fuel,
        ),
    decreases fidxs.len() - j,
{
    if j == fidxs.len() {
        assert(fidxs.subrange(0, j) =~= fidxs);
    } else {
        assert(fidxs.subrange(0, j + 1).drop_last() =~= fidxs.subrange(0, j));
        lemma_group_fold_err_extend(ns, fidxs, is_pred, locals, preds, fuel, j + 1);
    }
}

/// The fold over the signatures: each signature's clause group is translated
/// in document order against the local bindings collected so far, and the
/// number of predicate signatures is counted.
pub open spec fn spec_sigs_fold(
    ns: Seq<CstNodeView>,
    sidxs: Seq<int>,
    adt_name: Seq<char>,
    locals: Seq<FuncView>,
    preds: Seq<FuncView>,
    npred: int,
    fuel: nat,
) -> Result<(Seq<FuncView>, Seq<FuncView>, int), ErrView>
    decreases sidxs.len(),
{
    if sidxs.len() == 0 {
        Ok((locals, preds, npred))
    } else {
        match spec_sigs_fold(ns, sidxs.drop_last(), adt_name, locals, preds, npred, fuel) {
            Err(e) => Err(e),
            Ok((lo2, pr2, np2)) => {
                let si = sidxs.last();
                match spec_sig_ok(ns, si, adt_name) {
                    Err(e) => Err(e),
                    Ok(is_pred) => {
                        let group = spec_siblings(ns, spec_end(ns, si), ns[si].depth, fuel);
                        match spec_group_fold(ns, group, is_pred, lo2, pr2, fuel) {
                            Err(e) => Err(e),
                            Ok((lo3, pr3)) => Ok(
                                (
                                    lo3,
                                    pr3,
                                    np2 + if is_pred {
                                        1int
                                    } else {
                                        0int
                                    },
                                ),
                            ),
                        }
                    },
                }
            },
        }
    }
}

proof fn lemma_sigs_fold_err_extend(
    ns: Seq<CstNodeView>,
    sidxs: Seq<int>,
    adt_name: Seq<char>,
    fuel: nat,
    j: int,
)
    requires
        0 <= j <= sidxs.len(),
        spec_sigs_fold(ns, sidxs.subrange(0, j), adt_name, Seq::empty(), Seq::empty(), 0, fuel)
            is Err,
    ensures
        spec_sigs_fold(ns, sidxs, adt_name, Seq::empty(), Seq::empty(), 0, fuel)
            == spec_sigs_fold(
            ns,
            sidxs.subrange(0, j),
            adt_name,
            Seq::empty(),
            Seq::empty(),
            0,
            fuel,
        ),
    decreases sidxs.len() - j,
{
    if j == sidxs.len() {
        assert(sidxs.subrange(0, j) =~= sidxs);
    } else {
        assert(sidxs.subrange(0, j + 1).drop_last() =~= sidxs.subrange(0, j));
        lemma_sigs_fold_err_extend(ns, sidxs, adt_name, fuel, j + 1);
    }
}

/// The predicate clauses recovered from the tree: the clause groups of every
/// signature are translated in document order, each clause joining the local
/// bindings available to later applications; exactly one signature must
/// declare the predicate (input the ADT's name, output boolean), and its
/// clauses are the result.
pub open spec fn spec_collect_haskell_functions(ns: Seq<CstNodeView>, adt_name: Seq<char>) -> Result<
    Seq<FuncView>,
    ErrView,
> {
    let sidxs = spec_capture(ns, 0, ns.len() as int, "signature"@);
    match spec_sigs_fold(ns, sidxs, adt_name, Seq::empty(), Seq::empty(), 0, ns.len() as nat) {
        Err(e) => Err(e),
        Ok((_lo, preds, np)) => if np == 1 {
            Ok(preds)
        } else {
            Err(ErrView::Structure("signature"@))
        },
    }
}

/// Recover the predicate's clauses: locate the one signature whose declared
/// input type is the ADT's name and whose output type is boolean, and
/// translate its clause group arm by arm. Clause groups of other signatures
/// are translated as local helper clauses, available to application inlining
/// in later clauses.
#[verifier::rlimit(100)]
pub fn collect_haskell_functions(cst: &Cst, name: &str) -> (r: Result<Vec<Func>, TransError>)
    ensures
        match r {
            Ok(fs) => spec_collect_haskell_functions(cst@, name@) == Ok::<Seq<FuncView>, ErrView>(
                funcs_view(fs@),
            ),
            Err(e) => spec_collect_haskell_functions(cst@, name@) == Err::<Seq<FuncView>, ErrView>(
                e@,
            ),
        },
{
    let ghost ns = cst@;
    let total = cst.len();
    let ghost fuel = total as nat;
    let sidxs = capture(cst, 0, total, "signature");
    let ghost siv = sidxs@.map_values(|u: usize| u as int);
    let mut locals: Vec<Func> = Vec::new();
    let mut preds: Vec<Func> = Vec::new();
    let mut npred: usize = 0;
    let mut s: usize = 0;
    proof {
        assert(siv.subrange(0, 0) =~= Seq::<int>::empty());
        assert(funcs_view(locals@) =~= Seq::<FuncView>::empty());
        assert(funcs_view(preds@) =~= Seq::<FuncView>::empty());
    }
    while s < sidxs.len()
        invariant
            s <= sidxs.len(),
            ns == cst@,
            fuel == cst@.len() as nat,
            total == cst@.len(),
            siv == sidxs@.map_values(|u: usize| u as int),
            siv.len() == sidxs@.len(),
            siv == spec_capture(ns, 0, ns.len() as int, "signature"@),
            forall|m: int| 0 <= m < sidxs@.len() ==> #[trigger] sidxs@[m] < cst@.len(),
            forall|m: int| 0 <= m < sidxs@.len() ==> siv[m] == sidxs@[m] as int,
            npred <= s,
            spec_sigs_fold(ns, siv.subrange(0, s as int), name@, Seq::empty(), Seq::empty(), 0, fuel)
                == Ok::<(Seq<FuncView>, Seq<FuncView>, int), ErrView>(
                (funcs_view(locals@), funcs_view(preds@), npred as int),
            ),
        decreases sidxs.len() - s,
    {
        proof {
            assert(siv.subrange(0, s + 1 as int).drop_last() =~= siv.subrange(0, s as int));
            assert(siv.subrange(0, s + 1 as int).last() == siv[s as int]);
        }
        let si = sidxs[s];
        let send = cst.subtree_end(si);
        let names = capture(cst, si + 1, send, "name");
        if names.len() != 2 {
            proof {
                lemma_sigs_fold_err_extend(ns, siv, name@, fuel, s + 1);
            }
            return Err(TransError::Structure(String::from_str("signature")));
        }
        let is_pred = str_eq(cst.nodes[names[0]].text.as_str(), name) && str_eq(
            cst.nodes[names[1]].text.as_str(),
            "Bool",
        );
        let group = siblings(cst, send, cst.nodes[si].depth, total);
        let ghost gv = group@.map_values(|u: usize| u as int);
        let ghost locals0 = funcs_view(locals@);
        let ghost preds0 = funcs_view(preds@);
        let mut t: usize = 0;
        proof {
            assert(gv.subrange(0, 0) =~= Seq::<int>::empty());
        }
        while t < group.len()
            invariant
                t <= group.len(),
                ns == cst@,
                fuel == cst@.len() as nat,
                total == cst@.len(),
                gv == group@.map_values(|u: usize| u as int),
                gv.len() == group@.len(),
                forall|m: int| 0 <= m < group@.len() ==> #[trigger] group@[m] < cst@.len(),
                forall|m: int| 0 <= m < group@.len() ==> gv[m] == group@[m] as int,
                s < sidxs@.len(),
                siv == sidxs@.map_values(|u: usize| u as int),
                siv.len() == sidxs@.len(),
                siv == spec_capture(ns, 0, ns.len() as int, "signature"@),
                si == sidxs@[s as int],
                si < cst@.len(),
                npred <= s,
                spec_sigs_fold(
                    ns,
                    siv.subrange(0, s as int),
                    name@,
                    Seq::empty(),
                    Seq::empty(),
                    0,
                    fuel,
                ) == Ok::<(Seq<FuncView>, Seq<FuncView>, int), ErrView>(
                    (locals0, preds0, npred as int),
                ),
                spec_sig_ok(ns, si as int, name@) == Ok::<bool, ErrView>(is_pred),
                gv == spec_siblings(ns, spec_end(ns, si as int), ns[si as int].depth, fuel),
                spec_group_fold(ns, gv.subrange(0, t as int), is_pred, locals0, preds0, fuel)
                    == Ok::<(Seq<FuncView>, Seq<FuncView>), ErrView>(
                    (funcs_view(locals@), funcs_view(preds@)),
                ),
            decreases group.len() - t,
        {
            proof {
                assert(gv.subrange(0, t + 1 as int).drop_last() =~= gv.subrange(0, t as int));
                assert(gv.subrange(0, t + 1 as int).last() == gv[t as int]);
            }
            match parse_clause(cst, group[t], &locals, total) {
                Err(e) => {
                    proof {
                        lemma_group_fold_err_extend(ns, gv, is_pred, locals0, preds0, fuel, t + 1);
                        assert(siv.subrange(0, s + 1 as int).drop_last() =~= siv.subrange(
                            0,
                            s as int,
                        ));
                        assert(siv.subrange(0, s + 1 as int).last() == siv[s as int]);
                        lemma_sigs_fold_err_extend(ns, siv, name@, fuel, s + 1);
                    }
                    return Err(e);
                },
                Ok(f) => {
                    if is_pred {
                        let g = f.dup();
                        locals.push(f);
                        preds.push(g);
                        proof {
                            assert(funcs_view(locals@) =~= spec_group_fold(
                                ns,
                                gv.subrange(0, t as int),
                                is_pred,
                                locals0,
                                preds0,
                                fuel,
                            )->Ok_0.0.push(locals@.last()@));
                            assert(funcs_view(preds@) =~= spec_group_fold(
                                ns,
                                gv.subrange(0, t as int),
                                is_pred,
                                locals0,
                                preds0,
                                fuel,
                            )->Ok_0.1.push(preds@.last()@));
                            assert(preds@.last()@ == locals@.last()@);
                        }
                    } else {
                        locals.push(f);
                        proof {
                            assert(funcs_view(locals@) =~= spec_group_fold(
                                ns,
                                gv.subrange(0, t as int),
                                is_pred,
                                locals0,
                                preds0,
                                fuel,
                            )->Ok_0.0.push(locals@.last()@));
                            assert(funcs_view(preds@) =~= spec_group_fold(
                                ns,
                                gv.subrange(0, t as int),
                                is_pred,
                                locals0,
                                preds0,
                                fuel,
                            )->Ok_0.1);
                        }
                    }
                },
            }
            t = t + 1;
        }
        proof {
            assert(gv.subrange(0, group@.len() as int) =~= gv);
        }
        if is_pred {
            npred = npred + 1;
        }
        s = s + 1;
    }
    proof {
        assert(siv.subrange(0, sidxs@.len() as int) =~= siv);
    }
    if npred == 1 {
        Ok(preds)
    } else {
        Err(TransError::Structure(String::from_str("signature")))
    }
}

} // verus!
