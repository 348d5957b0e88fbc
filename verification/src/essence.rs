//! The constraint encoder: compiles a normalized `(Adt, [Func])` pair into a
//! textual constraint specification whose satisfying assignments correspond
//! exactly to ADT values for which the predicate holds.
//!
//! Encoding scheme (tag-and-zero): one solver variable per
//! `(constructor, field)` pair named `prefix_index` (indices 1-based, in
//! declaration order), one `tag` variable ranging over the constructor
//! positions, and one disjunct per clause that conjoins the translated clause
//! body, `tag = <clause's constructor position>`, and a fixed default for
//! every field of every other constructor.

use crate::adt::{
    funcs_view, Adt, AdtView, BinOp, Cons, ConsView, Func, FuncInput, FuncInputView, FuncView,
    OpView, Operation, Type,
};
use crate::error::{ErrView, TransError};
use crate::strings::{i32_to_string, spec_int_str, spec_udigits, str_eq, usize_to_string};
use vstd::prelude::*;

verus! {

/// The domain of one solver variable.
#[derive(Debug, Clone, Copy, PartialEq, Eq, Structural)]
pub enum Domain {
    /// A bounded integer domain `int(min..max)`.
    IntRange(i32, i32),
    /// The boolean domain.
    Bool,
}

/// One `find` declaration: the solver variable `prefix_index` and its domain.
#[derive(Debug, Clone, PartialEq, Eq)]
pub struct FindDecl {
    pub prefix: String,
    pub index: usize,
    pub domain: Domain,
}

/// The mathematical value of a `find` declaration.
pub struct FindDeclView {
    pub prefix: Seq<char>,
    pub index: int,
    pub domain: Domain,
}

impl View for FindDecl {
    type V = FindDeclView;

    open spec fn view(&self) -> FindDeclView {
        FindDeclView { prefix: self.prefix@, index: self.index as int, domain: self.domain }
    }
}

/// One zeroing term of a disjunct: the field variable `prefix_index` of an
/// inactive constructor, fixed to its default (the domain minimum for an
/// integer field, false for a boolean one).
#[derive(Debug, Clone, PartialEq, Eq)]
pub struct ZeroTerm {
    pub prefix: String,
    pub index: usize,
    pub ty: Type,
    pub min: i32,
}

/// The mathematical value of a zeroing term.
pub struct ZeroTermView {
    pub prefix: Seq<char>,
    pub index: int,
    pub ty: Type,
    pub min: i32,
}

impl View for ZeroTerm {
    type V = ZeroTermView;

    open spec fn view(&self) -> ZeroTermView {
        ZeroTermView {
            prefix: self.prefix@,
            index: self.index as int,
            ty: self.ty,
            min: self.min,
        }
    }
}

/// The mathematical values of a zeroing-term list.
pub open spec fn zeros_view(zs: Seq<ZeroTerm>) -> Seq<ZeroTermView> {
    zs.map_values(|z: ZeroTerm| z@)
}

/// One disjunct of the overall formula: the translated clause body, the tag
/// value selecting the clause's constructor, and the zeroing terms for every
/// other constructor's fields.
#[derive(Debug, Clone, PartialEq, Eq)]
pub struct Disjunct {
    pub body: String,
    pub tag: usize,
    pub zeros: Vec<ZeroTerm>,
}

/// The mathematical value of a disjunct.
pub struct DisjunctView {
    pub body: Seq<char>,
    pub tag: int,
    pub zeros: Seq<ZeroTermView>,
}

impl View for Disjunct {
    type V = DisjunctView;

    open spec fn view(&self) -> DisjunctView {
        DisjunctView { body: self.body@, tag: self.tag as int, zeros: zeros_view(self.zeros@) }
    }
}

/// A complete constraint specification in structured form: the field variable
/// declarations, the size of the tag domain, and one disjunct per clause.
#[derive(Debug, Clone, PartialEq, Eq)]
pub struct EssenceSpec {
    pub finds: Vec<FindDecl>,
    pub tag_count: usize,
    pub disjuncts: Vec<Disjunct>,
}

/// The mathematical value of a constraint specification.
pub struct EssenceSpecView {
    pub finds: Seq<FindDeclView>,
    pub tag_count: int,
    pub disjuncts: Seq<DisjunctView>,
}

impl View for EssenceSpec {
    type V = EssenceSpecView;

    open spec fn view(&self) -> EssenceSpecView {
        EssenceSpecView {
            finds: self.finds@.map_values(|f: FindDecl| f@),
            tag_count: self.tag_count as int,
            disjuncts: self.disjuncts@.map_values(|d: Disjunct| d@),
        }
    }
}

/// The first position of `name` in a list of names, if any.
pub open spec fn spec_first_pos(s: Seq<Seq<char>>, name: Seq<char>) -> Option<int>
    decreases s.len(),
{
    if s.len() == 0 {
        None
    } else {
        match spec_first_pos(s.drop_last(), name) {
            Some(k) => Some(k),
            None => if s.last() == name {
                Some(s.len() - 1)
            } else {
                None
            },
        }
    }
}

/// The constructor tag names of an Adt, in declaration order.
pub open spec fn spec_prefixes(cs: Seq<ConsView>) -> Seq<Seq<char>> {
    cs.map_values(|c: ConsView| c.prefix)
}

/// The 0-based declaration position of the constructor named `p`, if any.
pub open spec fn spec_cons_pos(cs: Seq<ConsView>, p: Seq<char>) -> Option<int> {
    spec_first_pos(spec_prefixes(cs), p)
}

proof fn lemma_first_pos_found(s: Seq<Seq<char>>, name: Seq<char>, j: int)
    requires
        0 <= j <= s.len(),
        spec_first_pos(s.subrange(0, j), name) is Some,
    ensures
        spec_first_pos(s, name) == spec_first_pos(s.subrange(0, j), name),
    decreases s.len() - j,
{
    if j == s.len() {
        assert(s.subrange(0, j) =~= s);
    } else {
        assert(s.subrange(0, j + 1).drop_last() =~= s.subrange(0, j));
        lemma_first_pos_found(s, name, j + 1);
    }
}

proof fn lemma_first_pos_bound(s: Seq<Seq<char>>, name: Seq<char>)
    ensures
        spec_first_pos(s, name) matches Some(k) ==> 0 <= k < s.len() && s[k] == name,
        spec_first_pos(s, name) is None ==> forall|k: int| 0 <= k < s.len() ==> s[k] != name,
    decreases s.len(),
{
    if s.len() > 0 {
        lemma_first_pos_bound(s.drop_last(), name);
        assert(forall|k: int| 0 <= k < s.len() - 1 ==> s[k] == s.drop_last()[k]);
    }
}

/// The first position of `name` among a clause's bound variable names.
fn first_pos(input: &Vec<String>, name: &str) -> (r: Option<usize>)
    ensures
        match r {
            Some(k) => k < input@.len() && spec_first_pos(
                input@.map_values(|s: String| s@),
                name@,
            ) == Some(k as int),
            None => spec_first_pos(input@.map_values(|s: String| s@), name@) is None,
        },
{
    let ghost sv = input@.map_values(|s: String| s@);
    let mut i: usize = 0;
    while i < input.len()
        invariant
            i <= input.len(),
            sv == input@.map_values(|s: String| s@),
            sv.len() == input@.len(),
            spec_first_pos(sv.subrange(0, i as int), name@) is None,
        decreases input.len() - i,
    {
        proof {
            assert(sv.subrange(0, i + 1 as int).drop_last() =~= sv.subrange(0, i as int));
            assert(sv.subrange(0, i + 1 as int).last() == sv[i as int]);
        }
        if str_eq(input[i].as_str(), name) {
            proof {
                assert(spec_first_pos(sv.subrange(0, i + 1 as int), name@) == Some(i as int));
                lemma_first_pos_found(sv, name@, i + 1);
            }
            return Some(i);
        }
        i = i + 1;
    }
    proof {
        assert(sv.subrange(0, input@.len() as int) =~= sv);
    }
    None
}

/// The 0-based declaration position of the constructor named `p`, if any.
fn cons_pos(constructors: &Vec<Cons>, p: &str) -> (r: Option<usize>)
    ensures
        match r {
            Some(k) => k < constructors@.len() && spec_cons_pos(
                constructors@.map_values(|c: Cons| c@),
                p@,
            ) == Some(k as int),
            None => spec_cons_pos(constructors@.map_values(|c: Cons| c@), p@) is None,
        },
{
    let ghost cv = constructors@.map_values(|c: Cons| c@);
    let ghost sv = spec_prefixes(cv);
    let mut i: usize = 0;
    while i < constructors.len()
        invariant
            i <= constructors.len(),
            cv == constructors@.map_values(|c: Cons| c@),
            sv == spec_prefixes(cv),
            sv.len() == constructors@.len(),
            forall|k: int| 0 <= k < constructors@.len() ==> sv[k] == constructors@[k].prefix@,
            spec_first_pos(sv.subrange(0, i as int), p@) is None,
        decreases constructors.len() - i,
    {
        proof {
            assert(sv.subrange(0, i + 1 as int).drop_last() =~= sv.subrange(0, i as int));
            assert(sv.subrange(0, i + 1 as int).last() == sv[i as int]);
        }
        if str_eq(constructors[i].prefix.as_str(), p) {
            proof {
                assert(spec_first_pos(sv.subrange(0, i + 1 as int), p@) == Some(i as int));
                lemma_first_pos_found(sv, p@, i + 1);
            }
            return Some(i);
        }
        i = i + 1;
    }
    proof {
        assert(sv.subrange(0, constructors@.len() as int) =~= sv);
    }
    None
}

/// The generated solver variable name `prefix_index`.
pub open spec fn spec_var_name(prefix: Seq<char>, index: int) -> Seq<char> {
    prefix + "_"@ + spec_udigits(index as nat)
}

/// Build the generated solver variable name `prefix_index`.
pub fn var_name(prefix: &str, index: usize) -> (r: String)
    ensures
        r@ == spec_var_name(prefix@, index as int),
{
    let mut out = String::from_str(prefix);
    out.append("_");
    let digits = usize_to_string(index);
    out.append(digits.as_str());
    out
}

/// The solver spelling of a binary operator, with surrounding spaces.
pub open spec fn spec_spelling(b: BinOp) -> Seq<char> {
    match b {
        BinOp::And => " /\\ "@,
        BinOp::Or => " \\/ "@,
        BinOp::Gt => " > "@,
        BinOp::Lt => " < "@,
        BinOp::Eq => " = "@,
        BinOp::Neq => " != "@,
        BinOp::Leq => " <= "@,
        BinOp::Geq => " >= "@,
        BinOp::Add => " + "@,
        BinOp::Sub => " - "@,
        BinOp::Mul => " * "@,
    }
}

/// The combination of two translated children around an operator spelling;
/// a failure on either side propagates, the left one first.
pub open spec fn spec_combine(
    l: Result<Seq<char>, ErrView>,
    sep: Seq<char>,
    r: Result<Seq<char>, ErrView>,
) -> Result<Seq<char>, ErrView> {
    match l {
        Err(e) => Err(e),
        Ok(ls) => match r {
            Err(e) => Err(e),
            Ok(rs) => Ok(ls + sep + rs),
        },
    }
}

/// The translation of a clause body to solver text: every variable reference
/// resolves to `prefix_i` where `i` is the 1-based position of the name in
/// the clause's bound-input list; literals and operators translate
/// structurally. A name with no binding is an unresolved-name failure.
pub open spec fn spec_convert(v: OpView, con: FuncInputView) -> Result<Seq<char>, ErrView>
    decreases v,
{
    match v {
        OpView::BoolLit(b) => Ok(
            if b {
                "true"@
            } else {
                "false"@
            },
        ),
        OpView::IntLit(i) => Ok(spec_int_str(i)),
        OpView::Var(n) => match spec_first_pos(con.input, n) {
            Some(k) => Ok(spec_var_name(con.prefix, k + 1)),
            None => Err(ErrView::UnresolvedName(n)),
        },
        OpView::Not(o) => match spec_convert(*o, con) {
            Ok(s) => Ok("!("@ + s + ")"@),
            Err(e) => Err(e),
        },
        OpView::And(l, r) => spec_combine(
            spec_convert(*l, con),
            spec_spelling(BinOp::And),
            spec_convert(*r, con),
        ),
        OpView::Or(l, r) => spec_combine(
            spec_convert(*l, con),
            spec_spelling(BinOp::Or),
            spec_convert(*r, con),
        ),
        OpView::Gt(l, r) => spec_combine(
            spec_convert(*l, con),
            spec_spelling(BinOp::Gt),
            spec_convert(*r, con),
        ),
        OpView::Lt(l, r) => spec_combine(
            spec_convert(*l, con),
            spec_spelling(BinOp::Lt),
            spec_convert(*r, con),
        ),
        OpView::Eq(l, r) => spec_combine(
            spec_convert(*l, con),
            spec_spelling(BinOp::Eq),
            spec_convert(*r, con),
        ),
        OpView::Neq(l, r) => spec_combine(
            spec_convert(*l, con),
            spec_spelling(BinOp::Neq),
            spec_convert(*r, con),
        ),
        OpView::Leq(l, r) => spec_combine(
            spec_convert(*l, con),
            spec_spelling(BinOp::Leq),
            spec_convert(*r, con),
        ),
        OpView::Geq(l, r) => spec_combine(
            spec_convert(*l, con),
            spec_spelling(BinOp::Geq),
            spec_convert(*r, con),
        ),
        OpView::Add(l, r) => spec_combine(
            spec_convert(*l, con),
            spec_spelling(BinOp::Add),
            spec_convert(*r, con),
        ),
        OpView::Sub(l, r) => spec_combine(
            spec_convert(*l, con),
            spec_spelling(BinOp::Sub),
            spec_convert(*r, con),
        ),
        OpView::Mul(l, r) => spec_combine(
            spec_convert(*l, con),
            spec_spelling(BinOp::Mul),
            spec_convert(*r, con),
        ),
    }
}

/// Combine two translated children around an operator spelling.
fn combine(l: Result<String, TransError>, sep: &str, r: Result<String, TransError>) -> (out:
    Result<String, TransError>)
    ensures
        match out {
            Ok(s) => spec_combine(res_view(l), sep@, res_view(r)) == Ok::<Seq<char>, ErrView>(s@),
            Err(e) => spec_combine(res_view(l), sep@, res_view(r)) == Err::<Seq<char>, ErrView>(
                e@,
            ),
        },
{
    match l {
        Err(e) => Err(e),
        Ok(ls) => match r {
            Err(e) => Err(e),
            Ok(rs) => {
                let mut out = ls;
                out.append(sep);
                out.append(rs.as_str());
                Ok(out)
            },
        },
    }
}

/// The mathematical value of a translation result.
pub open spec fn res_view(r: Result<String, TransError>) -> Result<Seq<char>, ErrView> {
    match r {
        Ok(s) => Ok(s@),
        Err(e) => Err(e@),
    }
}

/// Translate a clause body to solver text, resolving each variable reference
/// to `prefix_i` by its 1-based position in the clause's bound-input list.
pub fn convert_variables(op: &Operation, con: &FuncInput) -> (r: Result<String, TransError>)
    ensures
        res_view(r) == spec_convert(op@, con@),
    decreases op,
{
    match op {
        Operation::BoolLit(b) => {
            if *b {
                Ok(String::from_str("true"))
            } else {
                Ok(String::from_str("false"))
            }
        },
        Operation::IntLit(i) => Ok(i32_to_string(*i)),
        Operation::Var(n) => {
            let _bound = con.input.len();
            match first_pos(&con.input, n.as_str()) {
                Some(k) => Ok(var_name(con.prefix.as_str(), k + 1)),
                None => Err(TransError::UnresolvedName(n.clone())),
            }
        },
        Operation::Not(o) => {
            match convert_variables(o, con) {
                Ok(s) => {
                    let mut out = String::from_str("!(");
                    out.append(s.as_str());
                    out.append(")");
                    Ok(out)
                },
                Err(e) => Err(e),
            }
        },
        Operation::And(l, r) => combine(
            convert_variables(l, con),
            " /\\ ",
            convert_variables(r, con),
        ),
        Operation::Or(l, r) => combine(
            convert_variables(l, con),
            " \\/ ",
            convert_variables(r, con),
        ),
        Operation::Gt(l, r) => combine(convert_variables(l, con), " > ", convert_variables(r, con)),
        Operation::Lt(l, r) => combine(convert_variables(l, con), " < ", convert_variables(r, con)),
        Operation::Eq(l, r) => combine(convert_variables(l, con), " = ", convert_variables(r, con)),
        Operation::Neq(l, r) => combine(
            convert_variables(l, con),
            " != ",
            convert_variables(r, con),
        ),
        Operation::Leq(l, r) => combine(
            convert_variables(l, con),
            " <= ",
            convert_variables(r, con),
        ),
        Operation::Geq(l, r) => combine(
            convert_variables(l, con),
            " >= ",
            convert_variables(r, con),
        ),
        Operation::Add(l, r) => combine(
            convert_variables(l, con),
            " + ",
            convert_variables(r, con),
        ),
        Operation::Sub(l, r) => combine(
            convert_variables(l, con),
            " - ",
            convert_variables(r, con),
        ),
        Operation::Mul(l, r) => combine(
            convert_variables(l, con),
            " * ",
            convert_variables(r, con),
        ),
    }
}

/// The zeroing terms contributed by one inactive constructor: each of its
/// fields fixed to the default of its type.
pub open spec fn spec_cons_zeros(c: ConsView, min: i32) -> Seq<ZeroTermView> {
    Seq::new(
        c.types.len(),
        |j: int| ZeroTermView { prefix: c.prefix, index: j + 1, ty: c.types[j], min },
    )
}

/// The zeroing terms of a disjunct whose active constructor is `active`: one
/// term per field of every other constructor, in declaration order.
pub open spec fn spec_zero_terms(cs: Seq<ConsView>, active: Seq<char>, min: i32) -> Seq<
    ZeroTermView,
>
    decreases cs.len(),
{
    if cs.len() == 0 {
        Seq::empty()
    } else {
        spec_zero_terms(cs.drop_last(), active, min) + (if cs.last().prefix == active {
            Seq::empty()
        } else {
            spec_cons_zeros(cs.last(), min)
        })
    }
}

/// Build the zeroing terms for a disjunct whose active constructor is
/// `active`.
fn zero_terms(constructors: &Vec<Cons>, active: &str, min: i32) -> (r: Vec<ZeroTerm>)
    ensures
        zeros_view(r@) == spec_zero_terms(
            constructors@.map_values(|c: Cons| c@),
            active@,
            min,
        ),
{
    let ghost cv = constructors@.map_values(|c: Cons| c@);
    let mut out: Vec<ZeroTerm> = Vec::new();
    let mut i: usize = 0;
    while i < constructors.len()
        invariant
            i <= constructors.len(),
            cv == constructors@.map_values(|c: Cons| c@),
            cv.len() == constructors@.len(),
            forall|k: int| 0 <= k < constructors@.len() ==> cv[k] == constructors@[k]@,
            zeros_view(out@) == spec_zero_terms(cv.subrange(0, i as int), active@, min),
        decreases constructors.len() - i,
    {
        proof {
            assert(cv.subrange(0, i + 1 as int).drop_last() =~= cv.subrange(0, i as int));
            assert(cv.subrange(0, i + 1 as int).last() == cv[i as int]);
        }
        let c = &constructors[i];
        if !str_eq(c.prefix.as_str(), active) {
            let ghost before = zeros_view(out@);
            let mut j: usize = 0;
            while j < c.types.len()
                invariant
                    j <= c.types@.len(),
                    c@ == cv[i as int],
                    i < cv.len(),
                    before == spec_zero_terms(cv.subrange(0, i as int), active@, min),
                    zeros_view(out@) == before + spec_cons_zeros(cv[i as int], min).subrange(
                        0,
                        j as int,
                    ),
                decreases c.types.len() - j,
            {
                let z = ZeroTerm {
                    prefix: c.prefix.clone(),
                    index: j + 1,
                    ty: c.types[j],
                    min,
                };
                out.push(z);
                proof {
                    let scz = spec_cons_zeros(cv[i as int], min);
                    assert(z@ == scz[j as int]);
                    assert(zeros_view(out@) =~= (before + scz.subrange(0, j as int)).push(
                        z@,
                    ));
                    assert((before + scz.subrange(0, j as int)).push(z@) =~= before + scz.subrange(
                        0,
                        j + 1 as int,
                    ));
                }
                j = j + 1;
            }
            proof {
                assert(spec_cons_zeros(cv[i as int], min).subrange(
                    0,
                    c.types@.len() as int,
                ) =~= spec_cons_zeros(cv[i as int], min));
                assert(zeros_view(out@) =~= spec_zero_terms(
                    cv.subrange(0, i + 1 as int),
                    active@,
                    min,
                ));
            }
        } else {
            proof {
                assert(zeros_view(out@) =~= spec_zero_terms(
                    cv.subrange(0, i + 1 as int),
                    active@,
                    min,
                ));
            }
        }
        i = i + 1;
    }
    proof {
        assert(cv.subrange(0, constructors@.len() as int) =~= cv);
    }
    out
}

/// The `find` declarations contributed by one constructor: one solver
/// variable per field, 1-based, with the domain given by the field type.
pub open spec fn spec_cons_finds(c: ConsView, min: i32, max: i32) -> Seq<FindDeclView> {
    Seq::new(
        c.types.len(),
        |j: int| FindDeclView {
            prefix: c.prefix,
            index: j + 1,
            domain: match c.types[j] {
                Type::Int => Domain::IntRange(min, max),
                Type::Bool => Domain::Bool,
            },
        },
    )
}

/// The `find` declarations of the whole specification, in declaration order.
pub open spec fn spec_find_decls(cs: Seq<ConsView>, min: i32, max: i32) -> Seq<FindDeclView>
    decreases cs.len(),
{
    if cs.len() == 0 {
        Seq::empty()
    } else {
        spec_find_decls(cs.drop_last(), min, max) + spec_cons_finds(cs.last(), min, max)
    }
}

/// Build the `find` declarations for every field variable of the Adt.
fn find_decls(constructors: &Vec<Cons>, min: i32, max: i32) -> (r: Vec<FindDecl>)
    ensures
        r@.map_values(|f: FindDecl| f@) == spec_find_decls(
            constructors@.map_values(|c: Cons| c@),
            min,
            max,
        ),
{
    let ghost cv = constructors@.map_values(|c: Cons| c@);
    let mut out: Vec<FindDecl> = Vec::new();
    let mut i: usize = 0;
    while i < constructors.len()
        invariant
            i <= constructors.len(),
            cv == constructors@.map_values(|c: Cons| c@),
            cv.len() == constructors@.len(),
            forall|k: int| 0 <= k < constructors@.len() ==> cv[k] == constructors@[k]@,
            out@.map_values(|f: FindDecl| f@) == spec_find_decls(
                cv.subrange(0, i as int),
                min,
                max,
            ),
        decreases constructors.len() - i,
    {
        proof {
            assert(cv.subrange(0, i + 1 as int).drop_last() =~= cv.subrange(0, i as int));
            assert(cv.subrange(0, i + 1 as int).last() == cv[i as int]);
        }
        let c = &constructors[i];
        let ghost before = out@.map_values(|f: FindDecl| f@);
        let mut j: usize = 0;
        while j < c.types.len()
            invariant
                j <= c.types@.len(),
                c@ == cv[i as int],
                i < cv.len(),
                before == spec_find_decls(cv.subrange(0, i as int), min, max),
                out@.map_values(|f: FindDecl| f@) == before + spec_cons_finds(
                    cv[i as int],
                    min,
                    max,
                ).subrange(0, j as int),
            decreases c.types.len() - j,
        {
            let d = FindDecl {
                prefix: c.prefix.clone(),
                index: j + 1,
                domain: match c.types[j] {
                    Type::Int => Domain::IntRange(min, max),
                    Type::Bool => Domain::Bool,
                },
            };
            out.push(d);
            proof {
                let scf = spec_cons_finds(cv[i as int], min, max);
                assert(d@ == scf[j as int]);
                assert(out@.map_values(|f: FindDecl| f@) =~= (before + scf.subrange(
                    0,
                    j as int,
                )).push(d@));
                assert((before + scf.subrange(0, j as int)).push(d@) =~= before + scf.subrange(
                    0,
                    j + 1 as int,
                ));
            }
            j = j + 1;
        }
        proof {
            assert(spec_cons_finds(cv[i as int], min, max).subrange(
                0,
                c.types@.len() as int,
            ) =~= spec_cons_finds(cv[i as int], min, max));
            assert(out@.map_values(|f: FindDecl| f@) =~= spec_find_decls(
                cv.subrange(0, i + 1 as int),
                min,
                max,
            ));
        }
        i = i + 1;
    }
    proof {
        assert(cv.subrange(0, constructors@.len() as int) =~= cv);
    }
    out
}

/// The disjuncts of the specification, one per clause in order: the clause
/// body translated, `tag` fixed to the clause's constructor position
/// (1-based, declaration order), and the zeroing terms of the other
/// constructors. A clause naming a constructor absent from the Adt is an
/// unknown-constructor failure; the first failing clause decides the error.
pub open spec fn spec_disjuncts(adt: AdtView, fs: Seq<FuncView>, min: i32) -> Result<
    Seq<DisjunctView>,
    ErrView,
>
    decreases fs.len(),
{
    if fs.len() == 0 {
        Ok(Seq::empty())
    } else {
        match spec_disjuncts(adt, fs.drop_last(), min) {
            Err(e) => Err(e),
            Ok(ds) => {
                let f = fs.last();
                match spec_cons_pos(adt.constructors, f.con.prefix) {
                    None => Err(ErrView::UnknownConstructor(f.con.prefix)),
                    Some(k) => match spec_convert(f.opp, f.con) {
                        Err(e) => Err(e),
                        Ok(body) => Ok(
                            ds.push(
                                DisjunctView {
                                    body,
                                    tag: k + 1,
                                    zeros: spec_zero_terms(adt.constructors, f.con.prefix, min),
                                },
                            ),
                        ),
                    },
                }
            },
        }
    }
}

/// The structured encoding of `(Adt, [Func])`: the field declarations, the
/// tag domain size (the number of constructors), and one disjunct per clause.
pub open spec fn spec_encode(adt: AdtView, fs: Seq<FuncView>, min: i32, max: i32) -> Result<
    EssenceSpecView,
    ErrView,
> {
    match spec_disjuncts(adt, fs, min) {
        Err(e) => Err(e),
        Ok(ds) => Ok(
            EssenceSpecView {
                finds: spec_find_decls(adt.constructors, min, max),
                tag_count: adt.constructors.len() as int,
                disjuncts: ds,
            },
        ),
    }
}

proof fn lemma_disjuncts_err_extend(adt: AdtView, fs: Seq<FuncView>, min: i32, j: int)
    requires
        0 <= j <= fs.len(),
        spec_disjuncts(adt, fs.subrange(0, j), min) is Err,
    ensures
        spec_disjuncts(adt, fs, min) == spec_disjuncts(adt, fs.subrange(0, j), min),
    decreases fs.len() - j,
{
    if j == fs.len() {
        assert(fs.subrange(0, j) =~= fs);
    } else {
        assert(fs.subrange(0, j + 1).drop_last() =~= fs.subrange(0, j));
        lemma_disjuncts_err_extend(adt, fs, min, j + 1);
    }
}

/// Compile `(Adt, [Func])` into a structured constraint specification.
/// Every clause must name a constructor of the Adt and every variable
/// reference must resolve in its clause's bound-input list; the first
/// failure, in clause order, is the result. Constructor tag names are unique
/// within an Adt (the frontends enforce that model invariant); on an Adt
/// that violates it, the contract pins the behaviour: a clause resolves to
/// the first constructor of its name, and only the fields of constructors
/// with other names are zeroed.
#[verifier::rlimit(50)]
pub fn encode(adt: &Adt, funcs: &Vec<Func>, min: i32, max: i32) -> (r: Result<
    EssenceSpec,
    TransError,
>)
    ensures
        match r {
            Ok(s) => spec_encode(adt@, funcs_view(funcs@), min, max) == Ok::<
                EssenceSpecView,
                ErrView,
            >(s@),
            Err(e) => spec_encode(adt@, funcs_view(funcs@), min, max) == Err::<
                EssenceSpecView,
                ErrView,
            >(e@),
        },
{
    let ghost fv = funcs_view(funcs@);
    let finds = find_decls(&adt.constructors, min, max);
    let mut disjuncts: Vec<Disjunct> = Vec::new();
    proof {
        assert(fv.subrange(0, 0) =~= Seq::<FuncView>::empty());
        assert(disjuncts@.map_values(|d: Disjunct| d@) =~= Seq::<DisjunctView>::empty());
    }
    let mut i: usize = 0;
    while i < funcs.len()
        invariant
            i <= funcs.len(),
            fv == funcs_view(funcs@),
            fv.len() == funcs@.len(),
            forall|k: int| 0 <= k < funcs@.len() ==> fv[k] == funcs@[k]@,
            spec_disjuncts(adt@, fv.subrange(0, i as int), min) == Ok::<Seq<DisjunctView>, ErrView>(
                disjuncts@.map_values(|d: Disjunct| d@),
            ),
        decreases funcs.len() - i,
    {
        proof {
            assert(fv.subrange(0, i + 1 as int).drop_last() =~= fv.subrange(0, i as int));
            assert(fv.subrange(0, i + 1 as int).last() == fv[i as int]);
        }
        let f = &funcs[i];
        let _bound = adt.constructors.len();
        match cons_pos(&adt.constructors, f.con.prefix.as_str()) {
            None => {
                proof {
                    lemma_disjuncts_err_extend(adt@, fv, min, i + 1);
                }
                return Err(TransError::UnknownConstructor(f.con.prefix.clone()));
            },
            Some(k) => {
                match convert_variables(&f.opp, &f.con) {
                    Err(e) => {
                        proof {
                            lemma_disjuncts_err_extend(adt@, fv, min, i + 1);
                        }
                        return Err(e);
                    },
                    Ok(body) => {
                        let zeros = zero_terms(&adt.constructors, f.con.prefix.as_str(), min);
                        let d = Disjunct { body, tag: k + 1, zeros };
                        disjuncts.push(d);
                        proof {
                            assert(disjuncts@.map_values(|x: Disjunct| x@) =~= spec_disjuncts(
                                adt@,
                                fv.subrange(0, i as int),
                                min,
                            )->Ok_0.push(d@));
                        }
                    },
                }
            },
        }
        i = i + 1;
    }
    proof {
        assert(fv.subrange(0, funcs@.len() as int) =~= fv);
    }
    Ok(EssenceSpec { finds, tag_count: adt.constructors.len(), disjuncts })
}

/// The rendering of a variable domain.
pub open spec fn spec_domain_text(d: Domain) -> Seq<char> {
    match d {
        Domain::Bool => "bool"@,
        Domain::IntRange(a, b) => "int("@ + spec_int_str(a as int) + ".."@ + spec_int_str(b as int)
            + ")"@,
    }
}

/// The rendering of one `find` declaration, ending in a newline.
pub open spec fn spec_find_text(f: FindDeclView) -> Seq<char> {
    "find "@ + spec_var_name(f.prefix, f.index) + " : "@ + spec_domain_text(f.domain) + "\n"@
}

/// The rendering of a list of `find` declarations, in order.
pub open spec fn spec_finds_text(fs: Seq<FindDeclView>) -> Seq<char>
    decreases fs.len(),
{
    if fs.len() == 0 {
        Seq::empty()
    } else {
        spec_finds_text(fs.drop_last()) + spec_find_text(fs.last())
    }
}

/// The rendering of one zeroing term, as a trailing conjunct.
pub open spec fn spec_zero_text(z: ZeroTermView) -> Seq<char> {
    " /\\ "@ + spec_var_name(z.prefix, z.index) + " = "@ + (match z.ty {
        Type::Int => spec_int_str(z.min as int),
        Type::Bool => "false"@,
    })
}

/// The rendering of a list of zeroing terms, in order.
pub open spec fn spec_zeros_text(zs: Seq<ZeroTermView>) -> Seq<char>
    decreases zs.len(),
{
    if zs.len() == 0 {
        Seq::empty()
    } else {
        spec_zeros_text(zs.drop_last()) + spec_zero_text(zs.last())
    }
}

/// The rendering of one disjunct: the translated body, the tag constraint
/// and the zeroing terms, conjoined inside parentheses.
pub open spec fn spec_disjunct_text(d: DisjunctView) -> Seq<char> {
    "("@ + d.body + " /\\ tag = "@ + spec_udigits(d.tag as nat) + spec_zeros_text(d.zeros) + ")"@
}

/// The rendering of the disjunct list, joined by the disjunction separator
/// between neighbours only: no trailing operator after the final disjunct.
pub open spec fn spec_disjuncts_text(ds: Seq<DisjunctView>) -> Seq<char>
    decreases ds.len(),
{
    if ds.len() == 0 {
        Seq::empty()
    } else if ds.len() == 1 {
        spec_disjunct_text(ds[0])
    } else {
        spec_disjuncts_text(ds.drop_last()) + "\n \\/\n"@ + spec_disjunct_text(ds.last())
    }
}

/// The full textual specification: the format header, the field variable
/// declarations, the tag declaration with domain `1..<constructor count>`,
/// and the disjunction of the clause encodings.
pub open spec fn spec_render(s: EssenceSpecView) -> Seq<char> {
    "language Essence 1.3\n\n"@ + spec_finds_text(s.finds) + "find tag : int(1.."@ + spec_udigits(
        s.tag_count as nat,
    ) + ")\n\nsuch that\n\n"@ + spec_disjuncts_text(s.disjuncts)
}

fn domain_text(d: &Domain) -> (r: String)
    ensures
        r@ == spec_domain_text(*d),
{
    match d {
        Domain::Bool => String::from_str("bool"),
        Domain::IntRange(a, b) => {
            let mut out = String::from_str("int(");
            let low = i32_to_string(*a);
            out.append(low.as_str());
            out.append("..");
            let high = i32_to_string(*b);
            out.append(high.as_str());
            out.append(")");
            out
        },
    }
}

fn find_text(f: &FindDecl) -> (r: String)
    ensures
        r@ == spec_find_text(f@),
{
    let mut out = String::from_str("find ");
    let name = var_name(f.prefix.as_str(), f.index);
    out.append(name.as_str());
    out.append(" : ");
    let dom = domain_text(&f.domain);
    out.append(dom.as_str());
    out.append("\n");
    out
}

fn zero_text(z: &ZeroTerm) -> (r: String)
    ensures
        r@ == spec_zero_text(z@),
{
    let mut out = String::from_str(" /\\ ");
    let name = var_name(z.prefix.as_str(), z.index);
    out.append(name.as_str());
    out.append(" = ");
    match z.ty {
        Type::Int => {
            let v = i32_to_string(z.min);
            out.append(v.as_str());
        },
        Type::Bool => {
            out.append("false");
        },
    }
    out
}

fn disjunct_text(d: &Disjunct) -> (r: String)
    ensures
        r@ == spec_disjunct_text(d@),
{
    let ghost zv = zeros_view(d.zeros@);
    let mut out = String::from_str("(");
    out.append(d.body.as_str());
    out.append(" /\\ tag = ");
    let tag = usize_to_string(d.tag);
    out.append(tag.as_str());
    let mut i: usize = 0;
    while i < d.zeros.len()
        invariant
            i <= d.zeros.len(),
            zv == zeros_view(d.zeros@),
            zv.len() == d.zeros@.len(),
            forall|k: int| 0 <= k < d.zeros@.len() ==> zv[k] == d.zeros@[k]@,
            out@ == "("@ + d.body@ + " /\\ tag = "@ + spec_udigits(d.tag as nat)
                + spec_zeros_text(zv.subrange(0, i as int)),
        decreases d.zeros.len() - i,
    {
        proof {
            assert(zv.subrange(0, i + 1 as int).drop_last() =~= zv.subrange(0, i as int));
            assert(zv.subrange(0, i + 1 as int).last() == zv[i as int]);
        }
        let zt = zero_text(&d.zeros[i]);
        out.append(zt.as_str());
        i = i + 1;
    }
    proof {
        assert(zv.subrange(0, d.zeros@.len() as int) =~= zv);
    }
    out.append(")");
    out
}

/// Render a structured constraint specification to its final text.
pub fn render(spec: &EssenceSpec) -> (r: String)
    ensures
        r@ == spec_render(spec@),
{
    let ghost fv = spec.finds@.map_values(|f: FindDecl| f@);
    let ghost dv = spec.disjuncts@.map_values(|d: Disjunct| d@);
    let mut out = String::from_str("language Essence 1.3\n\n");
    let mut i: usize = 0;
    while i < spec.finds.len()
        invariant
            i <= spec.finds.len(),
            fv == spec.finds@.map_values(|f: FindDecl| f@),
            fv.len() == spec.finds@.len(),
            forall|k: int| 0 <= k < spec.finds@.len() ==> fv[k] == spec.finds@[k]@,
            out@ == "language Essence 1.3\n\n"@ + spec_finds_text(fv.subrange(0, i as int)),
        decreases spec.finds.len() - i,
    {
        proof {
            assert(fv.subrange(0, i + 1 as int).drop_last() =~= fv.subrange(0, i as int));
            assert(fv.subrange(0, i + 1 as int).last() == fv[i as int]);
        }
        let ft = find_text(&spec.finds[i]);
        out.append(ft.as_str());
        i = i + 1;
    }
    proof {
        assert(fv.subrange(0, spec.finds@.len() as int) =~= fv);
    }
    out.append("find tag : int(1..");
    let count = usize_to_string(spec.tag_count);
    out.append(count.as_str());
    out.append(")\n\nsuch that\n\n");
    let ghost header = out@;
    let mut j: usize = 0;
    while j < spec.disjuncts.len()
        invariant
            j <= spec.disjuncts.len(),
            dv == spec.disjuncts@.map_values(|d: Disjunct| d@),
            dv.len() == spec.disjuncts@.len(),
            forall|k: int| 0 <= k < spec.disjuncts@.len() ==> dv[k] == spec.disjuncts@[k]@,
            out@ == header + spec_disjuncts_text(dv.subrange(0, j as int)),
        decreases spec.disjuncts.len() - j,
    {
        proof {
            assert(dv.subrange(0, j + 1 as int).drop_last() =~= dv.subrange(0, j as int));
            assert(dv.subrange(0, j + 1 as int).last() == dv[j as int]);
            assert(spec_disjuncts_text(dv.subrange(0, 0)) == Seq::<char>::empty());
        }
        if j > 0 {
            out.append("\n \\/\n");
        }
        let dt = disjunct_text(&spec.disjuncts[j]);
        out.append(dt.as_str());
        proof {
            if j == 0 {
                assert(out@ =~= header + spec_disjuncts_text(dv.subrange(0, 1)));
            }
        }
        j = j + 1;
    }
    proof {
        assert(dv.subrange(0, spec.disjuncts@.len() as int) =~= dv);
    }
    out
}

/// The text produced for `(Adt, [Func])`, or the first failure.
pub open spec fn spec_essence(adt: AdtView, fs: Seq<FuncView>, min: i32, max: i32) -> Result<
    Seq<char>,
    ErrView,
> {
    match spec_encode(adt, fs, min, max) {
        Err(e) => Err(e),
        Ok(sv) => Ok(spec_render(sv)),
    }
}

/// Compile `(Adt, [Func])` into the textual constraint specification: encode
/// structurally, then render. The satisfying assignments of the output
/// correspond exactly to ADT values for which the predicate holds.
pub fn essence(adt: &Adt, funs: &Vec<Func>, min: i32, max: i32) -> (r: Result<String, TransError>)
    ensures
        res_view(r) == spec_essence(adt@, funcs_view(funs@), min, max),
{
    match encode(adt, funs, min, max) {
        Err(e) => Err(e),
        Ok(spec) => Ok(render(&spec)),
    }
}

proof fn lemma_disjuncts_shape(adt: AdtView, fs: Seq<FuncView>, min: i32, ds: Seq<DisjunctView>)
    requires
        spec_disjuncts(adt, fs, min) == Ok::<Seq<DisjunctView>, ErrView>(ds),
    ensures
        ds.len() == fs.len(),
        forall|i: int|
            0 <= i < fs.len() ==> {
                &&& spec_cons_pos(adt.constructors, fs[i].con.prefix) == Some(ds[i].tag - 1)
                &&& 1 <= ds[i].tag <= adt.constructors.len()
                &&& spec_convert(fs[i].opp, fs[i].con) == Ok::<Seq<char>, ErrView>(ds[i].body)
                &&& ds[i].zeros == spec_zero_terms(adt.constructors, fs[i].con.prefix, min)
            },
    decreases fs.len(),
{
    if fs.len() > 0 {
        let rest = spec_disjuncts(adt, fs.drop_last(), min);
        lemma_disjuncts_shape(adt, fs.drop_last(), min, rest->Ok_0);
        lemma_first_pos_bound(spec_prefixes(adt.constructors), fs.last().con.prefix);
        assert(forall|i: int| 0 <= i < fs.len() - 1 ==> fs[i] == fs.drop_last()[i]);
        assert(forall|i: int| 0 <= i < ds.len() - 1 ==> ds[i] == rest->Ok_0[i]);
    }
}

/// Tag range property: a successful encoding of an Adt with N constructors
/// always gives the tag domain `1..N`, and exactly one disjunct per clause,
/// each constraining `tag` to its clause's constructor's 1-based declaration
/// position.
pub proof fn lemma_tag_range(
    adt: AdtView,
    fs: Seq<FuncView>,
    min: i32,
    max: i32,
    sv: EssenceSpecView,
)
    requires
        spec_encode(adt, fs, min, max) == Ok::<EssenceSpecView, ErrView>(sv),
    ensures
        sv.tag_count == adt.constructors.len(),
        sv.disjuncts.len() == fs.len(),
        forall|i: int|
            0 <= i < fs.len() ==> 1 <= sv.disjuncts[i].tag <= sv.tag_count && spec_cons_pos(
                adt.constructors,
                fs[i].con.prefix,
            ) == Some(sv.disjuncts[i].tag - 1),
{
    lemma_disjuncts_shape(adt, fs, min, sv.disjuncts);
}

proof fn lemma_zero_terms_complete(cs: Seq<ConsView>, active: Seq<char>, min: i32)
    ensures
        forall|c: int, j: int|
            0 <= c < cs.len() && cs[c].prefix != active && 0 <= j < cs[c].types.len()
                ==> spec_zero_terms(cs, active, min).contains(
                ZeroTermView { prefix: cs[c].prefix, index: j + 1, ty: cs[c].types[j], min },
            ),
    decreases cs.len(),
{
    if cs.len() > 0 {
        lemma_zero_terms_complete(cs.drop_last(), active, min);
        let pre = spec_zero_terms(cs.drop_last(), active, min);
        let whole = spec_zero_terms(cs, active, min);
        assert forall|c: int, j: int|
            0 <= c < cs.len() && cs[c].prefix != active && 0 <= j
                < cs[c].types.len() implies whole.contains(
            ZeroTermView { prefix: cs[c].prefix, index: j + 1, ty: cs[c].types[j], min },
        ) by {
            let z = ZeroTermView { prefix: cs[c].prefix, index: j + 1, ty: cs[c].types[j], min };
            if c < cs.len() - 1 {
                assert(cs.drop_last()[c] == cs[c]);
                assert(pre.contains(z));
                let k = choose|k: int| 0 <= k < pre.len() && pre[k] == z;
                assert(whole[k] == z);
            } else {
                let tail = spec_cons_zeros(cs.last(), min);
                assert(tail[j] == z);
                assert(whole[pre.len() + j] == z);
            }
        }
    }
}

/// Zeroing completeness: in a successful encoding, every disjunct constrains
/// every field variable of every constructor other than its clause's own to
/// that field's fixed default — the domain minimum for an integer field,
/// false for a boolean one.
pub proof fn lemma_zeroing_completeness(
    adt: AdtView,
    fs: Seq<FuncView>,
    min: i32,
    max: i32,
    sv: EssenceSpecView,
)
    requires
        spec_encode(adt, fs, min, max) == Ok::<EssenceSpecView, ErrView>(sv),
    ensures
        sv.disjuncts.len() == fs.len(),
        forall|i: int, c: int, j: int|
            0 <= i < fs.len() && 0 <= c < adt.constructors.len()
                && adt.constructors[c].prefix != fs[i].con.prefix && 0 <= j
                < adt.constructors[c].types.len() ==> sv.disjuncts[i].zeros.contains(
                ZeroTermView {
                    prefix: adt.constructors[c].prefix,
                    index: j + 1,
                    ty: adt.constructors[c].types[j],
                    min,
                },
            ),
{
    lemma_disjuncts_shape(adt, fs, min, sv.disjuncts);
    assert forall|i: int, c: int, j: int|
        0 <= i < fs.len() && 0 <= c < adt.constructors.len() && adt.constructors[c].prefix
            != fs[i].con.prefix && 0 <= j < adt.constructors[c].types.len() implies sv.disjuncts[i].zeros.contains(
        ZeroTermView {
            prefix: adt.constructors[c].prefix,
            index: j + 1,
            ty: adt.constructors[c].types[j],
            min,
        },
    ) by {
        lemma_zero_terms_complete(adt.constructors, fs[i].con.prefix, min);
    }
}

/// Rejection: a clause naming a constructor absent from the Adt's
/// constructor list fails with an unknown-constructor error — and with it the
/// whole encoding, so no output is emitted — provided no earlier clause
/// failed first.
pub proof fn lemma_unknown_constructor_rejected(
    adt: AdtView,
    fs: Seq<FuncView>,
    min: i32,
    max: i32,
    i: int,
)
    requires
        0 <= i < fs.len(),
        spec_cons_pos(adt.constructors, fs[i].con.prefix) is None,
        spec_disjuncts(adt, fs.subrange(0, i), min) is Ok,
    ensures
        spec_encode(adt, fs, min, max) == Err::<EssenceSpecView, ErrView>(
            ErrView::UnknownConstructor(fs[i].con.prefix),
        ),
{
    assert(fs.subrange(0, i + 1).drop_last() =~= fs.subrange(0, i));
    assert(fs.subrange(0, i + 1).last() == fs[i]);
    lemma_disjuncts_err_extend(adt, fs, min, i + 1);
}

/// A corollary without the fail-fast precondition: an encoding never
/// succeeds while any clause names a constructor absent from the Adt — some
/// fatal error is returned and no output is emitted, though by the fail-fast
/// order an earlier clause's failure may be the one reported.
pub proof fn lemma_unknown_constructor_never_encodes(
    adt: AdtView,
    fs: Seq<FuncView>,
    min: i32,
    max: i32,
    i: int,
)
    requires
        0 <= i < fs.len(),
        spec_cons_pos(adt.constructors, fs[i].con.prefix) is None,
    ensures
        spec_encode(adt, fs, min, max) is Err,
{
    match spec_encode(adt, fs, min, max) {
        Ok(sv) => {
            lemma_tag_range(adt, fs, min, max, sv);
            assert(spec_cons_pos(adt.constructors, fs[i].con.prefix) == Some(
                sv.disjuncts[i].tag - 1,
            ));
            assert(false);
        },
        Err(_) => {},
    }
}

/// Name resolution determinism: translating a variable reference inside a
/// clause always yields `prefix_i` where `i` is the 1-based position of the
/// name in the clause's bound-input list. Translation is a function of the
/// `(clause, name)` pair alone, so re-running it on the same pair gives the
/// same text; the contract of `convert_variables` pins the executable
/// translation to this same function.
pub proof fn lemma_name_resolution(con: FuncInputView, name: Seq<char>, k: int)
    requires
        spec_first_pos(con.input, name) == Some(k),
    ensures
        spec_convert(OpView::Var(name), con) == Ok::<Seq<char>, ErrView>(
            spec_var_name(con.prefix, k + 1),
        ),
{
}

} // verus!
