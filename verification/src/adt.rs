//! The normalized expression model: algebraic data types, predicate clauses
//! and expression trees. All entities are immutable pure data, constructed
//! once by a frontend adapter and consumed read-only by the encoder.

use crate::strings::{spec_int_str, str_eq};
use vstd::prelude::*;

verus! {

/// A field type of a constructor. The modeled subset is closed: integers and
/// booleans only.
#[derive(Debug, Clone, Copy, PartialEq, Eq, Structural)]
pub enum Type {
    Bool,
    Int,
}

/// One constructor of an algebraic data type: a tag name and the ordered
/// field types. The position of each type is the field index, used to derive
/// generated variable names.
#[derive(Debug, Clone, PartialEq, Eq)]
pub struct Cons {
    pub prefix: String,
    pub types: Vec<Type>,
}

/// The mathematical value of a constructor declaration.
pub struct ConsView {
    pub prefix: Seq<char>,
    pub types: Seq<Type>,
}

impl View for Cons {
    type V = ConsView;

    open spec fn view(&self) -> ConsView {
        ConsView { prefix: self.prefix@, types: self.types@ }
    }
}

/// An algebraic data type: a name and an ordered sequence of constructors.
/// The order is significant: it defines the 1-based tag index used by the
/// disjoint-union encoding.
#[derive(Debug, Clone, PartialEq, Eq)]
pub struct Adt {
    pub name: String,
    pub constructors: Vec<Cons>,
}

/// The mathematical value of an Adt declaration.
pub struct AdtView {
    pub name: Seq<char>,
    pub constructors: Seq<ConsView>,
}

impl View for Adt {
    type V = AdtView;

    open spec fn view(&self) -> AdtView {
        AdtView {
            name: self.name@,
            constructors: self.constructors@.map_values(|c: Cons| c@),
        }
    }
}

/// A constructor pattern: the matched constructor's tag name and the
/// source-level variable names bound to its fields, in field-position order.
#[derive(Debug, Clone, PartialEq, Eq)]
pub struct FuncInput {
    pub prefix: String,
    pub input: Vec<String>,
}

/// The mathematical value of a constructor pattern.
pub struct FuncInputView {
    pub prefix: Seq<char>,
    pub input: Seq<Seq<char>>,
}

impl View for FuncInput {
    type V = FuncInputView;

    open spec fn view(&self) -> FuncInputView {
        FuncInputView {
            prefix: self.prefix@,
            input: self.input@.map_values(|s: String| s@),
        }
    }
}

impl FuncInput {
    /// A copy of the pattern, equal in value to the original.
    pub fn dup(&self) -> (r: FuncInput)
        ensures
            r@ == self@,
    {
        let mut input: Vec<String> = Vec::new();
        let mut i: usize = 0;
        while i < self.input.len()
            invariant
                i <= self.input@.len(),
                input@.len() == i,
                forall|k: int| 0 <= k < i ==> input@[k]@ == self.input@[k]@,
            decreases self.input.len() - i,
        {
            input.push(self.input[i].clone());
            i = i + 1;
        }
        let r = FuncInput { prefix: self.prefix.clone(), input };
        proof {
            assert(r@.input =~= self@.input);
        }
        r
    }
}

/// A recursive expression tree. Literals and variable references are the
/// leaves; `Not` owns one child and every other operator owns exactly two
/// (left, right).
#[derive(Debug, PartialEq, Eq)]
pub enum Operation {
    BoolLit(bool),
    IntLit(i32),
    Var(String),
    And(Box<Operation>, Box<Operation>),
    Or(Box<Operation>, Box<Operation>),
    Not(Box<Operation>),
    Gt(Box<Operation>, Box<Operation>),
    Lt(Box<Operation>, Box<Operation>),
    Eq(Box<Operation>, Box<Operation>),
    Neq(Box<Operation>, Box<Operation>),
    Leq(Box<Operation>, Box<Operation>),
    Geq(Box<Operation>, Box<Operation>),
    Add(Box<Operation>, Box<Operation>),
    Sub(Box<Operation>, Box<Operation>),
    Mul(Box<Operation>, Box<Operation>),
}

/// The mathematical value of an expression tree.
pub enum OpView {
    BoolLit(bool),
    IntLit(int),
    Var(Seq<char>),
    And(Box<OpView>, Box<OpView>),
    Or(Box<OpView>, Box<OpView>),
    Not(Box<OpView>),
    Gt(Box<OpView>, Box<OpView>),
    Lt(Box<OpView>, Box<OpView>),
    Eq(Box<OpView>, Box<OpView>),
    Neq(Box<OpView>, Box<OpView>),
    Leq(Box<OpView>, Box<OpView>),
    Geq(Box<OpView>, Box<OpView>),
    Add(Box<OpView>, Box<OpView>),
    Sub(Box<OpView>, Box<OpView>),
    Mul(Box<OpView>, Box<OpView>),
}

/// The mathematical value of an `Operation`.
pub open spec fn op_view(op: Operation) -> OpView
    decreases op,
{
    match op {
        Operation::BoolLit(b) => OpView::BoolLit(b),
        Operation::IntLit(i) => OpView::IntLit(i as int),
        Operation::Var(n) => OpView::Var(n@),
        Operation::And(l, r) => OpView::And(Box::new(op_view(*l)), Box::new(op_view(*r))),
        Operation::Or(l, r) => OpView::Or(Box::new(op_view(*l)), Box::new(op_view(*r))),
        Operation::Not(o) => OpView::Not(Box::new(op_view(*o))),
        Operation::Gt(l, r) => OpView::Gt(Box::new(op_view(*l)), Box::new(op_view(*r))),
        Operation::Lt(l, r) => OpView::Lt(Box::new(op_view(*l)), Box::new(op_view(*r))),
        Operation::Eq(l, r) => OpView::Eq(Box::new(op_view(*l)), Box::new(op_view(*r))),
        Operation::Neq(l, r) => OpView::Neq(Box::new(op_view(*l)), Box::new(op_view(*r))),
        Operation::Leq(l, r) => OpView::Leq(Box::new(op_view(*l)), Box::new(op_view(*r))),
        Operation::Geq(l, r) => OpView::Geq(Box::new(op_view(*l)), Box::new(op_view(*r))),
        Operation::Add(l, r) => OpView::Add(Box::new(op_view(*l)), Box::new(op_view(*r))),
        Operation::Sub(l, r) => OpView::Sub(Box::new(op_view(*l)), Box::new(op_view(*r))),
        Operation::Mul(l, r) => OpView::Mul(Box::new(op_view(*l)), Box::new(op_view(*r))),
    }
}

impl View for Operation {
    type V = OpView;

    open spec fn view(&self) -> OpView {
        op_view(*self)
    }
}

/// One clause of the predicate: when the value's constructor matches
/// `con.prefix` (fields bound as per `con.input`), the predicate evaluates
/// to `opp`.
#[derive(Debug, PartialEq, Eq)]
pub struct Func {
    pub con: FuncInput,
    pub opp: Operation,
}

/// The mathematical value of a clause.
pub struct FuncView {
    pub con: FuncInputView,
    pub opp: OpView,
}

impl View for Func {
    type V = FuncView;

    open spec fn view(&self) -> FuncView {
        FuncView { con: self.con@, opp: self.opp@ }
    }
}

impl Func {
    /// A copy of the clause, equal in value to the original.
    pub fn dup(&self) -> (r: Func)
        ensures
            r@ == self@,
    {
        Func { con: self.con.dup(), opp: self.opp.dup() }
    }
}

/// The mathematical values of a clause list.
pub open spec fn funcs_view(fs: Seq<Func>) -> Seq<FuncView> {
    fs.map_values(|f: Func| f@)
}

/// The identity of a binary operator, apart from its children.
#[derive(Debug, Clone, Copy, PartialEq, Eq, Structural)]
pub enum BinOp {
    And,
    Or,
    Gt,
    Lt,
    Eq,
    Neq,
    Leq,
    Geq,
    Add,
    Sub,
    Mul,
}

/// The expression formed by a binary operator and two children.
pub open spec fn bin_view(b: BinOp, l: OpView, r: OpView) -> OpView {
    match b {
        BinOp::And => OpView::And(Box::new(l), Box::new(r)),
        BinOp::Or => OpView::Or(Box::new(l), Box::new(r)),
        BinOp::Gt => OpView::Gt(Box::new(l), Box::new(r)),
        BinOp::Lt => OpView::Lt(Box::new(l), Box::new(r)),
        BinOp::Eq => OpView::Eq(Box::new(l), Box::new(r)),
        BinOp::Neq => OpView::Neq(Box::new(l), Box::new(r)),
        BinOp::Leq => OpView::Leq(Box::new(l), Box::new(r)),
        BinOp::Geq => OpView::Geq(Box::new(l), Box::new(r)),
        BinOp::Add => OpView::Add(Box::new(l), Box::new(r)),
        BinOp::Sub => OpView::Sub(Box::new(l), Box::new(r)),
        BinOp::Mul => OpView::Mul(Box::new(l), Box::new(r)),
    }
}

/// Whether the expression is an application of a binary (infix) operator.
pub open spec fn is_binary(v: OpView) -> bool {
    match v {
        OpView::BoolLit(_) => false,
        OpView::IntLit(_) => false,
        OpView::Var(_) => false,
        OpView::Not(_) => false,
        _ => true,
    }
}

/// The operator of a binary expression (meaningful only when `is_binary`).
pub open spec fn bin_op_of(v: OpView) -> BinOp {
    match v {
        OpView::And(_, _) => BinOp::And,
        OpView::Or(_, _) => BinOp::Or,
        OpView::Gt(_, _) => BinOp::Gt,
        OpView::Lt(_, _) => BinOp::Lt,
        OpView::Eq(_, _) => BinOp::Eq,
        OpView::Neq(_, _) => BinOp::Neq,
        OpView::Leq(_, _) => BinOp::Leq,
        OpView::Geq(_, _) => BinOp::Geq,
        OpView::Add(_, _) => BinOp::Add,
        OpView::Sub(_, _) => BinOp::Sub,
        OpView::Mul(_, _) => BinOp::Mul,
        _ => BinOp::And,
    }
}

/// The left child of a binary expression (the expression itself otherwise).
pub open spec fn spec_left(v: OpView) -> OpView {
    match v {
        OpView::And(l, _) => *l,
        OpView::Or(l, _) => *l,
        OpView::Gt(l, _) => *l,
        OpView::Lt(l, _) => *l,
        OpView::Eq(l, _) => *l,
        OpView::Neq(l, _) => *l,
        OpView::Leq(l, _) => *l,
        OpView::Geq(l, _) => *l,
        OpView::Add(l, _) => *l,
        OpView::Sub(l, _) => *l,
        OpView::Mul(l, _) => *l,
        _ => v,
    }
}

/// The right child of a binary expression (the expression itself otherwise).
pub open spec fn spec_right(v: OpView) -> OpView {
    match v {
        OpView::And(_, r) => *r,
        OpView::Or(_, r) => *r,
        OpView::Gt(_, r) => *r,
        OpView::Lt(_, r) => *r,
        OpView::Eq(_, r) => *r,
        OpView::Neq(_, r) => *r,
        OpView::Leq(_, r) => *r,
        OpView::Geq(_, r) => *r,
        OpView::Add(_, r) => *r,
        OpView::Sub(_, r) => *r,
        OpView::Mul(_, r) => *r,
        _ => v,
    }
}

/// The rendering of an expression in the pattern-match notation: infix
/// operators with their usual spellings, `not` for negation, capitalized
/// boolean literals.
pub open spec fn spec_haskell(v: OpView) -> Seq<char>
    decreases v,
{
    match v {
        OpView::BoolLit(b) => if b {
            "True"@
        } else {
            "False"@
        },
        OpView::IntLit(i) => spec_int_str(i),
        OpView::Var(n) => n,
        OpView::Gt(l, r) => spec_haskell(*l) + " > "@ + spec_haskell(*r),
        OpView::Lt(l, r) => spec_haskell(*l) + " < "@ + spec_haskell(*r),
        OpView::Eq(l, r) => spec_haskell(*l) + " == "@ + spec_haskell(*r),
        OpView::Neq(l, r) => spec_haskell(*l) + " /= "@ + spec_haskell(*r),
        OpView::Leq(l, r) => spec_haskell(*l) + " <= "@ + spec_haskell(*r),
        OpView::Geq(l, r) => spec_haskell(*l) + " >= "@ + spec_haskell(*r),
        OpView::Add(l, r) => spec_haskell(*l) + " + "@ + spec_haskell(*r),
        OpView::Sub(l, r) => spec_haskell(*l) + " - "@ + spec_haskell(*r),
        OpView::Mul(l, r) => spec_haskell(*l) + " * "@ + spec_haskell(*r),
        OpView::And(l, r) => spec_haskell(*l) + " && "@ + spec_haskell(*r),
        OpView::Or(l, r) => spec_haskell(*l) + " || "@ + spec_haskell(*r),
        OpView::Not(o) => "not "@ + spec_haskell(*o),
    }
}

impl Operation {
    /// A deep copy of the expression, equal in value to the original.
    pub fn dup(&self) -> (r: Operation)
        ensures
            r@ == self@,
        decreases self,
    {
        match self {
            Operation::BoolLit(b) => Operation::BoolLit(*b),
            Operation::IntLit(i) => Operation::IntLit(*i),
            Operation::Var(n) => Operation::Var(n.clone()),
            Operation::And(l, r) => Operation::And(Box::new(l.dup()), Box::new(r.dup())),
            Operation::Or(l, r) => Operation::Or(Box::new(l.dup()), Box::new(r.dup())),
            Operation::Not(o) => Operation::Not(Box::new(o.dup())),
            Operation::Gt(l, r) => Operation::Gt(Box::new(l.dup()), Box::new(r.dup())),
            Operation::Lt(l, r) => Operation::Lt(Box::new(l.dup()), Box::new(r.dup())),
            Operation::Eq(l, r) => Operation::Eq(Box::new(l.dup()), Box::new(r.dup())),
            Operation::Neq(l, r) => Operation::Neq(Box::new(l.dup()), Box::new(r.dup())),
            Operation::Leq(l, r) => Operation::Leq(Box::new(l.dup()), Box::new(r.dup())),
            Operation::Geq(l, r) => Operation::Geq(Box::new(l.dup()), Box::new(r.dup())),
            Operation::Add(l, r) => Operation::Add(Box::new(l.dup()), Box::new(r.dup())),
            Operation::Sub(l, r) => Operation::Sub(Box::new(l.dup()), Box::new(r.dup())),
            Operation::Mul(l, r) => Operation::Mul(Box::new(l.dup()), Box::new(r.dup())),
        }
    }

    /// The rendering of the expression in the pattern-match source notation.
    pub fn to_haskell(&self) -> (r: String)
        ensures
            r@ == spec_haskell(self@),
        decreases self,
    {
        match self {
            Operation::BoolLit(b) => {
                if *b {
                    String::from_str("True")
                } else {
                    String::from_str("False")
                }
            },
            Operation::IntLit(i) => crate::strings::i32_to_string(*i),
            Operation::Var(n) => n.clone(),
            Operation::Gt(l, r) => Self::cat(l.to_haskell(), " > ", r.to_haskell()),
            Operation::Lt(l, r) => Self::cat(l.to_haskell(), " < ", r.to_haskell()),
            Operation::Eq(l, r) => Self::cat(l.to_haskell(), " == ", r.to_haskell()),
            Operation::Neq(l, r) => Self::cat(l.to_haskell(), " /= ", r.to_haskell()),
            Operation::Leq(l, r) => Self::cat(l.to_haskell(), " <= ", r.to_haskell()),
            Operation::Geq(l, r) => Self::cat(l.to_haskell(), " >= ", r.to_haskell()),
            Operation::Add(l, r) => Self::cat(l.to_haskell(), " + ", r.to_haskell()),
            Operation::Sub(l, r) => Self::cat(l.to_haskell(), " - ", r.to_haskell()),
            Operation::Mul(l, r) => Self::cat(l.to_haskell(), " * ", r.to_haskell()),
            Operation::And(l, r) => Self::cat(l.to_haskell(), " && ", r.to_haskell()),
            Operation::Or(l, r) => Self::cat(l.to_haskell(), " || ", r.to_haskell()),
            Operation::Not(o) => {
                let mut out = String::from_str("not ");
                let inner = o.to_haskell();
                out.append(inner.as_str());
                out
            },
        }
    }

    fn cat(a: String, sep: &str, b: String) -> (out: String)
        ensures
            out@ == a@ + sep@ + b@,
    {
        let mut out = a;
        out.append(sep);
        out.append(b.as_str());
        out
    }

    /// Whether the expression is an application of a binary (infix) operator.
    pub fn is_infix(&self) -> (r: bool)
        ensures
            r == is_binary(self@),
    {
        match self {
            Operation::Gt(_, _) => true,
            Operation::Lt(_, _) => true,
            Operation::Eq(_, _) => true,
            Operation::Neq(_, _) => true,
            Operation::Leq(_, _) => true,
            Operation::Geq(_, _) => true,
            Operation::Add(_, _) => true,
            Operation::Sub(_, _) => true,
            Operation::Mul(_, _) => true,
            Operation::And(_, _) => true,
            Operation::Or(_, _) => true,
            _ => false,
        }
    }

    /// The left child of a binary operator application, if the expression is
    /// one.
    pub fn left(&self) -> (r: Option<&Operation>)
        ensures
            r matches Some(l) ==> is_binary(self@) && l@ == spec_left(self@),
            r is None ==> !is_binary(self@),
    {
        match self {
            Operation::Gt(l, _) => Some(l),
            Operation::Lt(l, _) => Some(l),
            Operation::Eq(l, _) => Some(l),
            Operation::Neq(l, _) => Some(l),
            Operation::Leq(l, _) => Some(l),
            Operation::Geq(l, _) => Some(l),
            Operation::Add(l, _) => Some(l),
            Operation::Sub(l, _) => Some(l),
            Operation::Mul(l, _) => Some(l),
            Operation::And(l, _) => Some(l),
            Operation::Or(l, _) => Some(l),
            _ => None,
        }
    }

    /// The right child of a binary operator application, if the expression is
    /// one.
    pub fn right(&self) -> (r: Option<&Operation>)
        ensures
            r matches Some(c) ==> is_binary(self@) && c@ == spec_right(self@),
            r is None ==> !is_binary(self@),
    {
        match self {
            Operation::Gt(_, r) => Some(r),
            Operation::Lt(_, r) => Some(r),
            Operation::Eq(_, r) => Some(r),
            Operation::Neq(_, r) => Some(r),
            Operation::Leq(_, r) => Some(r),
            Operation::Geq(_, r) => Some(r),
            Operation::Add(_, r) => Some(r),
            Operation::Sub(_, r) => Some(r),
            Operation::Mul(_, r) => Some(r),
            Operation::And(_, r) => Some(r),
            Operation::Or(_, r) => Some(r),
            _ => None,
        }
    }

    /// Split a binary operator application into its operator and children;
    /// a leaf or a negation is handed back unchanged.
    pub fn split(self) -> (r: Result<(BinOp, Box<Operation>, Box<Operation>), Operation>)
        ensures
            r matches Ok((b, l, c)) ==> is_binary(self@) && self@ == bin_view(b, l@, c@),
            r matches Err(o) ==> !is_binary(self@) && o@ == self@,
    {
        match self {
            Operation::And(l, r) => Ok((BinOp::And, l, r)),
            Operation::Or(l, r) => Ok((BinOp::Or, l, r)),
            Operation::Gt(l, r) => Ok((BinOp::Gt, l, r)),
            Operation::Lt(l, r) => Ok((BinOp::Lt, l, r)),
            Operation::Eq(l, r) => Ok((BinOp::Eq, l, r)),
            Operation::Neq(l, r) => Ok((BinOp::Neq, l, r)),
            Operation::Leq(l, r) => Ok((BinOp::Leq, l, r)),
            Operation::Geq(l, r) => Ok((BinOp::Geq, l, r)),
            Operation::Add(l, r) => Ok((BinOp::Add, l, r)),
            Operation::Sub(l, r) => Ok((BinOp::Sub, l, r)),
            Operation::Mul(l, r) => Ok((BinOp::Mul, l, r)),
            o => Err(o),
        }
    }

    /// Build a binary operator application from its operator and children.
    pub fn join(b: BinOp, l: Box<Operation>, r: Box<Operation>) -> (out: Operation)
        ensures
            out@ == bin_view(b, l@, r@),
    {
        match b {
            BinOp::And => Operation::And(l, r),
            BinOp::Or => Operation::Or(l, r),
            BinOp::Gt => Operation::Gt(l, r),
            BinOp::Lt => Operation::Lt(l, r),
            BinOp::Eq => Operation::Eq(l, r),
            BinOp::Neq => Operation::Neq(l, r),
            BinOp::Leq => Operation::Leq(l, r),
            BinOp::Geq => Operation::Geq(l, r),
            BinOp::Add => Operation::Add(l, r),
            BinOp::Sub => Operation::Sub(l, r),
            BinOp::Mul => Operation::Mul(l, r),
        }
    }
}


/// Whether some constructor among `cs` bears the tag name `p`.
pub open spec fn spec_has_prefix(cs: Seq<ConsView>, p: Seq<char>) -> bool
    decreases cs.len(),
{
    if cs.len() == 0 {
        false
    } else {
        spec_has_prefix(cs.drop_last(), p) || cs.last().prefix == p
    }
}

/// A constructor list bears a tag name exactly when one of its members does.
pub proof fn lemma_has_prefix_exists(cs: Seq<ConsView>, p: Seq<char>)
    ensures
        spec_has_prefix(cs, p) <==> exists|k: int| 0 <= k < cs.len() && cs[k].prefix == p,
    decreases cs.len(),
{
    if cs.len() > 0 {
        lemma_has_prefix_exists(cs.drop_last(), p);
        assert(forall|k: int| 0 <= k < cs.len() - 1 ==> cs[k] == cs.drop_last()[k]);
        if spec_has_prefix(cs, p) {
            if cs.last().prefix == p {
                assert(cs[cs.len() - 1].prefix == p);
            }
        }
        if exists|k: int| 0 <= k < cs.len() && cs[k].prefix == p {
            let k = choose|k: int| 0 <= k < cs.len() && cs[k].prefix == p;
            if k < cs.len() - 1 {
                assert(cs.drop_last()[k].prefix == p);
            }
        }
    }
}

/// The position of the first constructor whose tag name repeats an earlier
/// one, if any. Constructor tag names must be unique within an Adt.
pub open spec fn spec_dup_prefix(cs: Seq<ConsView>) -> Option<int>
    decreases cs.len(),
{
    if cs.len() == 0 {
        None
    } else {
        match spec_dup_prefix(cs.drop_last()) {
            Some(j) => Some(j),
            None => if spec_has_prefix(cs.drop_last(), cs.last().prefix) {
                Some(cs.len() - 1)
            } else {
                None
            },
        }
    }
}

proof fn lemma_dup_prefix_found(cs: Seq<ConsView>, j: int)
    requires
        0 <= j <= cs.len(),
        spec_dup_prefix(cs.subrange(0, j)) is Some,
    ensures
        spec_dup_prefix(cs) == spec_dup_prefix(cs.subrange(0, j)),
    decreases cs.len() - j,
{
    if j == cs.len() {
        assert(cs.subrange(0, j) =~= cs);
    } else {
        assert(cs.subrange(0, j + 1).drop_last() =~= cs.subrange(0, j));
        lemma_dup_prefix_found(cs, j + 1);
    }
}

fn has_prefix_upto(constructors: &Vec<Cons>, j: usize, p: &str) -> (r: bool)
    requires
        j <= constructors@.len(),
    ensures
        r == spec_has_prefix(
            constructors@.map_values(|c: Cons| c@).subrange(0, j as int),
            p@,
        ),
{
    let ghost cv = constructors@.map_values(|c: Cons| c@);
    let mut k: usize = 0;
    while k < j
        invariant
            k <= j <= constructors@.len(),
            cv == constructors@.map_values(|c: Cons| c@),
            cv.len() == constructors@.len(),
            forall|m: int| 0 <= m < constructors@.len() ==> cv[m] == constructors@[m]@,
            forall|m: int| 0 <= m < k ==> cv[m].prefix != p@,
        decreases j - k,
    {
        if str_eq(constructors[k].prefix.as_str(), p) {
            proof {
                lemma_has_prefix_exists(cv.subrange(0, j as int), p@);
                assert(cv.subrange(0, j as int)[k as int].prefix == p@);
            }
            return true;
        }
        k = k + 1;
    }
    proof {
        lemma_has_prefix_exists(cv.subrange(0, j as int), p@);
    }
    false
}

/// The first constructor whose tag name repeats an earlier one, if any.
pub fn dup_prefix(constructors: &Vec<Cons>) -> (r: Option<usize>)
    ensures
        match r {
            Some(j) => j < constructors@.len() && spec_dup_prefix(
                constructors@.map_values(|c: Cons| c@),
            ) == Some(j as int),
            None => spec_dup_prefix(constructors@.map_values(|c: Cons| c@)) is None,
        },
{
    let ghost cv = constructors@.map_values(|c: Cons| c@);
    let mut j: usize = 0;
    while j < constructors.len()
        invariant
            j <= constructors.len(),
            cv == constructors@.map_values(|c: Cons| c@),
            cv.len() == constructors@.len(),
            forall|m: int| 0 <= m < constructors@.len() ==> cv[m] == constructors@[m]@,
            spec_dup_prefix(cv.subrange(0, j as int)) is None,
        decreases constructors.len() - j,
    {
        proof {
            assert(cv.subrange(0, j + 1 as int).drop_last() =~= cv.subrange(0, j as int));
            assert(cv.subrange(0, j + 1 as int).last() == cv[j as int]);
        }
        if has_prefix_upto(constructors, j, constructors[j].prefix.as_str()) {
            proof {
                assert(spec_dup_prefix(cv.subrange(0, j + 1 as int)) == Some(j as int));
                lemma_dup_prefix_found(cv, j + 1);
            }
            return Some(j);
        }
        j = j + 1;
    }
    proof {
        assert(cv.subrange(0, constructors@.len() as int) =~= cv);
    }
    None
}

} // verus!
