//! The precedence normalizer.
//!
//! Some source grammars capture chained infix expressions left to right with
//! no regard to operator precedence, so `a + b > c` arrives as the tree
//! `Add(a, Gt(b, c))`. The normalizer repairs such a tree with a single
//! right-rotation: when a binary node's right child is itself a binary node
//! of a tighter-binding operator, the child's operator moves to the root and
//! the parent's application becomes its left subtree. The rotation is applied
//! once per node, as each binary node is constructed during parsing; it does
//! not recurse into the newly formed subtree.

use crate::adt::{bin_op_of, bin_view, is_binary, spec_left, spec_right, BinOp, OpView, Operation};
use vstd::prelude::*;

verus! {

/// The precedence class of a binary operator. A higher number binds tighter:
/// addition and subtraction are loosest, comparisons and multiplication sit
/// in the middle, and the logical connectives are treated as tightest, making
/// them eligible to be rotated inward.
pub open spec fn spec_prec(b: BinOp) -> int {
    match b {
        BinOp::Add => 1,
        BinOp::Sub => 1,
        BinOp::Gt => 2,
        BinOp::Lt => 2,
        BinOp::Eq => 2,
        BinOp::Neq => 2,
        BinOp::Leq => 2,
        BinOp::Geq => 2,
        BinOp::Mul => 2,
        BinOp::And => 3,
        BinOp::Or => 3,
    }
}

/// The precedence class of a binary operator.
pub fn prec(b: BinOp) -> (r: u32)
    ensures
        r == spec_prec(b),
{
    match b {
        BinOp::Add => 1,
        BinOp::Sub => 1,
        BinOp::Gt => 2,
        BinOp::Lt => 2,
        BinOp::Eq => 2,
        BinOp::Neq => 2,
        BinOp::Leq => 2,
        BinOp::Geq => 2,
        BinOp::Mul => 2,
        BinOp::And => 3,
        BinOp::Or => 3,
    }
}

/// Whether a single right-rotation applies: the expression is a binary node
/// whose right child is a binary node of strictly higher precedence.
pub open spec fn rotation_applies(v: OpView) -> bool {
    &&& is_binary(v)
    &&& is_binary(spec_right(v))
    &&& spec_prec(bin_op_of(spec_right(v))) > spec_prec(bin_op_of(v))
}

/// The result of one normalization step: the rotated tree where the rotation
/// applies, the expression unchanged otherwise. For `Op(l, ROp(rl, rr))` with
/// `ROp` binding tighter than `Op`, the result is `ROp(Op(l, rl), rr)`.
pub open spec fn spec_normalize(v: OpView) -> OpView {
    if rotation_applies(v) {
        let r = spec_right(v);
        bin_view(
            bin_op_of(r),
            bin_view(bin_op_of(v), spec_left(v), spec_left(r)),
            spec_right(r),
        )
    } else {
        v
    }
}

/// Repair one level of a precedence-unaware left-linear parse by a single
/// right-rotation. Literals, variables, negations, and binary nodes with no
/// precedence inversion are fixed points.
pub fn normalize(op: Operation) -> (r: Operation)
    ensures
        r@ == spec_normalize(op@),
{
    match op.split() {
        Err(o) => o,
        Ok((b, l, right)) => {
            match (*right).split() {
                Err(ro) => Operation::join(b, l, Box::new(ro)),
                Ok((rb, rl, rr)) => {
                    if prec(rb) > prec(b) {
                        Operation::join(rb, Box::new(Operation::join(b, l, rl)), rr)
                    } else {
                        Operation::join(b, l, Box::new(Operation::join(rb, rl, rr)))
                    }
                },
            }
        },
    }
}

/// An expression with no precedence inversion at its root is a fixed point
/// of normalization; in particular a bare comparison such as `a > b` is.
pub proof fn lemma_normalize_fixed_point(v: OpView)
    requires
        !rotation_applies(v),
    ensures
        spec_normalize(v) == v,
{
}

/// Where the rotation applies, normalization yields exactly the one-step
/// right-rotation: the parent operator's application becomes the left child
/// of the former right child's operator.
pub proof fn lemma_normalize_rotates(v: OpView)
    requires
        rotation_applies(v),
    ensures
        spec_normalize(v) == bin_view(
            bin_op_of(spec_right(v)),
            bin_view(bin_op_of(v), spec_left(v), spec_left(spec_right(v))),
            spec_right(spec_right(v)),
        ),
{
}

} // verus!
