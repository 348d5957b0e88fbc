use randi_check::adt::{BinOp, Cons, Func, FuncInput, Operation, Type};
use randi_check::error::TransError;
use randi_check::precedence::{normalize, prec};
use randi_check::strings::{i32_to_string, parse_i32, str_eq, u64_to_string};
use randi_check::subst::{inline_apply, substitute};

fn var(n: &str) -> Operation {
    Operation::Var(n.to_string())
}

fn gt(l: Operation, r: Operation) -> Operation {
    Operation::Gt(Box::new(l), Box::new(r))
}

fn add(l: Operation, r: Operation) -> Operation {
    Operation::Add(Box::new(l), Box::new(r))
}

#[test]
fn str_eq_basic() {
    assert!(str_eq("", ""));
    assert!(str_eq("abc", "abc"));
    assert!(!str_eq("abc", "abd"));
    assert!(!str_eq("abc", "ab"));
}

#[test]
fn decimal_rendering() {
    assert_eq!(u64_to_string(0), "0");
    assert_eq!(u64_to_string(7), "7");
    assert_eq!(u64_to_string(12034), "12034");
    assert_eq!(i32_to_string(-7), "-7");
    assert_eq!(i32_to_string(0), "0");
    assert_eq!(i32_to_string(i32::MIN), "-2147483648");
    assert_eq!(i32_to_string(i32::MAX), "2147483647");
}

#[test]
fn decimal_parsing() {
    assert_eq!(parse_i32("123"), Some(123));
    assert_eq!(parse_i32("-5"), Some(-5));
    assert_eq!(parse_i32("0"), Some(0));
    assert_eq!(parse_i32("2147483647"), Some(2147483647));
    assert_eq!(parse_i32("2147483648"), None);
    assert_eq!(parse_i32("-2147483648"), Some(i32::MIN));
    assert_eq!(parse_i32("-2147483649"), None);
    assert_eq!(parse_i32(""), None);
    assert_eq!(parse_i32("-"), None);
    assert_eq!(parse_i32("12a"), None);
    assert_eq!(parse_i32("99999999999999999999"), None);
}

#[test]
fn haskell_rendering() {
    let e = add(var("x"), Operation::IntLit(-3));
    assert_eq!(e.to_haskell(), "x + -3");
    let b = Operation::And(
        Box::new(Operation::BoolLit(true)),
        Box::new(Operation::Not(Box::new(var("p")))),
    );
    assert_eq!(b.to_haskell(), "True && not p");
    let c = Operation::Neq(Box::new(var("a")), Box::new(var("b")));
    assert_eq!(c.to_haskell(), "a /= b");
}

#[test]
fn infix_accessors() {
    let e = gt(var("a"), var("b"));
    assert!(e.is_infix());
    assert_eq!(e.left(), Some(&var("a")));
    assert_eq!(e.right(), Some(&var("b")));
    let leaf = Operation::IntLit(1);
    assert!(!leaf.is_infix());
    assert_eq!(leaf.left(), None);
    assert_eq!(leaf.right(), None);
    let neg = Operation::Not(Box::new(var("p")));
    assert!(!neg.is_infix());
    assert_eq!(neg.left(), None);
}

#[test]
fn precedence_classes() {
    assert_eq!(prec(BinOp::Add), 1);
    assert_eq!(prec(BinOp::Sub), 1);
    assert_eq!(prec(BinOp::Gt), 2);
    assert_eq!(prec(BinOp::Mul), 2);
    assert_eq!(prec(BinOp::And), 3);
    assert_eq!(prec(BinOp::Or), 3);
}

// The naive left-linear capture of `a + b > c` arrives as Add(a, Gt(b, c));
// one rotation must repair it to Gt(Add(a, b), c).
#[test]
fn rotation_repairs_inverted_parse() {
    let naive = add(var("a"), gt(var("b"), var("c")));
    let repaired = normalize(naive);
    assert_eq!(repaired, gt(add(var("a"), var("b")), var("c")));
}

// A tree with no precedence inversion is a fixed point of normalization.
#[test]
fn rotation_fixed_points() {
    let plain = gt(var("a"), var("b"));
    assert_eq!(normalize(gt(var("a"), var("b"))), plain);
    let leaf = Operation::IntLit(4);
    assert_eq!(normalize(Operation::IntLit(4)), leaf);
    // The right child binds no tighter than the parent: no rotation.
    let same = add(var("a"), add(var("b"), var("c")));
    assert_eq!(normalize(add(var("a"), add(var("b"), var("c")))), same);
}

// Logical connectives are treated as the tightest class, so a connective in
// right-child position rotates inward past a comparison.
#[test]
fn rotation_moves_connective_inward() {
    let naive = gt(
        var("a"),
        Operation::And(Box::new(var("b")), Box::new(var("c"))),
    );
    let repaired = normalize(naive);
    assert_eq!(
        repaired,
        Operation::And(Box::new(gt(var("a"), var("b"))), Box::new(var("c"))),
    );
}

// Normalization is a single rotation per node: it does not recurse into the
// subtrees of a tree whose root needs no rotation.
#[test]
fn rotation_is_single_step() {
    let deep = add(var("a"), add(var("b"), gt(var("c"), var("d"))));
    let out = normalize(add(var("a"), add(var("b"), gt(var("c"), var("d")))));
    assert_eq!(out, deep);
}

#[test]
fn substitute_replaces_every_occurrence() {
    let body = gt(add(var("x"), var("x")), Operation::IntLit(10));
    let out = substitute(&body, "x", &var("f"));
    assert_eq!(out, gt(add(var("f"), var("f")), Operation::IntLit(10)));
    // Other names are untouched.
    let out2 = substitute(&body, "y", &var("f"));
    assert_eq!(out2, body);
}

// A local helper clause `isBig x = x > 10` applied as `isBig(f)` must produce
// the same tree as substituting `f` for `x` in `x > 10`, i.e. `f > 10`.
#[test]
fn application_inlining_single_clause() {
    let helper = Func {
        con: FuncInput { prefix: "isBig".to_string(), input: vec!["x".to_string()] },
        opp: gt(var("x"), Operation::IntLit(10)),
    };
    let locals = vec![helper];
    let inlined = inline_apply(&locals, "isBig", &var("f")).unwrap();
    let direct = substitute(&gt(var("x"), Operation::IntLit(10)), "x", &var("f"));
    assert_eq!(inlined, direct);
    assert_eq!(inlined, gt(var("f"), Operation::IntLit(10)));
}

// A helper that itself pattern-matches: the substituted bodies combine with Or.
#[test]
fn application_inlining_several_clauses() {
    let c1 = Func {
        con: FuncInput { prefix: "p".to_string(), input: vec!["x".to_string()] },
        opp: gt(var("x"), Operation::IntLit(1)),
    };
    let c2 = Func {
        con: FuncInput { prefix: "p".to_string(), input: vec!["y".to_string()] },
        opp: Operation::Lt(Box::new(var("y")), Box::new(Operation::IntLit(9))),
    };
    let locals = vec![c1, c2];
    let inlined = inline_apply(&locals, "p", &var("f")).unwrap();
    let expected = Operation::Or(
        Box::new(gt(var("f"), Operation::IntLit(1))),
        Box::new(Operation::Lt(Box::new(var("f")), Box::new(Operation::IntLit(9)))),
    );
    assert_eq!(inlined, expected);
}

#[test]
fn application_without_binding_fails() {
    let locals: Vec<Func> = Vec::new();
    let r = inline_apply(&locals, "missing", &var("f"));
    assert_eq!(r, Err(TransError::UnresolvedName("missing".to_string())));
    assert_eq!(
        r.unwrap_err().message(),
        "unresolved name: missing"
    );
}

#[test]
fn clause_without_parameter_fails() {
    let helper = Func {
        con: FuncInput { prefix: "always".to_string(), input: vec![] },
        opp: Operation::BoolLit(true),
    };
    let locals = vec![helper];
    let r = inline_apply(&locals, "always", &var("f"));
    assert_eq!(r, Err(TransError::Structure("always".to_string())));
}

#[test]
fn dup_is_deep_equality() {
    let f = Func {
        con: FuncInput { prefix: "C".to_string(), input: vec!["a".to_string()] },
        opp: gt(var("a"), Operation::IntLit(2)),
    };
    let g = f.dup();
    assert_eq!(f, g);
    let _ = Cons { prefix: "C".to_string(), types: vec![Type::Int, Type::Bool] };
}
