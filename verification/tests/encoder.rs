use randi_check::adt::{Adt, Cons, Func, FuncInput, Operation, Type};
use randi_check::codegen::output;
use randi_check::error::TransError;
use randi_check::essence::{convert_variables, encode, essence, render, Domain};

fn var(n: &str) -> Operation {
    Operation::Var(n.to_string())
}

fn shape_adt() -> Adt {
    Adt {
        name: "Shape".to_string(),
        constructors: vec![
            Cons { prefix: "Circle".to_string(), types: vec![Type::Int] },
            Cons { prefix: "Square".to_string(), types: vec![Type::Int] },
        ],
    }
}

fn shape_funcs() -> Vec<Func> {
    vec![
        Func {
            con: FuncInput { prefix: "Circle".to_string(), input: vec!["r".to_string()] },
            opp: Operation::Gt(Box::new(var("r")), Box::new(Operation::IntLit(3))),
        },
        Func {
            con: FuncInput { prefix: "Square".to_string(), input: vec!["s".to_string()] },
            opp: Operation::Lt(Box::new(var("s")), Box::new(Operation::IntLit(3))),
        },
    ]
}

// Tag range: with two constructors the tag domain is 1..2 and each disjunct
// constrains tag to its clause's 1-based constructor position.
#[test]
fn tag_range() {
    let adt = shape_adt();
    let funcs = shape_funcs();
    let spec = encode(&adt, &funcs, 1, 5).unwrap();
    assert_eq!(spec.tag_count, 2);
    assert_eq!(spec.disjuncts.len(), 2);
    assert_eq!(spec.disjuncts[0].tag, 1);
    assert_eq!(spec.disjuncts[1].tag, 2);
}

// Zeroing completeness: each disjunct fixes every other constructor's fields.
#[test]
fn zeroing_completeness() {
    let adt = shape_adt();
    let funcs = shape_funcs();
    let spec = encode(&adt, &funcs, 1, 5).unwrap();
    let d0 = &spec.disjuncts[0];
    assert_eq!(d0.zeros.len(), 1);
    assert_eq!(d0.zeros[0].prefix, "Square");
    assert_eq!(d0.zeros[0].index, 1);
    assert_eq!(d0.zeros[0].ty, Type::Int);
    assert_eq!(d0.zeros[0].min, 1);
    let d1 = &spec.disjuncts[1];
    assert_eq!(d1.zeros.len(), 1);
    assert_eq!(d1.zeros[0].prefix, "Circle");
}

// Name resolution: a variable reference becomes prefix_i with i its 1-based
// position in the bound-input list, and translation is deterministic.
#[test]
fn name_resolution() {
    let con = FuncInput {
        prefix: "Pair".to_string(),
        input: vec!["a".to_string(), "b".to_string()],
    };
    let once = convert_variables(&var("b"), &con).unwrap();
    let again = convert_variables(&var("b"), &con).unwrap();
    assert_eq!(once, "Pair_2");
    assert_eq!(once, again);
    assert_eq!(convert_variables(&var("a"), &con).unwrap(), "Pair_1");
}

#[test]
fn unresolved_variable_fails() {
    let con = FuncInput { prefix: "Pair".to_string(), input: vec!["a".to_string()] };
    let r = convert_variables(&var("z"), &con);
    assert_eq!(r, Err(TransError::UnresolvedName("z".to_string())));
}

#[test]
fn body_translation_dialect() {
    let con = FuncInput { prefix: "C".to_string(), input: vec!["x".to_string()] };
    let body = Operation::And(
        Box::new(Operation::Eq(Box::new(var("x")), Box::new(Operation::IntLit(4)))),
        Box::new(Operation::Not(Box::new(Operation::Neq(
            Box::new(var("x")),
            Box::new(Operation::IntLit(-2)),
        )))),
    );
    let text = convert_variables(&body, &con).unwrap();
    assert_eq!(text, "C_1 = 4 /\\ !(C_1 != -2)");
    let orbody = Operation::Or(
        Box::new(Operation::BoolLit(true)),
        Box::new(Operation::BoolLit(false)),
    );
    assert_eq!(convert_variables(&orbody, &con).unwrap(), "true \\/ false");
}

// Round trip: the full textual specification for the Shape example.
#[test]
fn round_trip_shape() {
    let adt = shape_adt();
    let funcs = shape_funcs();
    let text = essence(&adt, &funcs, 1, 5).unwrap();
    let expected = "language Essence 1.3\n\nfind Circle_1 : int(1..5)\nfind Square_1 : int(1..5)\nfind tag : int(1..2)\n\nsuch that\n\n(Circle_1 > 3 /\\ tag = 1 /\\ Square_1 = 1)\n \\/\n(Square_1 < 3 /\\ tag = 2 /\\ Circle_1 = 1)";
    assert_eq!(text, expected);
}

// Rejection: a clause naming a constructor absent from the Adt fails with an
// unknown-constructor error before any output is emitted.
#[test]
fn rejection_unknown_constructor() {
    let adt = shape_adt();
    let funcs = vec![Func {
        con: FuncInput { prefix: "Triangle".to_string(), input: vec!["t".to_string()] },
        opp: Operation::Gt(Box::new(var("t")), Box::new(Operation::IntLit(0))),
    }];
    let r = essence(&adt, &funcs, 1, 5);
    assert_eq!(r, Err(TransError::UnknownConstructor("Triangle".to_string())));
    assert_eq!(
        r.unwrap_err().message(),
        "unknown constructor: Triangle"
    );
}

// A single-constructor Adt still declares tag : int(1..1), and a clause whose
// constructor has no fields still emits its tag conjunct.
#[test]
fn degenerate_single_constructor_no_fields() {
    let adt = Adt {
        name: "Unit".to_string(),
        constructors: vec![Cons { prefix: "U".to_string(), types: vec![] }],
    };
    let funcs = vec![Func {
        con: FuncInput { prefix: "U".to_string(), input: vec![] },
        opp: Operation::BoolLit(true),
    }];
    let text = essence(&adt, &funcs, 1, 5).unwrap();
    let expected = "language Essence 1.3\n\nfind tag : int(1..1)\n\nsuch that\n\n(true /\\ tag = 1)";
    assert_eq!(text, expected);
}

// Boolean fields use the bool domain and zero to false; the bounded integer
// domain follows the given minimum and maximum.
#[test]
fn bool_fields_and_custom_range() {
    let adt = Adt {
        name: "Mix".to_string(),
        constructors: vec![
            Cons { prefix: "A".to_string(), types: vec![Type::Bool] },
            Cons { prefix: "B".to_string(), types: vec![Type::Int, Type::Int] },
        ],
    };
    let funcs = vec![Func {
        con: FuncInput { prefix: "A".to_string(), input: vec!["p".to_string()] },
        opp: var("p"),
    }];
    let text = essence(&adt, &funcs, -2, 7).unwrap();
    let expected = "language Essence 1.3\n\nfind A_1 : bool\nfind B_1 : int(-2..7)\nfind B_2 : int(-2..7)\nfind tag : int(1..2)\n\nsuch that\n\n(A_1 /\\ tag = 1 /\\ B_1 = -2 /\\ B_2 = -2)";
    assert_eq!(text, expected);
}

// The dispatcher hands the textual backend's result through, and rendering a
// structured specification matches the one-step text.
#[test]
fn output_dispatcher_matches_essence() {
    let adt = shape_adt();
    let funcs = shape_funcs();
    let direct = essence(&adt, &funcs, 1, 5).unwrap();
    let via_output = output(&adt, &funcs, false, false, 1, 5).unwrap();
    assert_eq!(direct, via_output);
    let structured = encode(&adt, &funcs, 1, 5).unwrap();
    assert_eq!(render(&structured), direct);
    assert_eq!(structured.finds.len(), 2);
    assert_eq!(structured.finds[0].domain, Domain::IntRange(1, 5));
}
