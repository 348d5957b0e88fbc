use randi_check::adt::{Operation, Type};
use randi_check::cst::{capture, children, Cst, CstNode};
use randi_check::error::TransError;
use randi_check::essence::essence;
use randi_check::haskell::{collect_haskell_adts, collect_haskell_functions, parse_operation};
use randi_check::parser::parse;
use randi_check::rust_parser::{collect_rust_adts, collect_rust_functions};

fn node(kind: &str, text: &str, depth: usize) -> CstNode {
    CstNode { kind: kind.to_string(), text: text.to_string(), depth }
}

/// A handmade tree in the shape the pattern-match grammar produces for
/// `data Shape = Circle Int | Square Int` with the predicate
/// `isValid (Circle r) = r > 3` / `isValid (Square s) = s < 3`.
fn shape_cst() -> Cst {
    Cst {
        nodes: vec![
            node("haskell", "", 0),
            node("declarations", "", 1),
            node("data_type", "data Shape = Circle Int | Square Int", 2),
            node("name", "Shape", 3),
            node("data_constructors", "", 3),
            node("data_constructor", "Circle Int", 4),
            node("constructor", "Circle", 5),
            node("name", "Int", 5),
            node("data_constructor", "Square Int", 4),
            node("constructor", "Square", 5),
            node("name", "Int", 5),
            node("signature", "isValid :: Shape -> Bool", 2),
            node("variable", "isValid", 3),
            node("name", "Shape", 3),
            node("name", "Bool", 3),
            node("function", "isValid (Circle r) = r > 3", 2),
            node("variable", "isValid", 3),
            node("patterns", "(Circle r)", 3),
            node("constructor", "Circle", 4),
            node("variable", "r", 4),
            node("match", "= r > 3", 3),
            node("=", "=", 4),
            node("infix", "r > 3", 4),
            node("variable", "r", 5),
            node("operator", ">", 5),
            node("literal", "3", 5),
            node("function", "isValid (Square s) = s < 3", 2),
            node("variable", "isValid", 3),
            node("patterns", "(Square s)", 3),
            node("constructor", "Square", 4),
            node("variable", "s", 4),
            node("match", "= s < 3", 3),
            node("=", "=", 4),
            node("infix", "s < 3", 4),
            node("variable", "s", 5),
            node("operator", "<", 5),
            node("literal", "3", 5),
        ],
    }
}

#[test]
fn capture_and_children() {
    let cst = shape_cst();
    let n = cst.len();
    let data = capture(&cst, 0, n, "data_type");
    assert_eq!(data, vec![2]);
    assert_eq!(cst.subtree_end(2), 11);
    let kids = children(&cst, 2);
    assert_eq!(kids, vec![3, 4]);
    let cons = capture(&cst, 3, 11, "data_constructor");
    assert_eq!(cons, vec![5, 8]);
}

#[test]
fn haskell_adt_extraction() {
    let cst = shape_cst();
    let adt = collect_haskell_adts(&cst).unwrap();
    assert_eq!(adt.name, "Shape");
    assert_eq!(adt.constructors.len(), 2);
    assert_eq!(adt.constructors[0].prefix, "Circle");
    assert_eq!(adt.constructors[0].types, vec![Type::Int]);
    assert_eq!(adt.constructors[1].prefix, "Square");
}

#[test]
fn haskell_clause_extraction() {
    let cst = shape_cst();
    let funcs = collect_haskell_functions(&cst, "Shape").unwrap();
    assert_eq!(funcs.len(), 2);
    assert_eq!(funcs[0].con.prefix, "Circle");
    assert_eq!(funcs[0].con.input, vec!["r".to_string()]);
    assert_eq!(
        funcs[0].opp,
        Operation::Gt(
            Box::new(Operation::Var("r".to_string())),
            Box::new(Operation::IntLit(3)),
        )
    );
    assert_eq!(funcs[1].con.prefix, "Square");
}

// Constructor tag names must be unique within the Adt.
#[test]
fn haskell_duplicate_constructor_rejected() {
    let mut cst = shape_cst();
    cst.nodes[9] = node("constructor", "Circle", 5);
    let r = collect_haskell_adts(&cst);
    assert_eq!(r, Err(TransError::Structure("Circle".to_string())));
}

#[test]
fn rust_duplicate_variant_rejected() {
    let mut cst = rust_cst();
    cst.nodes[10] = node("identifier", "A", 4);
    let r = collect_rust_adts(&cst);
    assert_eq!(r, Err(TransError::Structure("A".to_string())));
}

#[test]
fn haskell_two_adts_rejected() {
    let mut cst = shape_cst();
    cst.nodes.push(node("data_type", "data Other = O", 2));
    let r = collect_haskell_adts(&cst);
    assert_eq!(r, Err(TransError::Structure("data_type".to_string())));
}

#[test]
fn haskell_unknown_type_rejected() {
    let mut cst = shape_cst();
    cst.nodes[7] = node("name", "Float", 5);
    let r = collect_haskell_adts(&cst);
    assert_eq!(r, Err(TransError::UnsupportedConstruct("Float".to_string())));
}

#[test]
fn haskell_unknown_operator_rejected() {
    let mut cst = shape_cst();
    cst.nodes[24] = node("operator", "^", 5);
    let r = collect_haskell_functions(&cst, "Shape");
    assert_eq!(r, Err(TransError::UnsupportedConstruct("^".to_string())));
}

// The arm body `x + y > 3`, captured left-linearly by the grammar as
// Add(x, Gt(y, 3)), is repaired at construction.
#[test]
fn haskell_parse_applies_normalizer() {
    let cst = Cst {
        nodes: vec![
            node("infix", "x + y > 3", 0),
            node("variable", "x", 1),
            node("operator", "+", 1),
            node("infix", "y > 3", 1),
            node("variable", "y", 2),
            node("operator", ">", 2),
            node("literal", "3", 2),
        ],
    };
    let locals = Vec::new();
    let op = parse_operation(&cst, 0, &locals, cst.len()).unwrap();
    assert_eq!(
        op,
        Operation::Gt(
            Box::new(Operation::Add(
                Box::new(Operation::Var("x".to_string())),
                Box::new(Operation::Var("y".to_string())),
            )),
            Box::new(Operation::IntLit(3)),
        )
    );
}

// A helper clause defined before the predicate is inlined at its application.
#[test]
fn haskell_application_inlined() {
    let cst = Cst {
        nodes: vec![
            node("haskell", "", 0),
            node("data_type", "data T = C Int", 1),
            node("name", "T", 2),
            node("data_constructor", "C Int", 2),
            node("constructor", "C", 3),
            node("name", "Int", 3),
            node("signature", "isBig :: Int -> Bool", 1),
            node("name", "Int", 2),
            node("name", "Bool", 2),
            node("function", "isBig x = x > 10", 1),
            node("variable", "isBig", 2),
            node("patterns", "x", 2),
            node("variable", "x", 3),
            node("match", "= x > 10", 2),
            node("=", "=", 3),
            node("infix", "x > 10", 3),
            node("variable", "x", 4),
            node("operator", ">", 4),
            node("literal", "10", 4),
            node("signature", "p :: T -> Bool", 1),
            node("variable", "p", 2),
            node("name", "T", 2),
            node("name", "Bool", 2),
            node("function", "p (C f) = isBig f", 1),
            node("variable", "p", 2),
            node("patterns", "(C f)", 2),
            node("constructor", "C", 3),
            node("variable", "f", 3),
            node("match", "= isBig f", 2),
            node("=", "=", 3),
            node("apply", "isBig f", 3),
            node("variable", "isBig", 4),
            node("variable", "f", 4),
        ],
    };
    let funcs = collect_haskell_functions(&cst, "T").unwrap();
    assert_eq!(funcs.len(), 1);
    assert_eq!(funcs[0].con.prefix, "C");
    assert_eq!(
        funcs[0].opp,
        Operation::Gt(
            Box::new(Operation::Var("f".to_string())),
            Box::new(Operation::IntLit(10)),
        )
    );
}

/// A handmade tree in the shape the enum-and-match grammar produces for the
/// enum `test { A(i32), B(bool) }` with `test_fun` matching both arms.
fn rust_cst() -> Cst {
    Cst {
        nodes: vec![
            node("source_file", "", 0),
            node("enum_item", "enum test { A(i32), B(bool) }", 1),
            node("enum", "enum", 2),
            node("type_identifier", "test", 2),
            node("enum_variant_list", "{ A(i32), B(bool) }", 2),
            node("enum_variant", "A(i32)", 3),
            node("identifier", "A", 4),
            node("ordered_field_declaration_list", "(i32)", 4),
            node("primitive_type", "i32", 5),
            node("enum_variant", "B(bool)", 3),
            node("identifier", "B", 4),
            node("ordered_field_declaration_list", "(bool)", 4),
            node("primitive_type", "bool", 5),
            node("function_item", "fn test_fun ...", 1),
            node("identifier", "test_fun", 2),
            node("block", "{ ... }", 2),
            node("match_expression", "match x { ... }", 3),
            node("identifier", "x", 4),
            node("match_block", "{ ... }", 4),
            node("match_arm", "test::A(n) => n < 5,", 5),
            node("tuple_struct_pattern", "test::A(n)", 6),
            node("scoped_identifier", "test::A", 7),
            node("identifier", "test", 8),
            node("identifier", "A", 8),
            node("identifier", "n", 7),
            node("=>", "=>", 6),
            node("binary_expression", "n < 5", 6),
            node("identifier", "n", 7),
            node("<", "<", 7),
            node("integer_literal", "5", 7),
            node("match_arm", "test::B(b) => b,", 5),
            node("tuple_struct_pattern", "test::B(b)", 6),
            node("scoped_identifier", "test::B", 7),
            node("identifier", "test", 8),
            node("identifier", "B", 8),
            node("identifier", "b", 7),
            node("=>", "=>", 6),
            node("identifier", "b", 6),
        ],
    }
}

#[test]
fn rust_adt_extraction() {
    let cst = rust_cst();
    let adt = collect_rust_adts(&cst).unwrap();
    assert_eq!(adt.name, "test");
    assert_eq!(adt.constructors.len(), 2);
    assert_eq!(adt.constructors[0].prefix, "A");
    assert_eq!(adt.constructors[0].types, vec![Type::Int]);
    assert_eq!(adt.constructors[1].prefix, "B");
    assert_eq!(adt.constructors[1].types, vec![Type::Bool]);
}

#[test]
fn rust_clause_extraction() {
    let cst = rust_cst();
    let funcs = collect_rust_functions(&cst, "test").unwrap();
    assert_eq!(funcs.len(), 2);
    assert_eq!(funcs[0].con.prefix, "A");
    assert_eq!(funcs[0].con.input, vec!["n".to_string()]);
    assert_eq!(
        funcs[0].opp,
        Operation::Lt(
            Box::new(Operation::Var("n".to_string())),
            Box::new(Operation::IntLit(5)),
        )
    );
    // A bare boolean-valued variable reference is just a Var leaf.
    assert_eq!(funcs[1].con.prefix, "B");
    assert_eq!(funcs[1].opp, Operation::Var("b".to_string()));
}

#[test]
fn unsupported_file_type_rejected() {
    let r = parse("anything", "idr", false);
    assert_eq!(r, Err(TransError::UnsupportedConstruct("idr".to_string())));
    let r2 = parse("anything", "txt", false);
    assert_eq!(r2, Err(TransError::UnsupportedConstruct("txt".to_string())));
}

// End to end through the real grammar of the pattern-match notation.
#[test]
fn parse_haskell_source_end_to_end() {
    let source = "module Main where\n\ndata Shape = Circle Int | Square Int\n\nisValid :: Shape -> Bool\nisValid (Circle r) = r > 3\nisValid (Square s) = s < 3\n";
    let (adt, funcs) = parse(source, "hs", false).unwrap();
    assert_eq!(adt.name, "Shape");
    assert_eq!(adt.constructors.len(), 2);
    assert_eq!(adt.constructors[0].prefix, "Circle");
    assert_eq!(adt.constructors[1].prefix, "Square");
    assert_eq!(funcs.len(), 2);
    assert_eq!(funcs[0].con.prefix, "Circle");
    assert_eq!(funcs[0].con.input, vec!["r".to_string()]);
    let text = essence(&adt, &funcs, 1, 5).unwrap();
    assert!(text.contains("find tag : int(1..2)"));
    assert!(text.contains("(Circle_1 > 3 /\\ tag = 1 /\\ Square_1 = 1)"));
}

// End to end through the real grammar of the enum-and-match notation.
#[test]
fn parse_rust_source_end_to_end() {
    let source = "enum test {\n    A(i32),\n    B(bool),\n}\n\nfn test_fun(x: test) -> bool {\n    match x {\n        test::A(n) => n < 5,\n        test::B(b) => b,\n    }\n}\n";
    let (adt, funcs) = parse(source, "rs", false).unwrap();
    assert_eq!(adt.name, "test");
    assert_eq!(adt.constructors.len(), 2);
    assert_eq!(funcs.len(), 2);
    assert_eq!(funcs[0].con.prefix, "A");
    assert_eq!(funcs[0].con.input, vec!["n".to_string()]);
    assert_eq!(funcs[1].opp, Operation::Var("b".to_string()));
    let text = essence(&adt, &funcs, 1, 5).unwrap();
    assert!(text.contains("(A_1 < 5 /\\ tag = 1 /\\ B_1 = false)"));
    assert!(text.contains("(B_1 /\\ tag = 2 /\\ A_1 = 1)"));
}
