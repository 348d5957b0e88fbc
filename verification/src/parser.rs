//! The parse entry point: hands the source text to the grammar library of
//! the selected notation, mirrors the resulting concrete syntax tree as the
//! library's own pre-order node list, and runs the notation's frontend
//! adapter over it.

use crate::adt::{funcs_view, Adt, AdtView, Func, FuncView};
use crate::cst::{Cst, CstNode, CstNodeView};
use crate::error::{ErrView, TransError};
use crate::haskell::{collect_haskell_adts, collect_haskell_functions, spec_collect_haskell_adts,
    spec_collect_haskell_functions};
use crate::rust_parser::{collect_rust_adts, collect_rust_functions, spec_collect_rust_adts,
    spec_collect_rust_functions};
use crate::strings::str_eq;
use vstd::prelude::*;

verus! {

#[verifier::external_type_specification]
#[verifier::external_body]
pub struct ExTree(tree_sitter::Tree);

/// The concrete syntax tree that the pattern-match grammar assigns to a
/// source text, flattened to pre-order, or nothing when the parser cannot
/// run. In a given build the grammar is fixed, so the tree is a function of
/// the source text alone.
pub uninterp spec fn hs_cst_of(source: Seq<char>) -> Option<Seq<CstNodeView>>;

/// The concrete syntax tree that the enum-and-match grammar assigns to a
/// source text, flattened to pre-order, or nothing when the parser cannot
/// run. In a given build the grammar is fixed, so the tree is a function of
/// the source text alone.
pub uninterp spec fn rs_cst_of(source: Seq<char>) -> Option<Seq<CstNodeView>>;

/// Relies on `tree_sitter::TreeCursor` (`goto_first_child`,
/// `goto_next_sibling`, `goto_parent`) and `tree_sitter::Node` (`kind`,
/// `start_byte`, `end_byte`) to walk a parse tree in pre-order, mirroring
/// each node one for one as its kind name, the source text of its byte range,
/// and its depth below the root.
#[verifier::external_body]
fn flatten_tree(tree: &tree_sitter::Tree, source: &str) -> (r: Vec<CstNode>) {
    let mut out: Vec<CstNode> = Vec::new();
    let mut cursor = tree.root_node().walk();
    let mut depth: usize = 0;
    loop {
        let n = cursor.node();
        let text = source.get(n.start_byte()..n.end_byte()).unwrap_or("").to_string();
        out.push(CstNode { kind: n.kind().to_string(), text, depth });
        if cursor.goto_first_child() { depth += 1; continue; }
        while !cursor.goto_next_sibling() {
            if !cursor.goto_parent() { return out; }
            depth -= 1;
        }
    }
}

/// Relies on `tree_sitter::Parser::set_language` and
/// `tree_sitter::Parser::parse` with the grammar of
/// `tree_sitter_haskell::LANGUAGE`: parses the source text into the concrete
/// syntax tree named `hs_cst_of`, mirrored in pre-order by `flatten_tree`.
/// The parse is deterministic, so the result depends on the source alone.
#[verifier::external_body]
fn parse_haskell_cst(source: &str) -> (r: Option<Vec<CstNode>>)
    ensures
        match r {
            Some(nodes) => hs_cst_of(source@) == Some(nodes@.map_values(|n: CstNode| n@)),
            None => hs_cst_of(source@) is None,
        },
{
    let mut parser = tree_sitter::Parser::new();
    if parser.set_language(&tree_sitter_haskell::LANGUAGE.into()).is_err() {
        return None;
    }
    Some(flatten_tree(&parser.parse(source, None)?, source))
}

/// Relies on `tree_sitter::Parser::set_language` and
/// `tree_sitter::Parser::parse` with the grammar of
/// `tree_sitter_rust::LANGUAGE`: parses the source text into the concrete
/// syntax tree named `rs_cst_of`, mirrored in pre-order by `flatten_tree`.
/// The parse is deterministic, so the result depends on the source alone.
#[verifier::external_body]
fn parse_rust_cst(source: &str) -> (r: Option<Vec<CstNode>>)
    ensures
        match r {
            Some(nodes) => rs_cst_of(source@) == Some(nodes@.map_values(|n: CstNode| n@)),
            None => rs_cst_of(source@) is None,
        },
{
    let mut parser = tree_sitter::Parser::new();
    if parser.set_language(&tree_sitter_rust::LANGUAGE.into()).is_err() {
        return None;
    }
    Some(flatten_tree(&parser.parse(source, None)?, source))
}

/// The result of parsing a source text in the pattern-match notation: the
/// adapter's output on the grammar's tree of that text, or a structure
/// failure when the parser cannot run.
pub open spec fn spec_parse_haskell(source: Seq<char>) -> Result<(AdtView, Seq<FuncView>), ErrView> {
    match hs_cst_of(source) {
        None => Err(ErrView::Structure("parse"@)),
        Some(ns) => match spec_collect_haskell_adts(ns) {
            Err(e) => Err(e),
            Ok(a) => match spec_collect_haskell_functions(ns, a.name) {
                Err(e) => Err(e),
                Ok(fs) => Ok((a, fs)),
            },
        },
    }
}

/// The result of parsing a source text in the enum-and-match notation: the
/// adapter's output on the grammar's tree of that text, or a structure
/// failure when the parser cannot run.
pub open spec fn spec_parse_rust(source: Seq<char>) -> Result<(AdtView, Seq<FuncView>), ErrView> {
    match rs_cst_of(source) {
        None => Err(ErrView::Structure("parse"@)),
        Some(ns) => match spec_collect_rust_adts(ns) {
            Err(e) => Err(e),
            Ok(a) => match spec_collect_rust_functions(ns) {
                Err(e) => Err(e),
                Ok(fs) => Ok((a, fs)),
            },
        },
    }
}

/// The mathematical value of a parse result.
pub open spec fn parse_res_view(r: Result<(Adt, Vec<Func>), TransError>) -> Result<
    (AdtView, Seq<FuncView>),
    ErrView,
> {
    match r {
        Ok(p) => Ok((p.0@, funcs_view(p.1@))),
        Err(e) => Err(e@),
    }
}

/// Parse a source file in the selected notation into the normalized model:
/// the single ADT declaration and the predicate's clauses, exactly as the
/// selected frontend adapter reads the grammar's tree of the given source.
/// The adapter is selected by the caller-supplied file type alone; a file
/// type outside the supported set is rejected.
pub fn parse(source_code: &str, file_type: &str, _verbose: bool) -> (r: Result<
    (Adt, Vec<Func>),
    TransError,
>)
    ensures
        file_type@ == "hs"@ ==> parse_res_view(r) == spec_parse_haskell(source_code@),
        file_type@ == "rs"@ ==> parse_res_view(r) == spec_parse_rust(source_code@),
        file_type@ != "hs"@ && file_type@ != "rs"@ ==> (r matches Err(e) && e@
            == ErrView::UnsupportedConstruct(file_type@)),
{
    proof {
        reveal_strlit("hs");
        reveal_strlit("rs");
        assert("hs"@[0] == 'h');
        assert("rs"@[0] == 'r');
        assert("hs"@ != "rs"@);
    }
    if str_eq(file_type, "hs") {
        let nodes = match parse_haskell_cst(source_code) {
            None => {
                return Err(TransError::Structure(String::from_str("parse")));
            },
            Some(nodes) => nodes,
        };
        let cst = Cst { nodes };
        proof {
            assert(hs_cst_of(source_code@) == Some(cst@));
        }
        let adt = match collect_haskell_adts(&cst) {
            Err(e) => {
                return Err(e);
            },
            Ok(a) => a,
        };
        match collect_haskell_functions(&cst, adt.name.as_str()) {
            Err(e) => Err(e),
            Ok(funcs) => Ok((adt, funcs)),
        }
    } else if str_eq(file_type, "rs") {
        let nodes = match parse_rust_cst(source_code) {
            None => {
                return Err(TransError::Structure(String::from_str("parse")));
            },
            Some(nodes) => nodes,
        };
        let cst = Cst { nodes };
        proof {
            assert(rs_cst_of(source_code@) == Some(cst@));
        }
        let adt = match collect_rust_adts(&cst) {
            Err(e) => {
                return Err(e);
            },
            Ok(a) => a,
        };
        match collect_rust_functions(&cst, adt.name.as_str()) {
            Err(e) => Err(e),
            Ok(funcs) => Ok((adt, funcs)),
        }
    } else {
        Err(TransError::UnsupportedConstruct(String::from_str(file_type)))
    }
}

} // verus!
