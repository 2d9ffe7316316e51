//! The calls into tree-sitter that highlighting makes.

use tree_sitter::{Parser, Query, QueryCursor, StreamingIterator};
use vstd::prelude::*;
use crate::rope::utf8_len;
use crate::syntax::captures_end_by;

verus! {

#[verifier::external_type_specification]
#[verifier::external_body]
pub struct ExParser(Parser);

#[verifier::external_type_specification]
#[verifier::external_body]
pub struct ExQuery(Query);

/// The captures that the bundled Python highlight query produces over
/// `source`, in tree-sitter's capture-iteration order: each capture's name
/// and the byte range of the node it captured. `None` if the parse gave no
/// tree.
pub uninterp spec fn python_highlight_captures(source: Seq<char>) -> Option<Seq<(Seq<char>, usize, usize)>>;

/// `Parser::new` followed by `Parser::set_language` with the grammar bundled
/// in `tree-sitter-python`. Nothing is claimed of the parser; the bundled
/// grammar is built for this tree-sitter version, so loading it succeeds.
#[verifier::external_body]
pub(crate) fn new_python_parser() -> Parser {
    let mut parser = Parser::new();
    parser.set_language(&tree_sitter_python::LANGUAGE.into()).expect("bundled tree-sitter-python grammar failed to load");
    parser
}

/// `Query::new` over the `highlights.scm` query bundled in
/// `tree-sitter-python`. Nothing is claimed of the compiled query.
#[verifier::external_body]
pub(crate) fn new_python_highlights_query() -> Query {
    Query::new(&tree_sitter_python::LANGUAGE.into(), tree_sitter_python::HIGHLIGHTS_QUERY)
        .expect("bundled tree-sitter-python highlights.scm failed to compile")
}

/// `Parser::parse` of `source` from scratch, then `QueryCursor::captures`
/// of the highlight query over the tree's root, each capture turned into
/// its capture name and node byte range. The contract claims that the
/// result is `python_highlight_captures` of the source: it depends on the
/// source alone, since the parser always holds the bundled Python grammar,
/// the query is the bundled highlight query, and no old tree is reused.
/// Each capture is a node of the tree parsed from `source`, so its byte
/// range is ordered and ends within the source's UTF-8 bytes.
#[verifier::external_body]
pub(crate) fn python_captures(parser: &mut Parser, query: &Query, source: &str) -> (r: Option<Vec<(String, usize, usize)>>)
    ensures
        r.deep_view() == python_highlight_captures(source@),
        r.deep_view() matches Some(c) ==> captures_end_by(c, utf8_len(source@) as int),
{
    let tree = parser.parse(source, None)?;
    let mut cursor = QueryCursor::new();
    let mut captures = cursor.captures(query, tree.root_node(), source.as_bytes());
    let mut out = Vec::new();
    while let Some((mat, capture_index)) = captures.next() {
        let capture = mat.captures()[*capture_index];
        let name = query.capture_names()[capture.index as usize];
        out.push((name.to_string(), capture.node.start_byte(), capture.node.end_byte()));
    }
    Some(out)
}

} // verus!
