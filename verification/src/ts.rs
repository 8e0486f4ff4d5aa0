//! Trusted boundary around the tree-sitter parsing library.
//!
//! Everything the library learns about grammars, compiled queries and query
//! execution is stated here, as contracts on thin wrappers around tree-sitter
//! calls. Verified code elsewhere relies on these contracts alone. Each of
//! these outside results is a function of its arguments alone — the grammars
//! are static values, and compilation, parsing and matching are deterministic
//! with no timeout or cancellation set — so each result carries a name that
//! the callers' contracts are stated over.

use vstd::prelude::*;
use tree_sitter::Language as TsLanguage;
use crate::language::Language;

verus! {

#[verifier::external_type_specification]
#[verifier::external_body]
pub struct ExTsLanguage(TsLanguage);

#[verifier::external_type_specification]
#[verifier::external_body]
pub struct ExTsQuery(tree_sitter::Query);

/// The grammar value a language tag owns: the static grammar that the
/// language's binding crate returns on every call.
pub uninterp spec fn grammar_of(lang: Language) -> TsLanguage;

/// The compiled query that a grammar and a query source yield, or None when
/// compilation fails; compilation is deterministic in its two arguments.
pub uninterp spec fn compiled_query(g: TsLanguage, source: Seq<char>) -> Option<
    tree_sitter::Query,
>;

/// The capture names a compiled query holds, in capture-index order.
pub uninterp spec fn query_capture_labels(q: tree_sitter::Query) -> Seq<Seq<char>>;

/// The capture indices that parsing `code` with grammar `g` and running `q`
/// over the tree reports, one per capture occurrence, or None when the
/// grammar rejects the parser or the content yields no tree.
pub uninterp spec fn match_indices(g: TsLanguage, q: tree_sitter::Query, code: Seq<char>) -> Option<
    Seq<u32>,
>;

/// Relies on tree_sitter_python::language: hands out the Python grammar, the
/// same static value on every call.
#[verifier::external_body]
pub(crate) fn python_grammar() -> (r: TsLanguage)
    ensures
        r == grammar_of(Language::Python),
{
    tree_sitter_python::language()
}

/// Relies on tree_sitter_rust::language: hands out the Rust grammar, the same
/// static value on every call.
#[verifier::external_body]
pub(crate) fn rust_grammar() -> (r: TsLanguage)
    ensures
        r == grammar_of(Language::Rust),
{
    tree_sitter_rust::language()
}

/// Relies on tree_sitter::Query::new: compiles a query from its source text
/// against a grammar; fails on malformed source or a grammar mismatch, and
/// does either deterministically in the grammar and source.
#[verifier::external_body]
pub(crate) fn compile_query(lang: TsLanguage, source: &str) -> (r: Option<tree_sitter::Query>)
    ensures
        r == compiled_query(lang, source@),
{
    tree_sitter::Query::new(lang, source).ok()
}

/// Relies on tree_sitter::Query::capture_names: the names of the query's
/// captures, indexed by capture index.
#[verifier::external_body]
pub(crate) fn capture_names(q: &tree_sitter::Query) -> (r: Vec<String>)
    ensures
        r.deep_view() == query_capture_labels(*q),
{
    q.capture_names().to_vec()
}

/// Relies on tree_sitter::Parser::parse and tree_sitter::QueryCursor::matches:
/// parses the content with the grammar, runs the query over the tree, and
/// hands back one capture index per capture occurrence — the named match
/// result. Every index tree-sitter reports indexes into the query's capture
/// names. Returns None when the grammar rejects the parser or the content
/// yields no tree.
#[verifier::external_body]
pub(crate) fn run_query(lang: TsLanguage, q: &tree_sitter::Query, code: &str) -> (r: Option<
    Vec<u32>,
>)
    ensures
        r is Some <==> match_indices(lang, *q, code@) is Some,
        r matches Some(v) ==> v@ == match_indices(lang, *q, code@)->Some_0,
        r matches Some(v) ==> forall|i: int|
            0 <= i < v@.len() ==> v@[i] < query_capture_labels(*q).len(),
{
    let mut parser = tree_sitter::Parser::new();
    parser.set_language(lang).ok()?;
    let tree = parser.parse(code, None)?;
    let mut cursor = tree_sitter::QueryCursor::new();
    let mut out = Vec::new();
    for m in cursor.matches(q, tree.root_node(), code.as_bytes()) {
        for c in m.captures {
            out.push(c.index);
        }
    }
    Some(out)
}

} // verus!
