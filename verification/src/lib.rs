//! A standalone GraphQL query engine: lexing, parsing, standalone semantic
//! validation, and canonical formatting of executable documents.
use vstd::prelude::*;

pub mod ast;
pub mod lexer;
pub mod formatter;
pub mod parser;
pub mod validator;

verus! {

/// A 1-based source position, with the column counted in Unicode code points.
#[derive(Clone, Copy, PartialEq, Eq, Structural, Debug)]
pub struct Location {
    pub line: usize,
    pub column: usize,
}

/// A diagnostic produced by the parser or the validator: a message together
/// with the source locations of the offending constructs.
#[derive(Clone, Debug)]
pub struct ValidationError {
    pub message: String,
    pub locations: Vec<Location>,
}

/// Every location in a diagnostic is 1-based.
pub open spec fn wf_err_locs(e: ValidationError) -> bool {
    forall|k: int|
        0 <= k < e.locations@.len() ==> (#[trigger] e.locations@[k]).line >= 1
            && e.locations@[k].column >= 1
}

/// Parses and validates a query. `path` is an opaque label attached to
/// syntax diagnostics; it has no semantic effect. When the text fails the
/// specified parse, the result is exactly the path-tagged syntax
/// diagnostics; when it parses, validation succeeds exactly when the
/// specified rules produce no diagnostic for the parsed document, and the
/// error branch carries exactly those diagnostics, in order.
pub fn validate_query(query: String, path: String) -> (r: Result<(), Vec<ValidationError>>)
    ensures
        r matches Err(e) ==> e@.len() > 0,
        ({
            let ps = parser::parse_spec(query@);
            match ps {
                Result::Err(ds) => r matches Err(es) && validator::errs_view(es@)
                    == parser::tag_diags(path@, ds),
                Result::Ok(dv) => exists|d: ast::Document|
                    #[trigger] ast::dv_doc(d) == dv && ast::wf_document(d) && ((r is Ok) == (
                    validator::validate_spec(d).len() == 0)) && (r matches Err(es)
                        ==> validator::errs_view(es@) == validator::validate_spec(d)),
            }
        }),
{
    match parser::parse_query(query.as_str(), path.as_str()) {
        Ok(doc) => {
            let v = validator::validate_document(&doc);
            proof {
                let dv = ast::dv_doc(doc);
                assert(ast::dv_doc(doc) == dv && ast::wf_document(doc) && ((v is Ok) == (
                validator::validate_spec(doc).len() == 0)) && (v matches Err(es)
                    ==> validator::errs_view(es@) == validator::validate_spec(doc)));
            }
            v
        },
        Err(es) => Err(es),
    }
}

/// Formats a query into its canonical text. If the text fails the
/// specified parse it is returned verbatim, byte for byte; otherwise the
/// result is the canonical rendering of the parsed document.
pub fn format_query(query: String) -> (r: String)
    ensures
        ({
            let ps = parser::parse_spec(query@);
            match ps {
                Result::Err(_) => r@ == query@,
                Result::Ok(dv) => exists|d: ast::Document|
                    #[trigger] ast::dv_doc(d) == dv && ast::wf_document(d) && r@
                        == formatter::fmt_doc(d),
            }
        }),
{
    match parser::parse_query(query.as_str(), "query") {
        Ok(doc) => {
            let s = formatter::format_document(&doc);
            proof {
                let dv = ast::dv_doc(doc);
                assert(ast::dv_doc(doc) == dv && ast::wf_document(doc) && s@
                    == formatter::fmt_doc(doc));
            }
            s
        },
        Err(_) => query,
    }
}

/// Validation is deterministic and complete: the diagnostics of a document
/// are a function of the document alone, so any two diagnostic lists that
/// `validate_document` can return for the same document agree in messages,
/// locations and order.
pub proof fn lemma_validate_deterministic(
    d: ast::Document,
    e1: Seq<ValidationError>,
    e2: Seq<ValidationError>,
)
    requires
        validator::errs_view(e1) == validator::validate_spec(d),
        validator::errs_view(e2) == validator::validate_spec(d),
    ensures
        validator::errs_view(e1) == validator::errs_view(e2),
        e1.len() == e2.len(),
{
    assert(validator::errs_view(e1).len() == e1.len());
    assert(validator::errs_view(e2).len() == e2.len());
}

/// Formatting is deterministic: the canonical text is a function of the
/// document alone, so any two strings that `format_document` can return
/// for the same document are identical.
pub proof fn lemma_format_deterministic(d: ast::Document, s1: Seq<char>, s2: Seq<char>)
    requires
        s1 == formatter::fmt_doc(d),
        s2 == formatter::fmt_doc(d),
    ensures
        s1 == s2,
{
}

/// The contract of `parse_query`, restated over spec values: the result
/// is pinned by the specified parse of the text.
pub open spec fn parse_pin(
    src: Seq<char>,
    path: Seq<char>,
    r: Result<ast::Document, Seq<ValidationError>>,
) -> bool {
    match parser::parse_spec(src) {
        Result::Ok(dv) => r matches Ok(d) && ast::dv_doc(d) == dv,
        Result::Err(ds) => r matches Err(es) && validator::errs_view(es) == parser::tag_diags(
            path,
            ds,
        ),
    }
}

/// Parsing is deterministic: any two results that `parse_query` can return
/// for the same text and path take the same branch and agree — equal
/// document views on success, identical diagnostic lists on failure.
pub proof fn lemma_parse_deterministic(
    src: Seq<char>,
    path: Seq<char>,
    r1: Result<ast::Document, Seq<ValidationError>>,
    r2: Result<ast::Document, Seq<ValidationError>>,
)
    requires
        parse_pin(src, path, r1),
        parse_pin(src, path, r2),
    ensures
        (r1 is Ok) == (r2 is Ok),
        r1 is Ok && r2 is Ok ==> ast::dv_doc(r1->Ok_0) == ast::dv_doc(r2->Ok_0),
        r1 is Err && r2 is Err ==> validator::errs_view(r1->Err_0) == validator::errs_view(
            r2->Err_0,
        ),
{
}

/// Lexing is deterministic: the token stream is a function of the source
/// text alone, so any two streams that `tokenize` can return for the same
/// text agree in kinds, spellings and positions.
pub proof fn lemma_tokenize_deterministic(src: Seq<char>, t1: Seq<lexer::Token>, t2: Seq<
    lexer::Token>)
    requires
        lexer::toks_view(t1) == lexer::lex_spec_full(src),
        lexer::toks_view(t2) == lexer::lex_spec_full(src),
    ensures
        lexer::toks_view(t1) == lexer::toks_view(t2),
        t1.len() == t2.len(),
{
    assert(lexer::toks_view(t1).len() == t1.len());
    assert(lexer::toks_view(t2).len() == t2.len());
}

} // verus!
