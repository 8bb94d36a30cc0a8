use graphql_query::formatter::format_document;
use graphql_query::lexer::tokenize;
use graphql_query::lexer::TokenKind;
use graphql_query::parser::parse_query;
use graphql_query::validator::validate_document;

#[test]
fn token_stream_ends_with_eof() {
    let toks = tokenize("query { a }");
    assert!(!toks.is_empty());
    assert_eq!(toks.last().unwrap().kind, TokenKind::Eof);
    for t in &toks[..toks.len() - 1] {
        assert_ne!(t.kind, TokenKind::Eof);
        assert!(t.loc.line >= 1);
        assert!(t.loc.column >= 1);
    }
}

#[test]
fn tokens_carry_positions_and_text() {
    let toks = tokenize("query Q {\n  a\n}");
    assert_eq!(toks[0].text, "query");
    assert_eq!(toks[0].loc.line, 1);
    assert_eq!(toks[0].loc.column, 1);
    assert_eq!(toks[1].text, "Q");
    assert_eq!(toks[1].loc.column, 7);
    assert_eq!(toks[3].text, "a");
    assert_eq!(toks[3].loc.line, 2);
    assert_eq!(toks[3].loc.column, 3);
}

#[test]
fn parse_query_success_and_failure() {
    assert!(parse_query("{ a }", "p").is_ok());
    let es = parse_query("query {", "p").unwrap_err();
    assert!(!es.is_empty());
    assert!(es[0].message.starts_with("p: syntax error: "));
}

#[test]
fn validate_document_matches_validate_query() {
    let doc = parse_query("query Q { a } query Q { b }", "p").unwrap();
    let es = validate_document(&doc).unwrap_err();
    assert_eq!(es.len(), 1);
    assert_eq!(es[0].message, "duplicate operation 'Q'");
}

#[test]
fn format_document_is_the_canonical_renderer() {
    let doc = parse_query("{a  b}", "p").unwrap();
    assert_eq!(format_document(&doc), "{\n  a\n  b\n}\n");
}

#[test]
fn reparsing_formatted_output_succeeds() {
    let sources = [
        "{a}",
        "query Q($x:Int=3){f(a:$x) @skip(if:true){g}}",
        "query Q{... on T{a} ...F} fragment F on T{b}",
    ];
    for q in sources {
        let doc = parse_query(q, "p").unwrap();
        let text = format_document(&doc);
        let doc2 = parse_query(&text, "p").unwrap();
        assert_eq!(format_document(&doc2), text);
    }
}

#[test]
fn byte_order_mark_is_ignored() {
    let q = "\u{FEFF}{ a }";
    assert!(parse_query(q, "p").is_ok());
}

#[test]
fn three_fragment_cycle_is_one_diagnostic() {
    let q = "{ ...A } fragment A on T { ...B } fragment B on T { ...C } fragment C on T { ...A }";
    let doc = parse_query(q, "p").unwrap();
    let es = validate_document(&doc).unwrap_err();
    assert_eq!(es.len(), 1);
    assert_eq!(es[0].message, "cycle in fragment spreads starting at fragment 'A'");
    assert_eq!(es[0].locations.len(), 3);
}

#[test]
fn skip_on_variable_definition_is_misplaced() {
    let q = "query($x: Int @skip(if: true)) { f(a: $x) }";
    let doc = parse_query(q, "p").unwrap();
    let es = validate_document(&doc).unwrap_err();
    assert_eq!(es.len(), 1);
    assert_eq!(es[0].message, "directive '@skip' is not valid in this position");
}
