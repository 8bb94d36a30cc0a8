use graphql_query::format_query;
use graphql_query::validate_query;

fn errors_of(q: &str) -> Vec<graphql_query::ValidationError> {
    match validate_query(q.to_string(), "test".to_string()) {
        Ok(()) => Vec::new(),
        Err(es) => es,
    }
}

#[test]
fn valid_query_passes() {
    assert!(validate_query("{ a }".to_string(), "p".to_string()).is_ok());
    assert!(validate_query("query Q { a b { c } }".to_string(), "p".to_string()).is_ok());
}

#[test]
fn fragment_cycle_two_fragments() {
    let q = "fragment A on T { ...B } fragment B on T { ...A }";
    let es = errors_of(q);
    assert_eq!(es.len(), 1);
    assert_eq!(
        es[0].message,
        "cycle in fragment spreads starting at fragment 'A'"
    );
    assert_eq!(es[0].locations.len(), 2);
    assert_eq!(es[0].locations[0].line, 1);
    assert_eq!(es[0].locations[0].column, 1);
    assert_eq!(es[0].locations[1].line, 1);
    assert_eq!(es[0].locations[1].column, 26);
}

#[test]
fn fragment_cycle_self() {
    let q = "{ ...A } fragment A on T { ...A }";
    let es = errors_of(q);
    assert_eq!(es.len(), 1);
    assert!(es[0].message.contains("cycle"));
    assert_eq!(es[0].locations.len(), 1);
}

#[test]
fn unused_variable_reported() {
    let q = "query($x: Int) { field }";
    let es = errors_of(q);
    assert_eq!(es.len(), 1);
    assert_eq!(es[0].message, "variable '$x' is never used");
    assert_eq!(es[0].locations.len(), 1);
    assert_eq!(es[0].locations[0].line, 1);
    assert_eq!(es[0].locations[0].column, 7);
}

#[test]
fn undefined_variable_reported() {
    let q = "{ f(x: $y) }";
    let es = errors_of(q);
    assert_eq!(es.len(), 1);
    assert_eq!(es[0].message, "variable '$y' is not defined");
}

#[test]
fn variable_used_through_fragment() {
    let q = "query Q($x: Int) { ...F } fragment F on T { f(a: $x) }";
    assert!(validate_query(q.to_string(), "p".to_string()).is_ok());
}

#[test]
fn duplicate_variable_names() {
    let q = "query($a: Int, $a: Int) { f(x: $a) }";
    let es = errors_of(q);
    assert_eq!(es.len(), 1);
    assert_eq!(es[0].message, "duplicate variable '$a'");
    assert_eq!(es[0].locations.len(), 2);
}

#[test]
fn anonymous_beside_named_operation() {
    let q = "{ a } query Named { b }";
    let es = errors_of(q);
    assert_eq!(es.len(), 1);
    assert_eq!(
        es[0].message,
        "an anonymous operation must be the only operation in the document"
    );
    assert_eq!(es[0].locations[0].line, 1);
    assert_eq!(es[0].locations[0].column, 1);
}

#[test]
fn duplicate_operation_names() {
    let q = "query Q { a } query Q { b }";
    let es = errors_of(q);
    assert_eq!(es.len(), 1);
    assert_eq!(es[0].message, "duplicate operation 'Q'");
    assert_eq!(es[0].locations.len(), 2);
    assert_eq!(es[0].locations[0].line, 1);
    assert_eq!(es[0].locations[0].column, 1);
    assert_eq!(es[0].locations[1].line, 1);
    assert_eq!(es[0].locations[1].column, 15);
}

#[test]
fn duplicate_fragment_names() {
    let q = "{ ...F } fragment F on T { a } fragment F on T { b }";
    let es = errors_of(q);
    assert_eq!(es.len(), 1);
    assert_eq!(es[0].message, "duplicate fragment 'F'");
    assert_eq!(es[0].locations.len(), 2);
}

#[test]
fn unused_fragment_reported() {
    let q = "{ a } fragment F on T { b }";
    let es = errors_of(q);
    assert_eq!(es.len(), 1);
    assert_eq!(es[0].message, "fragment 'F' is never used");
}

#[test]
fn misplaced_skip_directive() {
    let q = "query @skip(if: true) { a }";
    let es = errors_of(q);
    assert_eq!(es.len(), 1);
    assert_eq!(
        es[0].message,
        "directive '@skip' is not valid in this position"
    );
}

#[test]
fn well_placed_directives_pass() {
    let q = "{ a @skip(if: true) ...F @include(if: false) } fragment F on T { b }";
    assert!(validate_query(q.to_string(), "p".to_string()).is_ok());
}

#[test]
fn validation_is_deterministic() {
    let q = "query Q { a } query Q { b } { c } fragment F on T { ...F }";
    let e1 = errors_of(q);
    let e2 = errors_of(q);
    assert_eq!(e1.len(), e2.len());
    for (a, b) in e1.iter().zip(e2.iter()) {
        assert_eq!(a.message, b.message);
        assert_eq!(a.locations.len(), b.locations.len());
        for (la, lb) in a.locations.iter().zip(b.locations.iter()) {
            assert_eq!(la.line, lb.line);
            assert_eq!(la.column, lb.column);
        }
    }
}

#[test]
fn syntax_error_carries_path_label() {
    let q = "query {";
    let es = errors_of(q);
    assert!(!es.is_empty());
    assert!(es[0].message.starts_with("test: syntax error: "));
}

#[test]
fn multiple_syntax_errors_in_one_pass() {
    let q = "query { ] } query { a";
    let es = errors_of(q);
    assert_eq!(es.len(), 2);
}

#[test]
fn format_simple_query_canonical() {
    assert_eq!(format_query("{a}".to_string()), "{\n  a\n}\n");
}

#[test]
fn format_anonymous_with_variables() {
    let q = "query($x:Int!){f(a:$x)}";
    let expected = "query($x: Int!) {
  f(a: $x)
}
";
    assert_eq!(format_query(q.to_string()), expected);
}

#[test]
fn format_full_operation() {
    let q = "query Q($x:Int=3){f(a:$x) @skip(if:true){g}}";
    let expected = "query Q($x: Int = 3) {\n  f(a: $x) @skip(if: true) {\n    g\n  }\n}\n";
    assert_eq!(format_query(q.to_string()), expected);
}

#[test]
fn format_values_and_alias() {
    let q = "{x:f(a:[1,2.5,\"s\",true,null,RED,{k:1}])}";
    let expected = "{\n  x: f(a: [1, 2.5, \"s\", true, null, RED, {k: 1}])\n}\n";
    assert_eq!(format_query(q.to_string()), expected);
}

#[test]
fn format_fragments_and_inline() {
    let q = "query Q{... on T{a} ...F} fragment F on T{b}";
    let expected = "query Q {\n  ... on T {\n    a\n  }\n  ...F\n}\nfragment F on T {\n  b\n}\n";
    assert_eq!(format_query(q.to_string()), expected);
}

#[test]
fn format_is_idempotent() {
    let cases = [
        "{a}",
        "query Q($x:Int=3){f(a:$x) @skip(if:true){g}}",
        "query Q{... on T{a} ...F} fragment F on T{b}",
        "mutation M @d(a:\"s\"){f}",
        "{x:f(a:[1,2.5,\"s\",true,null,RED,{k:1}])}",
        "subscription S($v:[Int!]!){f(a:$v)}",
        "query($x:Int){f(a:$x)}",
        "mutation{f}",
    ];
    for q in cases {
        let once = format_query(q.to_string());
        let twice = format_query(once.clone());
        assert_eq!(once, twice);
    }
}

#[test]
fn format_returns_input_verbatim_on_parse_failure() {
    let cases = ["", "query {", "{ a ", "fragment", "query Q { a } }", "\"dangling"];
    for q in cases {
        assert_eq!(format_query(q.to_string()), q);
    }
}

#[test]
fn comments_and_commas_are_insignificant() {
    let q = "# leading comment\n{ a, b, # trailing\n  c }";
    assert!(validate_query(q.to_string(), "p".to_string()).is_ok());
    assert_eq!(format_query(q.to_string()), "{\n  a\n  b\n  c\n}\n");
}

#[test]
fn line_numbers_across_terminators() {
    // LF, CRLF and CR each advance the line counter once
    let q = "{ a }\r\n{ b }\r{ c }\nquery Q { d }";
    let es = errors_of(q);
    // three anonymous operations beside a named one
    assert_eq!(es.len(), 3);
    assert_eq!(es[0].locations[0].line, 1);
    assert_eq!(es[1].locations[0].line, 2);
    assert_eq!(es[2].locations[0].line, 3);
}

#[test]
fn unterminated_string_is_a_syntax_error() {
    let q = "{ f(a: \"oops) }";
    let es = errors_of(q);
    assert!(!es.is_empty());
    assert!(es[0].message.contains("syntax error"));
}

#[test]
fn block_strings_round_trip() {
    let q = "{ f(a: \"\"\"multi\nline\"\"\") }";
    assert!(validate_query(q.to_string(), "p".to_string()).is_ok());
    let once = format_query(q.to_string());
    let twice = format_query(once.clone());
    assert_eq!(once, twice);
    assert!(once.contains("\"\"\"multi\nline\"\"\""));
}

#[test]
fn columns_count_code_points() {
    // the two-byte character é occupies one column
    let q = "{ f(a: \"é\") $ }";
    let es = errors_of(q);
    assert!(!es.is_empty());
    assert_eq!(es[0].locations[0].column, 13);
}

#[test]
fn deep_nesting_fails_fast_with_a_diagnostic() {
    let mut q = String::from("{ f(a: ");
    for _ in 0..200 {
        q.push('[');
    }
    for _ in 0..200 {
        q.push(']');
    }
    q.push_str(") }");
    let es = errors_of(&q);
    assert!(!es.is_empty());
    assert!(es[0].message.contains("nested less deeply"));
}

#[test]
fn empty_selection_set_is_rejected() {
    let es = errors_of("{}");
    assert!(!es.is_empty());
}

#[test]
fn anonymous_single_operation_is_fine() {
    assert!(validate_query("{ a { b c } }".to_string(), "p".to_string()).is_ok());
}

#[test]
fn variables_not_allowed_in_default_values() {
    let es = errors_of("query($a: Int = $b, $c: Int) { f(x: $a, y: $c) }");
    assert!(!es.is_empty());
    assert!(es[0].message.contains("syntax error"));
}

#[test]
fn duplicated_spread_edges_validate_quickly() {
    // a chain of fragments, each spreading the next twice: the number of
    // distinct spread paths is astronomical, but the search is linear
    let mut q = String::from("{ ...F0 }");
    for i in 0..60 {
        q.push_str(&format!(
            " fragment F{} on T {{ ...F{} ...F{} }}",
            i,
            i + 1,
            i + 1
        ));
    }
    q.push_str(" fragment F60 on T { leaf }");
    assert!(validate_query(q, "p".to_string()).is_ok());
}

#[test]
fn many_sibling_spreads_validate_quickly() {
    let mut q = String::from("{ ...A } fragment A on T {");
    for _ in 0..2000 {
        q.push_str(" ...B");
    }
    q.push_str(" } fragment B on T { f }");
    assert!(validate_query(q, "p".to_string()).is_ok());
}

#[test]
fn overlapping_cycles_each_reported_once() {
    // two cycles sharing fragment B: one diagnostic per back edge
    let q = "{ ...A ...C } fragment A on T { ...B } fragment B on T { ...A } \
             fragment C on T { ...C }";
    let es = errors_of(q);
    assert_eq!(es.len(), 2);
    assert_eq!(es[0].message, "cycle in fragment spreads starting at fragment 'A'");
    assert_eq!(es[0].locations.len(), 2);
    assert_eq!(es[1].message, "cycle in fragment spreads starting at fragment 'C'");
    assert_eq!(es[1].locations.len(), 1);
}
