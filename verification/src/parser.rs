//! Recursive-descent parser for GraphQL executable documents. A malformed
//! definition is reported and skipped, so one pass can surface several
//! independent syntax errors; nesting depth is capped so that adversarial
//! input fails with a diagnostic instead of exhausting the stack.
use vstd::prelude::*;
use vstd::string::StringExecFns;
use crate::Location;
use crate::ValidationError;
use crate::wf_err_locs;
use crate::validator::err_view;
use crate::validator::errs_view;
use crate::ast::ArgV;
use crate::ast::DirV;
use crate::ast::FieldV;
use crate::ast::InlineV;
use crate::ast::ObjFieldV;
use crate::ast::SelV;
use crate::ast::SpreadV;
use crate::ast::dv_opt_str;
use crate::ast::dv_sel;
use crate::ast::dv_sels;
use crate::ast::DefV;
use crate::ast::DocV;
use crate::ast::FragV;
use crate::ast::OpV;
use crate::ast::VarDefV;
use crate::ast::dv_def;
use crate::ast::dv_defs;
use crate::ast::dv_doc;
use crate::ast::dv_vardef;
use crate::ast::dv_vardefs;
use crate::ast::TyV;
use crate::ast::ValV;
use crate::ast::dv_arg;
use crate::ast::dv_args;
use crate::ast::dv_dir;
use crate::ast::dv_dirs;
use crate::ast::dv_objs;
use crate::ast::dv_ty;
use crate::ast::dv_val;
use crate::ast::dv_vals;
use crate::ast::Argument;
use crate::ast::Definition;
use crate::ast::Directive;
use crate::ast::Document;
use crate::ast::Field;
use crate::ast::FragmentDefinition;
use crate::ast::FragmentSpread;
use crate::ast::InlineFragment;
use crate::ast::ObjectField;
use crate::ast::OperationDefinition;
use crate::ast::OperationType;
use crate::ast::Selection;
use crate::ast::TypeRef;
use crate::ast::Value;
use crate::ast::VariableDefinition;
use crate::ast::wf_definition;
use crate::ast::wf_document;
use crate::ast::wf_sel;
use crate::ast::wf_sel_list;
use crate::ast::wf_selection_set;
use crate::ast::wf_def_list;
use crate::ast::lemma_wf_sel_list_push;
use crate::ast::lemma_wf_def_list_push;
use crate::lexer::Token;
use crate::lexer::TokenKind;
use crate::lexer::tokenize;
use crate::lexer::lex_spec_full;
use crate::lexer::toks_view;
use crate::lexer::wf_toks;

verus! {

/// Maximum nesting depth of selection sets, list/object values and types.
pub const MAX_DEPTH: u32 = 128;


/// One token as the specification sees it: kind, spelling, position.
pub open spec fn tok_is_punct(t: (TokenKind, Seq<char>, Location), s: Seq<char>) -> bool {
    t.0 is Punctuator && t.1 == s
}

/// The position after stepping over one token; the end-of-input token is
/// never stepped over.
pub open spec fn padv(toks: Seq<(TokenKind, Seq<char>, Location)>, p: int) -> int {
    if toks[p].0 is Eof {
        p
    } else {
        p + 1
    }
}

pub open spec fn msg_unexpected(expected: Seq<char>, t: (TokenKind, Seq<char>, Location)) -> Seq<
    char,
> {
    "expected "@ + expected + (if t.0 is Eof {
        ", found end of input"@
    } else {
        ", found '"@ + t.1 + "'"@
    })
}

/// The diagnostic for a token that does not fit the grammar.
pub open spec fn d_unexpected(expected: Seq<char>, t: (TokenKind, Seq<char>, Location)) -> (
    Seq<char>,
    Seq<Location>,
) {
    (msg_unexpected(expected, t), seq![t.2])
}

pub open spec fn p_expect_punct(
    toks: Seq<(TokenKind, Seq<char>, Location)>,
    p: int,
    s: Seq<char>,
) -> (Result<Location, (Seq<char>, Seq<Location>)>, int) {
    let t = toks[p];
    if tok_is_punct(t, s) {
        (Ok(t.2), p + 1)
    } else {
        (Err(d_unexpected(s, t)), p)
    }
}

pub open spec fn p_expect_name(
    toks: Seq<(TokenKind, Seq<char>, Location)>,
    p: int,
    what: Seq<char>,
) -> (Result<(Seq<char>, Location), (Seq<char>, Seq<Location>)>, int) {
    let t = toks[p];
    if t.0 is Name {
        (Ok((t.1, t.2)), p + 1)
    } else {
        (Err(d_unexpected(what, t)), p)
    }
}

/// The specified parse of a type reference.
pub open spec fn p_type(toks: Seq<(TokenKind, Seq<char>, Location)>, p: int, depth: u32) -> (
    Result<TyV, (Seq<char>, Seq<Location>)>,
    int,
)
    decreases depth,
{
    if depth == 0 {
        (Err(d_unexpected("a type nested less deeply"@, toks[p])), p)
    } else {
        let t = toks[p];
        let base: (Result<TyV, (Seq<char>, Seq<Location>)>, int) = if tok_is_punct(t, "["@) {
            let m = p_type(toks, p + 1, (depth - 1) as u32);
            match m.0 {
                Result::Err(d) => (Result::Err(d), m.1),
                Result::Ok(inner) => {
                    let e = p_expect_punct(toks, m.1, "]"@);
                    match e.0 {
                        Result::Err(d) => (Result::Err(d), e.1),
                        Result::Ok(_) => (Result::Ok(TyV::List(Box::new(inner))), e.1),
                    }
                },
            }
        } else if t.0 is Name {
            (Result::Ok(TyV::Named(t.1)), p + 1)
        } else {
            (Result::Err(d_unexpected("a type"@, t)), p)
        };
        match base.0 {
            Result::Err(d) => (Result::Err(d), base.1),
            Result::Ok(b) => if tok_is_punct(toks[base.1], "!"@) {
                (Result::Ok(TyV::NonNull(Box::new(b))), base.1 + 1)
            } else {
                (Result::Ok(b), base.1)
            },
        }
    }
}


/// The specified parse of a value literal.
pub open spec fn p_value(toks: Seq<(TokenKind, Seq<char>, Location)>, p: int, depth: u32, cc: bool) -> (
    Result<ValV, (Seq<char>, Seq<Location>)>,
    int,
)
    decreases depth, 1int, 0int,
{
    if depth == 0 {
        (Err(d_unexpected("a value nested less deeply"@, toks[p])), p)
    } else {
        let t = toks[p];
        if tok_is_punct(t, "$"@) {
            let e = p_expect_name(toks, p + 1, "a variable name"@);
            match e.0 {
                Result::Err(d) => (Result::Err(d), e.1),
                Result::Ok(nl) => if cc {
                    (Result::Err(("variables are not allowed in this position"@, seq![t.2])), e.1)
                } else {
                    (Result::Ok(ValV::Var(nl.0, t.2)), e.1)
                },
            }
        } else if t.0 is IntValue {
            (Result::Ok(ValV::IntV(t.1)), p + 1)
        } else if t.0 is FloatValue {
            (Result::Ok(ValV::FloatV(t.1)), p + 1)
        } else if t.0 is StringValue {
            (Result::Ok(ValV::StrV(t.1)), p + 1)
        } else if t.0 is Name {
            if t.1 == "true"@ {
                (Result::Ok(ValV::BoolV(true)), p + 1)
            } else if t.1 == "false"@ {
                (Result::Ok(ValV::BoolV(false)), p + 1)
            } else if t.1 == "null"@ {
                (Result::Ok(ValV::NullV), p + 1)
            } else {
                (Result::Ok(ValV::EnumV(t.1)), p + 1)
            }
        } else if tok_is_punct(t, "["@) {
            let m = p_vlist(toks, p + 1, depth, cc, toks.len() + 1);
            match m.0 {
                Result::Err(d) => (Result::Err(d), m.1),
                Result::Ok(vs) => {
                    let e = p_expect_punct(toks, m.1, "]"@);
                    match e.0 {
                        Result::Err(d) => (Result::Err(d), e.1),
                        Result::Ok(_) => (Result::Ok(ValV::ListV(vs)), e.1),
                    }
                },
            }
        } else if tok_is_punct(t, "{"@) {
            let m = p_olist(toks, p + 1, depth, cc, toks.len() + 1);
            match m.0 {
                Result::Err(d) => (Result::Err(d), m.1),
                Result::Ok(fs) => {
                    let e = p_expect_punct(toks, m.1, "}"@);
                    match e.0 {
                        Result::Err(d) => (Result::Err(d), e.1),
                        Result::Ok(_) => (Result::Ok(ValV::ObjV(fs)), e.1),
                    }
                },
            }
        } else {
            (Result::Err(d_unexpected("a value"@, t)), p)
        }
    }
}

/// The items of a bracketed list value, up to the closing bracket.
pub open spec fn p_vlist(
    toks: Seq<(TokenKind, Seq<char>, Location)>,
    p: int,
    depth: u32,
    cc: bool,
    fuel: nat,
) -> (Result<Seq<ValV>, (Seq<char>, Seq<Location>)>, int)
    decreases depth, 0int, fuel,
{
    if depth == 0 || fuel == 0 {
        (Result::Ok(Seq::empty()), p)
    } else if tok_is_punct(toks[p], "]"@) || toks[p].0 is Eof {
        (Result::Ok(Seq::empty()), p)
    } else {
        let m = p_value(toks, p, (depth - 1) as u32, cc);
        match m.0 {
            Result::Err(d) => (Result::Err(d), m.1),
            Result::Ok(v) => {
                let rest = p_vlist(toks, m.1, depth, cc, (fuel - 1) as nat);
                match rest.0 {
                    Result::Err(d) => (Result::Err(d), rest.1),
                    Result::Ok(vs) => (Result::Ok(seq![v] + vs), rest.1),
                }
            },
        }
    }
}

/// The fields of a braced object value, up to the closing brace.
pub open spec fn p_olist(
    toks: Seq<(TokenKind, Seq<char>, Location)>,
    p: int,
    depth: u32,
    cc: bool,
    fuel: nat,
) -> (Result<Seq<ObjFieldV>, (Seq<char>, Seq<Location>)>, int)
    decreases depth, 0int, fuel,
{
    if depth == 0 || fuel == 0 {
        (Result::Ok(Seq::empty()), p)
    } else if !(toks[p].0 is Name) {
        (Result::Ok(Seq::empty()), p)
    } else {
        let en = p_expect_name(toks, p, "a field name"@);
        match en.0 {
            Result::Err(d) => (Result::Err(d), en.1),
            Result::Ok(nl) => {
                let ec = p_expect_punct(toks, en.1, ":"@);
                match ec.0 {
                    Result::Err(d) => (Result::Err(d), ec.1),
                    Result::Ok(_) => {
                        let m = p_value(toks, ec.1, (depth - 1) as u32, cc);
                        match m.0 {
                            Result::Err(d) => (Result::Err(d), m.1),
                            Result::Ok(v) => {
                                let rest = p_olist(toks, m.1, depth, cc, (fuel - 1) as nat);
                                match rest.0 {
                                    Result::Err(d) => (Result::Err(d), rest.1),
                                    Result::Ok(fs) => (
                                        Result::Ok(
                                            seq![ObjFieldV { name: nl.0, value: v }] + fs,
                                        ),
                                        rest.1,
                                    ),
                                }
                            },
                        }
                    },
                }
            },
        }
    }
}

/// The arguments inside a parenthesized list, up to the closing paren.
pub open spec fn p_argloop(
    toks: Seq<(TokenKind, Seq<char>, Location)>,
    p: int,
    depth: u32,
    cc: bool,
    fuel: nat,
) -> (Result<Seq<ArgV>, (Seq<char>, Seq<Location>)>, int)
    decreases fuel,
{
    if fuel == 0 {
        (Result::Ok(Seq::empty()), p)
    } else if !(toks[p].0 is Name) {
        (Result::Ok(Seq::empty()), p)
    } else {
        let en = p_expect_name(toks, p, "an argument name"@);
        match en.0 {
            Result::Err(d) => (Result::Err(d), en.1),
            Result::Ok(nl) => {
                let ec = p_expect_punct(toks, en.1, ":"@);
                match ec.0 {
                    Result::Err(d) => (Result::Err(d), ec.1),
                    Result::Ok(_) => {
                        let m = p_value(toks, ec.1, depth, cc);
                        match m.0 {
                            Result::Err(d) => (Result::Err(d), m.1),
                            Result::Ok(v) => {
                                let rest = p_argloop(toks, m.1, depth, cc, (fuel - 1) as nat);
                                match rest.0 {
                                    Result::Err(d) => (Result::Err(d), rest.1),
                                    Result::Ok(args) => (
                                        Result::Ok(
                                            seq![ArgV { name: nl.0, value: v, pos: nl.1 }] + args,
                                        ),
                                        rest.1,
                                    ),
                                }
                            },
                        }
                    },
                }
            },
        }
    }
}

/// The specified parse of a non-empty parenthesized argument list.
pub open spec fn p_args(toks: Seq<(TokenKind, Seq<char>, Location)>, p: int, depth: u32, cc: bool) -> (
    Result<Seq<ArgV>, (Seq<char>, Seq<Location>)>,
    int,
) {
    let eo = p_expect_punct(toks, p, "("@);
    match eo.0 {
        Result::Err(d) => (Result::Err(d), eo.1),
        Result::Ok(_) => {
            let m = p_argloop(toks, eo.1, depth, cc, toks.len() + 1);
            match m.0 {
                Result::Err(d) => (Result::Err(d), m.1),
                Result::Ok(args) => if args.len() == 0 {
                    (Result::Err(d_unexpected("an argument"@, toks[m.1])), m.1)
                } else {
                    let ec = p_expect_punct(toks, m.1, ")"@);
                    match ec.0 {
                        Result::Err(d) => (Result::Err(d), ec.1),
                        Result::Ok(_) => (Result::Ok(args), ec.1),
                    }
                },
            }
        },
    }
}

/// The specified parse of a possibly empty run of directives.
pub open spec fn p_dirloop(
    toks: Seq<(TokenKind, Seq<char>, Location)>,
    p: int,
    depth: u32,
    cc: bool,
    fuel: nat,
) -> (Result<Seq<DirV>, (Seq<char>, Seq<Location>)>, int)
    decreases fuel,
{
    if fuel == 0 {
        (Result::Ok(Seq::empty()), p)
    } else if !tok_is_punct(toks[p], "@"@) {
        (Result::Ok(Seq::empty()), p)
    } else {
        let loc = toks[p].2;
        let en = p_expect_name(toks, p + 1, "a directive name"@);
        match en.0 {
            Result::Err(d) => (Result::Err(d), en.1),
            Result::Ok(nl) => {
                let a: (Result<Seq<ArgV>, (Seq<char>, Seq<Location>)>, int) = if tok_is_punct(
                    toks[en.1],
                    "("@,
                ) {
                    p_args(toks, en.1, depth, cc)
                } else {
                    (Result::Ok(Seq::empty()), en.1)
                };
                match a.0 {
                    Result::Err(d) => (Result::Err(d), a.1),
                    Result::Ok(args) => {
                        let rest = p_dirloop(toks, a.1, depth, cc, (fuel - 1) as nat);
                        match rest.0 {
                            Result::Err(d) => (Result::Err(d), rest.1),
                            Result::Ok(ds) => (
                                Result::Ok(seq![DirV { name: nl.0, args, pos: loc }] + ds),
                                rest.1,
                            ),
                        }
                    },
                }
            },
        }
    }
}

pub open spec fn p_dirs(toks: Seq<(TokenKind, Seq<char>, Location)>, p: int, depth: u32, cc: bool) -> (
    Result<Seq<DirV>, (Seq<char>, Seq<Location>)>,
    int,
) {
    p_dirloop(toks, p, depth, cc, toks.len() + 1)
}


/// The specified parse of a braced, non-empty selection set.
pub open spec fn p_selset(toks: Seq<(TokenKind, Seq<char>, Location)>, p: int, depth: u32) -> (
    Result<Seq<SelV>, (Seq<char>, Seq<Location>)>,
    int,
)
    decreases depth, 4int, 0int,
{
    if depth == 0 {
        (Err(d_unexpected("a selection set nested less deeply"@, toks[p])), p)
    } else {
        let eo = p_expect_punct(toks, p, "{"@);
        match eo.0 {
            Result::Err(d) => (Result::Err(d), eo.1),
            Result::Ok(_) => {
                let m = p_selloop(toks, eo.1, depth, toks.len() + 1);
                match m.0 {
                    Result::Err(d) => (Result::Err(d), m.1),
                    Result::Ok(sels) => if sels.len() == 0 {
                        (Result::Err(d_unexpected("a selection"@, toks[m.1])), m.1)
                    } else {
                        let ec = p_expect_punct(toks, m.1, "}"@);
                        match ec.0 {
                            Result::Err(d) => (Result::Err(d), ec.1),
                            Result::Ok(_) => (Result::Ok(sels), ec.1),
                        }
                    },
                }
            },
        }
    }
}

/// The selections up to the closing brace.
pub open spec fn p_selloop(
    toks: Seq<(TokenKind, Seq<char>, Location)>,
    p: int,
    depth: u32,
    fuel: nat,
) -> (Result<Seq<SelV>, (Seq<char>, Seq<Location>)>, int)
    decreases depth, 3int, fuel,
{
    if depth == 0 || fuel == 0 {
        (Result::Ok(Seq::empty()), p)
    } else if tok_is_punct(toks[p], "}"@) || toks[p].0 is Eof {
        (Result::Ok(Seq::empty()), p)
    } else {
        let m = p_sel(toks, p, depth);
        match m.0 {
            Result::Err(d) => (Result::Err(d), m.1),
            Result::Ok(s) => {
                let rest = p_selloop(toks, m.1, depth, (fuel - 1) as nat);
                match rest.0 {
                    Result::Err(d) => (Result::Err(d), rest.1),
                    Result::Ok(ss) => (Result::Ok(seq![s] + ss), rest.1),
                }
            },
        }
    }
}

/// The specified parse of one selection.
pub open spec fn p_sel(toks: Seq<(TokenKind, Seq<char>, Location)>, p: int, depth: u32) -> (
    Result<SelV, (Seq<char>, Seq<Location>)>,
    int,
)
    decreases depth, 2int, 0int,
{
    if depth == 0 {
        (Err(d_unexpected("a selection"@, toks[p])), p)
    } else {
        let t = toks[p];
        if tok_is_punct(t, "..."@) {
            let t2 = toks[p + 1];
            if t2.0 is Name && t2.1 != "on"@ {
                let md = p_dirs(toks, p + 2, depth, false);
                match md.0 {
                    Result::Err(d) => (Result::Err(d), md.1),
                    Result::Ok(ds) => (
                        Result::Ok(SelV::Spread(SpreadV { name: t2.1, dirs: ds, pos: t.2 })),
                        md.1,
                    ),
                }
            } else if t2.0 is Name {
                let en = p_expect_name(toks, p + 2, "a type condition"@);
                match en.0 {
                    Result::Err(d) => (Result::Err(d), en.1),
                    Result::Ok(nl) => p_inline_rest(toks, en.1, depth, Option::Some(nl.0), t.2),
                }
            } else {
                p_inline_rest(toks, p + 1, depth, Option::None, t.2)
            }
        } else if t.0 is Name {
            p_field(toks, p, depth)
        } else {
            (Result::Err(d_unexpected("a selection"@, t)), p)
        }
    }
}

/// The directives and selection set of an inline fragment.
pub open spec fn p_inline_rest(
    toks: Seq<(TokenKind, Seq<char>, Location)>,
    p: int,
    depth: u32,
    on_type: Option<Seq<char>>,
    pos0: Location,
) -> (Result<SelV, (Seq<char>, Seq<Location>)>, int)
    decreases depth, 0int, 1int,
{
    if depth == 0 {
        (Err(d_unexpected("a selection set nested less deeply"@, toks[p])), p)
    } else {
        let md = p_dirs(toks, p, depth, false);
        match md.0 {
            Result::Err(d) => (Result::Err(d), md.1),
            Result::Ok(ds) => {
                let ms = p_selset(toks, md.1, (depth - 1) as u32);
                match ms.0 {
                    Result::Err(d) => (Result::Err(d), ms.1),
                    Result::Ok(ss) => (
                        Result::Ok(
                            SelV::Inline(InlineV { on_type, dirs: ds, sels: ss, pos: pos0 }),
                        ),
                        ms.1,
                    ),
                }
            },
        }
    }
}

/// The specified parse of a field whose name token sits at `p`.
pub open spec fn p_field(toks: Seq<(TokenKind, Seq<char>, Location)>, p: int, depth: u32) -> (
    Result<SelV, (Seq<char>, Seq<Location>)>,
    int,
)
    decreases depth, 1int, 0int,
{
    if depth == 0 {
        (Err(d_unexpected("a selection"@, toks[p])), p)
    } else {
        let t = toks[p];
        if tok_is_punct(toks[p + 1], ":"@) {
            let en = p_expect_name(toks, p + 2, "a field name"@);
            match en.0 {
                Result::Err(d) => (Result::Err(d), en.1),
                Result::Ok(nl) => p_field_rest(toks, en.1, depth, Option::Some(t.1), nl.0, t.2),
            }
        } else {
            p_field_rest(toks, p + 1, depth, Option::None, t.1, t.2)
        }
    }
}

/// The arguments, directives and optional selection set of a field.
pub open spec fn p_field_rest(
    toks: Seq<(TokenKind, Seq<char>, Location)>,
    p: int,
    depth: u32,
    alias: Option<Seq<char>>,
    name: Seq<char>,
    pos0: Location,
) -> (Result<SelV, (Seq<char>, Seq<Location>)>, int)
    decreases depth, 0int, 0int,
{
    if depth == 0 {
        (Err(d_unexpected("a selection set nested less deeply"@, toks[p])), p)
    } else {
        let ma: (Result<Seq<ArgV>, (Seq<char>, Seq<Location>)>, int) = if tok_is_punct(
            toks[p],
            "("@,
        ) {
            p_args(toks, p, depth, false)
        } else {
            (Result::Ok(Seq::empty()), p)
        };
        match ma.0 {
            Result::Err(d) => (Result::Err(d), ma.1),
            Result::Ok(args) => {
                let md = p_dirs(toks, ma.1, depth, false);
                match md.0 {
                    Result::Err(d) => (Result::Err(d), md.1),
                    Result::Ok(ds) => if tok_is_punct(toks[md.1], "{"@) {
                        let ms = p_selset(toks, md.1, (depth - 1) as u32);
                        match ms.0 {
                            Result::Err(d) => (Result::Err(d), ms.1),
                            Result::Ok(ss) => (
                                Result::Ok(
                                    SelV::Field(
                                        FieldV {
                                            alias,
                                            name,
                                            args,
                                            dirs: ds,
                                            sels: Option::Some(ss),
                                            pos: pos0,
                                        },
                                    ),
                                ),
                                ms.1,
                            ),
                        }
                    } else {
                        (
                            Result::Ok(
                                SelV::Field(
                                    FieldV {
                                        alias,
                                        name,
                                        args,
                                        dirs: ds,
                                        sels: Option::None,
                                        pos: pos0,
                                    },
                                ),
                            ),
                            md.1,
                        )
                    },
                }
            },
        }
    }
}


/// The variable definitions inside the parentheses, up to the closing one.
pub open spec fn p_vardefloop(toks: Seq<(TokenKind, Seq<char>, Location)>, p: int, fuel: nat) -> (
    Result<Seq<VarDefV>, (Seq<char>, Seq<Location>)>,
    int,
)
    decreases fuel,
{
    if fuel == 0 {
        (Result::Ok(Seq::empty()), p)
    } else if !tok_is_punct(toks[p], "$"@) {
        (Result::Ok(Seq::empty()), p)
    } else {
        let loc = toks[p].2;
        let en = p_expect_name(toks, p + 1, "a variable name"@);
        match en.0 {
            Result::Err(d) => (Result::Err(d), en.1),
            Result::Ok(nl) => {
                let ec = p_expect_punct(toks, en.1, ":"@);
                match ec.0 {
                    Result::Err(d) => (Result::Err(d), ec.1),
                    Result::Ok(_) => {
                        let mt = p_type(toks, ec.1, MAX_DEPTH);
                        match mt.0 {
                            Result::Err(d) => (Result::Err(d), mt.1),
                            Result::Ok(ty) => {
                                let dm: (
                                    Result<Option<ValV>, (Seq<char>, Seq<Location>)>,
                                    int,
                                ) = if tok_is_punct(toks[mt.1], "="@) {
                                    let mv = p_value(toks, mt.1 + 1, MAX_DEPTH, true);
                                    match mv.0 {
                                        Result::Err(d) => (Result::Err(d), mv.1),
                                        Result::Ok(v) => (Result::Ok(Option::Some(v)), mv.1),
                                    }
                                } else {
                                    (Result::Ok(Option::None), mt.1)
                                };
                                match dm.0 {
                                    Result::Err(d) => (Result::Err(d), dm.1),
                                    Result::Ok(defv) => {
                                        let md = p_dirs(toks, dm.1, MAX_DEPTH, true);
                                        match md.0 {
                                            Result::Err(d) => (Result::Err(d), md.1),
                                            Result::Ok(ds) => {
                                                let rest = p_vardefloop(
                                                    toks,
                                                    md.1,
                                                    (fuel - 1) as nat,
                                                );
                                                match rest.0 {
                                                    Result::Err(d) => (Result::Err(d), rest.1),
                                                    Result::Ok(vds) => (
                                                        Result::Ok(
                                                            seq![
                                                                VarDefV {
                                                                    name: nl.0,
                                                                    ty,
                                                                    default: defv,
                                                                    dirs: ds,
                                                                    pos: loc,
                                                                },
                                                            ] + vds,
                                                        ),
                                                        rest.1,
                                                    ),
                                                }
                                            },
                                        }
                                    },
                                }
                            },
                        }
                    },
                }
            },
        }
    }
}

/// The specified parse of a non-empty variable-definition list.
pub open spec fn p_vardefs(toks: Seq<(TokenKind, Seq<char>, Location)>, p: int) -> (
    Result<Seq<VarDefV>, (Seq<char>, Seq<Location>)>,
    int,
) {
    let eo = p_expect_punct(toks, p, "("@);
    match eo.0 {
        Result::Err(d) => (Result::Err(d), eo.1),
        Result::Ok(_) => {
            let m = p_vardefloop(toks, eo.1, toks.len() + 1);
            match m.0 {
                Result::Err(d) => (Result::Err(d), m.1),
                Result::Ok(vds) => if vds.len() == 0 {
                    (Result::Err(d_unexpected("a variable definition"@, toks[m.1])), m.1)
                } else {
                    let ec = p_expect_punct(toks, m.1, ")"@);
                    match ec.0 {
                        Result::Err(d) => (Result::Err(d), ec.1),
                        Result::Ok(_) => (Result::Ok(vds), ec.1),
                    }
                },
            }
        },
    }
}

/// The specified parse of an operation whose keyword sits at `p`.
pub open spec fn p_operation(
    toks: Seq<(TokenKind, Seq<char>, Location)>,
    p: int,
    op_type: OperationType,
) -> (Result<DefV, (Seq<char>, Seq<Location>)>, int) {
    let loc = toks[p].2;
    let nm: (Option<Seq<char>>, int) = if toks[p + 1].0 is Name {
        (Option::Some(toks[p + 1].1), p + 2)
    } else {
        (Option::None, p + 1)
    };
    let vd: (Result<Seq<VarDefV>, (Seq<char>, Seq<Location>)>, int) = if tok_is_punct(
        toks[nm.1],
        "("@,
    ) {
        p_vardefs(toks, nm.1)
    } else {
        (Result::Ok(Seq::empty()), nm.1)
    };
    match vd.0 {
        Result::Err(d) => (Result::Err(d), vd.1),
        Result::Ok(vds) => {
            let md = p_dirs(toks, vd.1, MAX_DEPTH, false);
            match md.0 {
                Result::Err(d) => (Result::Err(d), md.1),
                Result::Ok(ds) => {
                    let ms = p_selset(toks, md.1, MAX_DEPTH);
                    match ms.0 {
                        Result::Err(d) => (Result::Err(d), ms.1),
                        Result::Ok(ss) => (
                            Result::Ok(
                                DefV::Op(
                                    OpV {
                                        op_type,
                                        name: nm.0,
                                        vardefs: vds,
                                        dirs: ds,
                                        sels: ss,
                                        pos: loc,
                                    },
                                ),
                            ),
                            ms.1,
                        ),
                    }
                },
            }
        },
    }
}

/// The specified parse of a fragment definition whose keyword sits at `p`.
pub open spec fn p_fragment(toks: Seq<(TokenKind, Seq<char>, Location)>, p: int) -> (
    Result<DefV, (Seq<char>, Seq<Location>)>,
    int,
) {
    let loc = toks[p].2;
    let t = toks[p + 1];
    if !(t.0 is Name) || t.1 == "on"@ {
        (Result::Err(d_unexpected("a fragment name"@, t)), p + 1)
    } else {
        let t2 = toks[p + 2];
        if !(t2.0 is Name) || t2.1 != "on"@ {
            (Result::Err(d_unexpected("'on'"@, t2)), p + 2)
        } else {
            let en = p_expect_name(toks, p + 3, "a type condition"@);
            match en.0 {
                Result::Err(d) => (Result::Err(d), en.1),
                Result::Ok(nl) => {
                    let md = p_dirs(toks, en.1, MAX_DEPTH, false);
                    match md.0 {
                        Result::Err(d) => (Result::Err(d), md.1),
                        Result::Ok(ds) => {
                            let ms = p_selset(toks, md.1, MAX_DEPTH);
                            match ms.0 {
                                Result::Err(d) => (Result::Err(d), ms.1),
                                Result::Ok(ss) => (
                                    Result::Ok(
                                        DefV::Frag(
                                            FragV {
                                                name: t.1,
                                                on_type: nl.0,
                                                dirs: ds,
                                                sels: ss,
                                                pos: loc,
                                            },
                                        ),
                                    ),
                                    ms.1,
                                ),
                            }
                        },
                    }
                },
            }
        }
    }
}

/// The specified parse of one definition.
pub open spec fn p_definition(toks: Seq<(TokenKind, Seq<char>, Location)>, p: int) -> (
    Result<DefV, (Seq<char>, Seq<Location>)>,
    int,
) {
    let t = toks[p];
    if tok_is_punct(t, "{"@) {
        let ms = p_selset(toks, p, MAX_DEPTH);
        match ms.0 {
            Result::Err(d) => (Result::Err(d), ms.1),
            Result::Ok(ss) => (
                Result::Ok(
                    DefV::Op(
                        OpV {
                            op_type: OperationType::Query,
                            name: Option::None,
                            vardefs: Seq::empty(),
                            dirs: Seq::empty(),
                            sels: ss,
                            pos: t.2,
                        },
                    ),
                ),
                ms.1,
            ),
        }
    } else if t.0 is Name {
        if t.1 == "query"@ {
            p_operation(toks, p, OperationType::Query)
        } else if t.1 == "mutation"@ {
            p_operation(toks, p, OperationType::Mutation)
        } else if t.1 == "subscription"@ {
            p_operation(toks, p, OperationType::Subscription)
        } else if t.1 == "fragment"@ {
            p_fragment(toks, p)
        } else {
            (Result::Err(d_unexpected("a definition"@, t)), p)
        }
    } else {
        (Result::Err(d_unexpected("a definition"@, t)), p)
    }
}

/// Tokens at which recovery can restart a definition.
pub open spec fn p_defstart(t: (TokenKind, Seq<char>, Location)) -> bool {
    (t.0 is Name && (t.1 == "query"@ || t.1 == "mutation"@ || t.1 == "subscription"@ || t.1
        == "fragment"@)) || tok_is_punct(t, "{"@)
}

/// Where recovery lands after skipping ahead from `p`.
pub open spec fn p_syncloop(toks: Seq<(TokenKind, Seq<char>, Location)>, p: int, fuel: nat) -> int
    decreases fuel,
{
    if fuel == 0 {
        p
    } else if toks[p].0 is Eof || p_defstart(toks[p]) {
        p
    } else if tok_is_punct(toks[p], "}"@) {
        p + 1
    } else {
        p_syncloop(toks, p + 1, (fuel - 1) as nat)
    }
}

pub open spec fn p_sync(toks: Seq<(TokenKind, Seq<char>, Location)>, p: int) -> int {
    p_syncloop(toks, padv(toks, p), toks.len() + 1)
}

/// The whole document stream: collected definitions, collected syntax
/// diagnostics, and the final position.
pub open spec fn p_streamloop(toks: Seq<(TokenKind, Seq<char>, Location)>, p: int, fuel: nat) -> (
    Seq<DefV>,
    Seq<(Seq<char>, Seq<Location>)>,
    int,
)
    decreases fuel,
{
    if fuel == 0 {
        (Seq::empty(), Seq::empty(), p)
    } else if toks[p].0 is Eof {
        (Seq::empty(), Seq::empty(), p)
    } else {
        let m = p_definition(toks, p);
        match m.0 {
            Result::Ok(dv) => {
                let rest = p_streamloop(toks, m.1, (fuel - 1) as nat);
                (seq![dv] + rest.0, rest.1, rest.2)
            },
            Result::Err(d) => {
                let q = p_sync(toks, m.1);
                let rest = p_streamloop(toks, q, (fuel - 1) as nat);
                (rest.0, seq![d] + rest.1, rest.2)
            },
        }
    }
}

/// The stream with the empty-document diagnostic added when nothing at all
/// was parsed.
pub open spec fn p_stream_full(toks: Seq<(TokenKind, Seq<char>, Location)>, p: int) -> (
    Seq<DefV>,
    Seq<(Seq<char>, Seq<Location>)>,
    int,
) {
    let r = p_streamloop(toks, p, toks.len() + 1);
    if r.0.len() == 0 && r.1.len() == 0 {
        (r.0, seq![d_unexpected("a definition"@, toks[r.2])], r.2)
    } else {
        r
    }
}

/// The specified parse of a token stream into a document, or into the
/// syntax diagnostics collected along the way.
pub open spec fn p_document(toks: Seq<(TokenKind, Seq<char>, Location)>) -> Result<
    DocV,
    Seq<(Seq<char>, Seq<Location>)>,
> {
    let r = p_stream_full(toks, 0);
    if r.1.len() == 0 {
        Result::Ok(DocV { defs: r.0 })
    } else {
        Result::Err(r.1)
    }
}

/// The specified parse of source text: the lexed stream, parsed.
pub open spec fn parse_spec(src: Seq<char>) -> Result<DocV, Seq<(Seq<char>, Seq<Location>)>> {
    p_document(lex_spec_full(src))
}

/// Syntax diagnostics as the public API returns them: tagged with the
/// identifying path label.
pub open spec fn tag_diags(path: Seq<char>, ds: Seq<(Seq<char>, Seq<Location>)>) -> Seq<
    (Seq<char>, Seq<Location>),
> {
    Seq::new(ds.len(), |i: int| (path + ": syntax error: "@ + ds[i].0, ds[i].1))
}

/// Moves past the current token, staying on the final end-of-input token.
fn advance(toks: &Vec<Token>, pos: &mut usize)
    requires
        wf_toks(toks@),
        *old(pos) < toks@.len(),
    ensures
        *old(pos) <= *final(pos) < toks@.len(),
        !(toks@[*old(pos) as int].kind is Eof) ==> *final(pos) == *old(pos) + 1,
        *final(pos) == padv(toks_view(toks@), *old(pos) as int),
{
    if !(toks[*pos].kind == TokenKind::Eof) {
        proof {
            assert(*pos as int != toks@.len() - 1);
        }
        let n = toks.len();
        assert(*pos < n);
        *pos = *pos + 1;
    }
}

/// Compares a token's text against an expected spelling.
fn text_is(t: &Token, s: &str) -> (r: bool)
    ensures
        r == (t.text@ == s@),
{
    let o = s.to_owned();
    t.text == o
}

fn is_punct(t: &Token, s: &str) -> (r: bool)
    ensures
        r == (t.kind is Punctuator && t.text@ == s@),
{
    t.kind == TokenKind::Punctuator && text_is(t, s)
}

/// A diagnostic for a token that does not fit the grammar at this point.
fn unexpected(t: &Token, expected: &str) -> (e: ValidationError)
    requires
        t.loc.line >= 1,
        t.loc.column >= 1,
    ensures
        e.locations@.len() == 1,
        wf_err_locs(e),
        err_view(e) == d_unexpected(expected@, (t.kind, t.text@, t.loc)),
{
    let mut m = String::from_str("expected ");
    m.append(expected);
    if t.kind == TokenKind::Eof {
        m.append(", found end of input");
    } else {
        m.append(", found '");
        m.append(t.text.as_str());
        m.append("'");
    }
    let mut locs: Vec<Location> = Vec::new();
    locs.push(t.loc);
    proof {
        assert(locs@ =~= seq![t.loc]);
    }
    ValidationError { message: m, locations: locs }
}

/// Consumes a punctuator with the given spelling, or reports it missing.
fn expect_punct(toks: &Vec<Token>, pos: &mut usize, s: &str) -> (r: Result<Location,
    ValidationError>)
    requires
        wf_toks(toks@),
        *old(pos) < toks@.len(),
    ensures
        *old(pos) <= *final(pos) < toks@.len(),
        r is Ok ==> *final(pos) == *old(pos) + 1,
        r matches Err(e) ==> wf_err_locs(e),
        ({
            let m = p_expect_punct(toks_view(toks@), *old(pos) as int, s@);
            *final(pos) == m.1 && (match r {
                Result::Ok(l) => m.0 matches Ok(lv) && l == lv,
                Result::Err(e) => m.0 matches Err(d) && err_view(e) == d,
            })
        }),
{
    let t = &toks[*pos];
    if is_punct(t, s) {
        let loc = t.loc;
        advance(toks, pos);
        Ok(loc)
    } else {
        Err(unexpected(t, s))
    }
}

/// Consumes a name token, or reports it missing.
fn expect_name(toks: &Vec<Token>, pos: &mut usize, what: &str) -> (r: Result<(String, Location),
    ValidationError>)
    requires
        wf_toks(toks@),
        *old(pos) < toks@.len(),
    ensures
        *old(pos) <= *final(pos) < toks@.len(),
        r is Ok ==> *final(pos) == *old(pos) + 1,
        r matches Err(e) ==> wf_err_locs(e),
        ({
            let m = p_expect_name(toks_view(toks@), *old(pos) as int, what@);
            *final(pos) == m.1 && (match r {
                Result::Ok(nl) => m.0 matches Ok(nv) && nl.0@ == nv.0 && nl.1 == nv.1,
                Result::Err(e) => m.0 matches Err(d) && err_view(e) == d,
            })
        }),
{
    let t = &toks[*pos];
    if t.kind == TokenKind::Name {
        let name = t.text.clone();
        let loc = t.loc;
        advance(toks, pos);
        Ok((name, loc))
    } else {
        Err(unexpected(t, what))
    }
}

/// Parses a type reference: a named type, a list type or a non-null type.
fn parse_type(toks: &Vec<Token>, pos: &mut usize, depth: u32) -> (r: Result<TypeRef,
    ValidationError>)
    requires
        wf_toks(toks@),
        *old(pos) < toks@.len(),
    ensures
        *old(pos) <= *final(pos) < toks@.len(),
        r matches Err(e) ==> wf_err_locs(e),
        ({
            let m = p_type(toks_view(toks@), *old(pos) as int, depth);
            *final(pos) == m.1 && (match r {
                Result::Ok(ty) => m.0 matches Ok(tv) && dv_ty(ty) == tv,
                Result::Err(e) => m.0 matches Err(d) && err_view(e) == d,
            })
        }),
    decreases depth,
{
    let ghost tv0 = toks_view(toks@);
    let ghost p0 = *pos as int;
    if depth == 0 {
        return Err(unexpected(&toks[*pos], "a type nested less deeply"));
    }
    let t = &toks[*pos];
    let base: TypeRef;
    if is_punct(t, "[") {
        advance(toks, pos);
        proof {
            assert(*pos as int == p0 + 1);
        }
        let ghost mi = p_type(tv0, p0 + 1, (depth - 1) as u32);
        let inner = match parse_type(toks, pos, depth - 1) {
            Ok(i) => i,
            Err(e) => {
                proof {
                    assert(mi.0 matches Err(d) && err_view(e) == d && mi.1 == *pos as int);
                    assert(p_type(tv0, p0, depth).0 == mi.0 && p_type(tv0, p0, depth).1 == mi.1);
                }
                return Err(e);
            },
        };
        proof {
            assert(mi.0 matches Ok(iv) && dv_ty(inner) == iv && mi.1 == *pos as int);
        }
        let ghost me = p_expect_punct(tv0, mi.1, "]"@);
        match expect_punct(toks, pos, "]") {
            Ok(_) => (),
            Err(e) => {
                proof {
                    assert(me.0 matches Err(d) && err_view(e) == d && me.1 == *pos as int);
                    assert(p_type(tv0, p0, depth).0 matches Err(d) && err_view(e) == d);
                    assert(p_type(tv0, p0, depth).1 == me.1);
                }
                return Err(e);
            },
        }
        base = TypeRef::List(Box::new(inner));
        proof {
            assert(me.0 is Ok && me.1 == *pos as int);
            assert(dv_ty(base) == TyV::List(Box::new(dv_ty(inner))));
        }
    } else if t.kind == TokenKind::Name {
        let name = t.text.clone();
        advance(toks, pos);
        base = TypeRef::Named(name);
        proof {
            assert(dv_ty(base) == TyV::Named(tv0[p0].1));
            assert(*pos as int == p0 + 1);
        }
    } else {
        return Err(unexpected(t, "a type"));
    }
    if is_punct(&toks[*pos], "!") {
        let ghost pb = *pos as int;
        advance(toks, pos);
        let r = TypeRef::NonNull(Box::new(base));
        proof {
            assert(*pos as int == pb + 1);
            assert(p_type(tv0, p0, depth).0 matches Ok(tv) && dv_ty(r) == tv);
            assert(p_type(tv0, p0, depth).1 == *pos as int);
        }
        Ok(r)
    } else {
        proof {
            assert(p_type(tv0, p0, depth).0 matches Ok(tv) && dv_ty(base) == tv);
            assert(p_type(tv0, p0, depth).1 == *pos as int);
        }
        Ok(base)
    }
}

/// Parses a value literal. Variables are rejected when `const_ctx` holds,
/// as inside default values.
fn parse_value(toks: &Vec<Token>, pos: &mut usize, depth: u32, const_ctx: bool) -> (r: Result<
    Value, ValidationError>)
    requires
        wf_toks(toks@),
        *old(pos) < toks@.len(),
    ensures
        *old(pos) <= *final(pos) < toks@.len(),
        r is Ok ==> *final(pos) > *old(pos),
        r matches Err(e) ==> wf_err_locs(e),
        ({
            let m = p_value(toks_view(toks@), *old(pos) as int, depth, const_ctx);
            *final(pos) == m.1 && (match r {
                Result::Ok(v) => m.0 matches Ok(vv) && dv_val(v) == vv,
                Result::Err(e) => m.0 matches Err(d) && err_view(e) == d,
            })
        }),
    decreases depth,
{
    let ghost tv0 = toks_view(toks@);
    let ghost p0 = *pos as int;
    if depth == 0 {
        return Err(unexpected(&toks[*pos], "a value nested less deeply"));
    }
    let t = &toks[*pos];
    if is_punct(t, "$") {
        let loc = t.loc;
        advance(toks, pos);
        let (name, _nloc) = match expect_name(toks, pos, "a variable name") {
            Ok(p) => p,
            Err(e) => { return Err(e); },
        };
        if const_ctx {
            let mut locs: Vec<Location> = Vec::new();
            locs.push(loc);
            proof {
                assert(locs@ =~= seq![loc]);
            }
            return Err(ValidationError {
                message: String::from_str("variables are not allowed in this position"),
                locations: locs,
            });
        }
        Ok(Value::Variable(name, loc))
    } else if t.kind == TokenKind::IntValue {
        let text = t.text.clone();
        advance(toks, pos);
        Ok(Value::IntValue(text))
    } else if t.kind == TokenKind::FloatValue {
        let text = t.text.clone();
        advance(toks, pos);
        Ok(Value::FloatValue(text))
    } else if t.kind == TokenKind::StringValue {
        let text = t.text.clone();
        advance(toks, pos);
        Ok(Value::StringValue(text))
    } else if t.kind == TokenKind::Name {
        let text = t.text.clone();
        advance(toks, pos);
        if text_is(t, "true") {
            Ok(Value::BooleanValue(true))
        } else if text_is(t, "false") {
            Ok(Value::BooleanValue(false))
        } else if text_is(t, "null") {
            Ok(Value::NullValue)
        } else {
            Ok(Value::EnumValue(text))
        }
    } else if is_punct(t, "[") {
        advance(toks, pos);
        proof {
            assert(*pos as int == p0 + 1);
        }
        let ghost fl0: nat = tv0.len() + 1;
        let ghost mstart = p_vlist(tv0, p0 + 1, depth, const_ctx, fl0);
        let ghost mut f: nat = fl0;
        let mut items: Vec<Value> = Vec::new();
        proof {
            assert(dv_vals(items@) =~= Seq::<ValV>::empty());
            assert(dv_vals(items@) + Seq::<ValV>::empty() =~= dv_vals(items@));
        }
        while !is_punct(&toks[*pos], "]") && !(toks[*pos].kind == TokenKind::Eof)
            invariant
                wf_toks(toks@),
                tv0 == toks_view(toks@),
                p0 == *old(pos) as int,
                !tok_is_punct(tv0[p0], "$"@),
                tok_is_punct(tv0[p0], "["@),
                mstart == p_vlist(tv0, p0 + 1, depth, const_ctx, tv0.len() + 1),
                *old(pos) < *pos < toks@.len(),
                0 < depth,
                f >= toks@.len() - *pos + 1,
                ({
                    let rem = p_vlist(tv0, *pos as int, depth, const_ctx, f);
                    match rem.0 {
                        Result::Ok(vs) => mstart.0 matches Ok(all) && all == dv_vals(items@) + vs
                            && mstart.1 == rem.1,
                        Result::Err(d) => mstart.0 matches Err(d2) && d == d2 && mstart.1 == rem.1,
                    }
                }),
            decreases toks@.len() - *pos,
        {
            let ghost pp = *pos as int;
            let ghost fcur = f;
            let item = match parse_value(toks, pos, depth - 1, const_ctx) {
                Ok(v) => v,
                Err(e) => {
                    proof {
                        assert(p_vlist(tv0, pp, depth, const_ctx, fcur).0 matches Err(d)
                            && err_view(e) == d);
                        assert(p_vlist(tv0, pp, depth, const_ctx, fcur).1 == *pos as int);
                    }
                    return Err(e);
                },
            };
            proof {
                f = (f - 1) as nat;
                assert(items@.push(item).drop_last() =~= items@);
                assert(items@.push(item).last() == item);
                assert(dv_vals(items@.push(item)) == dv_vals(items@).push(dv_val(item)));
                let remn = p_vlist(tv0, *pos as int, depth, const_ctx, f);
                assert(p_vlist(tv0, pp, depth, const_ctx, fcur).1 == remn.1);
                if remn.0 is Ok {
                    let vs2 = remn.0->Ok_0;
                    assert(dv_vals(items@) + (seq![dv_val(item)] + vs2) =~= dv_vals(items@).push(
                        dv_val(item),
                    ) + vs2);
                }
            }
            items.push(item);
        }
        proof {
            assert(p_vlist(tv0, *pos as int, depth, const_ctx, f).0 == Result::<
                Seq<ValV>,
                (Seq<char>, Seq<Location>),
            >::Ok(Seq::empty()));
            assert(dv_vals(items@) + Seq::<ValV>::empty() =~= dv_vals(items@));
            assert(mstart.0 matches Ok(all) && all == dv_vals(items@) && mstart.1 == *pos as int);
        }
        match expect_punct(toks, pos, "]") {
            Ok(_) => (),
            Err(e) => { return Err(e); },
        }
        Ok(Value::ListValue(items))
    } else if is_punct(t, "{") {
        advance(toks, pos);
        proof {
            assert(*pos as int == p0 + 1);
        }
        let ghost fl0: nat = tv0.len() + 1;
        let ghost mstart = p_olist(tv0, p0 + 1, depth, const_ctx, fl0);
        let ghost mut f: nat = fl0;
        let mut fields: Vec<ObjectField> = Vec::new();
        proof {
            assert(dv_objs(fields@) =~= Seq::<ObjFieldV>::empty());
            assert(dv_objs(fields@) + Seq::<ObjFieldV>::empty() =~= dv_objs(fields@));
        }
        while toks[*pos].kind == TokenKind::Name
            invariant
                wf_toks(toks@),
                tv0 == toks_view(toks@),
                p0 == *old(pos) as int,
                !tok_is_punct(tv0[p0], "$"@),
                !tok_is_punct(tv0[p0], "["@),
                tok_is_punct(tv0[p0], "{"@),
                mstart == p_olist(tv0, p0 + 1, depth, const_ctx, tv0.len() + 1),
                *old(pos) < *pos < toks@.len(),
                0 < depth,
                f >= toks@.len() - *pos + 1,
                ({
                    let rem = p_olist(tv0, *pos as int, depth, const_ctx, f);
                    match rem.0 {
                        Result::Ok(fs) => mstart.0 matches Ok(all) && all == dv_objs(fields@) + fs
                            && mstart.1 == rem.1,
                        Result::Err(d) => mstart.0 matches Err(d2) && d == d2 && mstart.1 == rem.1,
                    }
                }),
            decreases toks@.len() - *pos,
        {
            let ghost pp = *pos as int;
            let ghost fcur = f;
            let (name, _nloc) = match expect_name(toks, pos, "a field name") {
                Ok(p) => p,
                Err(e) => { return Err(e); },
            };
            match expect_punct(toks, pos, ":") {
                Ok(_) => (),
                Err(e) => {
                    proof {
                        assert(p_olist(tv0, pp, depth, const_ctx, fcur).0 matches Err(d)
                            && err_view(e) == d);
                        assert(p_olist(tv0, pp, depth, const_ctx, fcur).1 == *pos as int);
                    }
                    return Err(e);
                },
            }
            let value = match parse_value(toks, pos, depth - 1, const_ctx) {
                Ok(v) => v,
                Err(e) => {
                    proof {
                        assert(p_olist(tv0, pp, depth, const_ctx, fcur).0 matches Err(d)
                            && err_view(e) == d);
                        assert(p_olist(tv0, pp, depth, const_ctx, fcur).1 == *pos as int);
                    }
                    return Err(e);
                },
            };
            let fld = ObjectField { name, value };
            proof {
                f = (f - 1) as nat;
                assert(fields@.push(fld).drop_last() =~= fields@);
                assert(fields@.push(fld).last() == fld);
                assert(dv_objs(fields@.push(fld)) == dv_objs(fields@).push(
                    ObjFieldV { name: fld.name@, value: dv_val(fld.value) },
                ));
                let remn = p_olist(tv0, *pos as int, depth, const_ctx, f);
                assert(p_olist(tv0, pp, depth, const_ctx, fcur).1 == remn.1);
                if remn.0 is Ok {
                    let fs2 = remn.0->Ok_0;
                    assert(dv_objs(fields@) + (seq![
                        ObjFieldV { name: fld.name@, value: dv_val(fld.value) },
                    ] + fs2) =~= dv_objs(fields@).push(
                        ObjFieldV { name: fld.name@, value: dv_val(fld.value) },
                    ) + fs2);
                }
            }
            fields.push(fld);
        }
        proof {
            assert(p_olist(tv0, *pos as int, depth, const_ctx, f).0 == Result::<
                Seq<ObjFieldV>,
                (Seq<char>, Seq<Location>),
            >::Ok(Seq::empty()));
            assert(dv_objs(fields@) + Seq::<ObjFieldV>::empty() =~= dv_objs(fields@));
            assert(mstart.0 matches Ok(all) && all == dv_objs(fields@) && mstart.1 == *pos as int);
        }
        match expect_punct(toks, pos, "}") {
            Ok(_) => (),
            Err(e) => { return Err(e); },
        }
        Ok(Value::ObjectValue(fields))
    } else {
        Err(unexpected(t, "a value"))
    }
}


/// Parses a parenthesized, non-empty argument list.
fn parse_arguments(toks: &Vec<Token>, pos: &mut usize, depth: u32, const_ctx: bool) -> (r: Result<
    Vec<Argument>, ValidationError>)
    requires
        wf_toks(toks@),
        *old(pos) < toks@.len(),
    ensures
        *old(pos) <= *final(pos) < toks@.len(),
        r matches Err(e) ==> wf_err_locs(e),
        ({
            let m = p_args(toks_view(toks@), *old(pos) as int, depth, const_ctx);
            *final(pos) == m.1 && (match r {
                Result::Ok(args) => m.0 matches Ok(av) && dv_args(args@) == av,
                Result::Err(e) => m.0 matches Err(d) && err_view(e) == d,
            })
        }),
{
    let ghost tv0 = toks_view(toks@);
    let ghost p0 = *pos as int;
    match expect_punct(toks, pos, "(") {
        Ok(_) => (),
        Err(e) => { return Err(e); },
    }
    let ghost fl0: nat = tv0.len() + 1;
    let ghost mstart = p_argloop(tv0, p0 + 1, depth, const_ctx, fl0);
    let ghost mut f: nat = fl0;
    let mut args: Vec<Argument> = Vec::new();
    proof {
        assert(dv_args(args@) =~= Seq::<ArgV>::empty());
        assert(dv_args(args@) + Seq::<ArgV>::empty() =~= dv_args(args@));
    }
    while toks[*pos].kind == TokenKind::Name
        invariant
            wf_toks(toks@),
            tv0 == toks_view(toks@),
            p0 == *old(pos) as int,
            tok_is_punct(tv0[p0], "("@),
            mstart == p_argloop(tv0, p0 + 1, depth, const_ctx, tv0.len() + 1),
            *old(pos) < *pos < toks@.len(),
            f >= toks@.len() - *pos + 1,
            ({
                let rem = p_argloop(tv0, *pos as int, depth, const_ctx, f);
                match rem.0 {
                    Result::Ok(avs) => mstart.0 matches Ok(all) && all == dv_args(args@) + avs
                        && mstart.1 == rem.1,
                    Result::Err(d) => mstart.0 matches Err(d2) && d == d2 && mstart.1 == rem.1,
                }
            }),
        decreases toks@.len() - *pos,
    {
        let ghost pp = *pos as int;
        let ghost fcur = f;
        let (name, nloc) = match expect_name(toks, pos, "an argument name") {
            Ok(p) => p,
            Err(e) => { return Err(e); },
        };
        match expect_punct(toks, pos, ":") {
            Ok(_) => (),
            Err(e) => {
                proof {
                    assert(p_argloop(tv0, pp, depth, const_ctx, fcur).0 matches Err(d)
                        && err_view(e) == d);
                    assert(p_argloop(tv0, pp, depth, const_ctx, fcur).1 == *pos as int);
                }
                return Err(e);
            },
        }
        let value = match parse_value(toks, pos, depth, const_ctx) {
            Ok(v) => v,
            Err(e) => {
                proof {
                    assert(p_argloop(tv0, pp, depth, const_ctx, fcur).0 matches Err(d)
                        && err_view(e) == d);
                    assert(p_argloop(tv0, pp, depth, const_ctx, fcur).1 == *pos as int);
                }
                return Err(e);
            },
        };
        let a = Argument { name, value, position: nloc };
        proof {
            f = (f - 1) as nat;
            assert(args@.push(a).drop_last() =~= args@);
            assert(args@.push(a).last() == a);
            assert(dv_args(args@.push(a)) == dv_args(args@).push(dv_arg(a)));
            let remn = p_argloop(tv0, *pos as int, depth, const_ctx, f);
            assert(p_argloop(tv0, pp, depth, const_ctx, fcur).1 == remn.1);
            if remn.0 is Ok {
                let avs2 = remn.0->Ok_0;
                assert(dv_args(args@) + (seq![dv_arg(a)] + avs2) =~= dv_args(args@).push(dv_arg(a))
                    + avs2);
            }
        }
        args.push(a);
    }
    proof {
        assert(p_argloop(tv0, *pos as int, depth, const_ctx, f).0 == Result::<
            Seq<ArgV>,
            (Seq<char>, Seq<Location>),
        >::Ok(Seq::empty()));
        assert(dv_args(args@) + Seq::<ArgV>::empty() =~= dv_args(args@));
        assert(mstart.0 matches Ok(all) && all == dv_args(args@) && mstart.1 == *pos as int);
        if args@.len() == 0 {
            assert(dv_args(args@) =~= Seq::<ArgV>::empty());
        } else {
            assert(dv_args(args@).len() >= 1);
        }
    }
    if args.len() == 0 {
        return Err(unexpected(&toks[*pos], "an argument"));
    }
    match expect_punct(toks, pos, ")") {
        Ok(_) => (),
        Err(e) => { return Err(e); },
    }
    Ok(args)
}

/// Parses a possibly empty run of directives.
fn parse_directives(toks: &Vec<Token>, pos: &mut usize, depth: u32, const_ctx: bool) -> (r: Result<
    Vec<Directive>, ValidationError>)
    requires
        wf_toks(toks@),
        *old(pos) < toks@.len(),
    ensures
        *old(pos) <= *final(pos) < toks@.len(),
        r matches Err(e) ==> wf_err_locs(e),
        ({
            let m = p_dirs(toks_view(toks@), *old(pos) as int, depth, const_ctx);
            *final(pos) == m.1 && (match r {
                Result::Ok(ds) => m.0 matches Ok(dvs) && dv_dirs(ds@) == dvs,
                Result::Err(e) => m.0 matches Err(d) && err_view(e) == d,
            })
        }),
{
    let ghost tv0 = toks_view(toks@);
    let ghost p0 = *pos as int;
    let ghost fl0: nat = tv0.len() + 1;
    let ghost mstart = p_dirloop(tv0, p0, depth, const_ctx, fl0);
    let ghost mut f: nat = fl0;
    let mut dirs: Vec<Directive> = Vec::new();
    proof {
        assert(dv_dirs(dirs@) =~= Seq::<DirV>::empty());
        assert(dv_dirs(dirs@) + Seq::<DirV>::empty() =~= dv_dirs(dirs@));
    }
    while is_punct(&toks[*pos], "@")
        invariant
            wf_toks(toks@),
            tv0 == toks_view(toks@),
            p0 == *old(pos) as int,
            mstart == p_dirloop(tv0, p0, depth, const_ctx, tv0.len() + 1),
            *old(pos) <= *pos < toks@.len(),
            f >= toks@.len() - *pos + 1,
            ({
                let rem = p_dirloop(tv0, *pos as int, depth, const_ctx, f);
                match rem.0 {
                    Result::Ok(dvs) => mstart.0 matches Ok(all) && all == dv_dirs(dirs@) + dvs
                        && mstart.1 == rem.1,
                    Result::Err(d) => mstart.0 matches Err(d2) && d == d2 && mstart.1 == rem.1,
                }
            }),
        decreases toks@.len() - *pos,
    {
        let ghost pp = *pos as int;
        let ghost fcur = f;
        let loc = toks[*pos].loc;
        advance(toks, pos);
        let (name, _nloc) = match expect_name(toks, pos, "a directive name") {
            Ok(p) => p,
            Err(e) => {
                proof {
                    assert(p_dirloop(tv0, pp, depth, const_ctx, fcur).0 matches Err(d)
                        && err_view(e) == d);
                    assert(p_dirloop(tv0, pp, depth, const_ctx, fcur).1 == *pos as int);
                }
                return Err(e);
            },
        };
        let arguments: Vec<Argument> = if is_punct(&toks[*pos], "(") {
            match parse_arguments(toks, pos, depth, const_ctx) {
                Ok(a) => a,
                Err(e) => {
                    proof {
                        assert(p_dirloop(tv0, pp, depth, const_ctx, fcur).0 matches Err(d)
                            && err_view(e) == d);
                        assert(p_dirloop(tv0, pp, depth, const_ctx, fcur).1 == *pos as int);
                    }
                    return Err(e);
                },
            }
        } else {
            Vec::new()
        };
        let d = Directive { name, arguments, position: loc };
        proof {
            f = (f - 1) as nat;
            assert(dv_args(d.arguments@) + Seq::<ArgV>::empty() =~= dv_args(d.arguments@));
            if d.arguments@.len() == 0 {
                assert(dv_args(d.arguments@) =~= Seq::<ArgV>::empty());
            }
            assert(dirs@.push(d).drop_last() =~= dirs@);
            assert(dirs@.push(d).last() == d);
            assert(dv_dirs(dirs@.push(d)) == dv_dirs(dirs@).push(dv_dir(d)));
            let remn = p_dirloop(tv0, *pos as int, depth, const_ctx, f);
            assert(p_dirloop(tv0, pp, depth, const_ctx, fcur).1 == remn.1);
            if remn.0 is Ok {
                let dvs2 = remn.0->Ok_0;
                assert(dv_dirs(dirs@) + (seq![dv_dir(d)] + dvs2) =~= dv_dirs(dirs@).push(dv_dir(d))
                    + dvs2);
            }
        }
        dirs.push(d);
    }
    proof {
        assert(p_dirloop(tv0, *pos as int, depth, const_ctx, f).0 == Result::<
            Seq<DirV>,
            (Seq<char>, Seq<Location>),
        >::Ok(Seq::empty()));
        assert(dv_dirs(dirs@) + Seq::<DirV>::empty() =~= dv_dirs(dirs@));
        assert(mstart.0 matches Ok(all) && all == dv_dirs(dirs@) && mstart.1 == *pos as int);
    }
    Ok(dirs)
}


/// Parses a braced, non-empty selection set.
fn parse_selection_set(toks: &Vec<Token>, pos: &mut usize, depth: u32) -> (r: Result<Vec<
    Selection>, ValidationError>)
    requires
        wf_toks(toks@),
        *old(pos) < toks@.len(),
    ensures
        *old(pos) <= *final(pos) < toks@.len(),
        r is Ok ==> *final(pos) > *old(pos),
        r matches Ok(v) ==> wf_selection_set(v@),
        r matches Err(e) ==> wf_err_locs(e),
        ({
            let m = p_selset(toks_view(toks@), *old(pos) as int, depth);
            *final(pos) == m.1 && (match r {
                Result::Ok(v) => m.0 matches Ok(sv) && dv_sels(v@) == sv,
                Result::Err(e) => m.0 matches Err(d) && err_view(e) == d,
            })
        }),
    decreases depth, 2int,
{
    let ghost tv0 = toks_view(toks@);
    let ghost p0 = *pos as int;
    if depth == 0 {
        return Err(unexpected(&toks[*pos], "a selection set nested less deeply"));
    }
    match expect_punct(toks, pos, "{") {
        Ok(_) => (),
        Err(e) => { return Err(e); },
    }
    let ghost fl0: nat = tv0.len() + 1;
    let ghost mstart = p_selloop(tv0, p0 + 1, depth, fl0);
    let ghost mut f: nat = fl0;
    let mut sels: Vec<Selection> = Vec::new();
    proof {
        assert(dv_sels(sels@) =~= Seq::<SelV>::empty());
        assert(dv_sels(sels@) + Seq::<SelV>::empty() =~= dv_sels(sels@));
    }
    while !is_punct(&toks[*pos], "}") && !(toks[*pos].kind == TokenKind::Eof)
        invariant
            wf_toks(toks@),
            tv0 == toks_view(toks@),
            p0 == *old(pos) as int,
            tok_is_punct(tv0[p0], "{"@),
            mstart == p_selloop(tv0, p0 + 1, depth, tv0.len() + 1),
            *old(pos) < *pos < toks@.len(),
            wf_sel_list(sels@),
            0 < depth,
            f >= toks@.len() - *pos + 1,
            ({
                let rem = p_selloop(tv0, *pos as int, depth, f);
                match rem.0 {
                    Result::Ok(svs) => mstart.0 matches Ok(all) && all == dv_sels(sels@) + svs
                        && mstart.1 == rem.1,
                    Result::Err(d) => mstart.0 matches Err(d2) && d == d2 && mstart.1 == rem.1,
                }
            }),
        decreases toks@.len() - *pos,
    {
        let ghost pp = *pos as int;
        let ghost fcur = f;
        let sel = match parse_selection(toks, pos, depth) {
            Ok(s) => s,
            Err(e) => {
                proof {
                    assert(p_selloop(tv0, pp, depth, fcur).0 matches Err(d) && err_view(e) == d);
                    assert(p_selloop(tv0, pp, depth, fcur).1 == *pos as int);
                }
                return Err(e);
            },
        };
        proof {
            lemma_wf_sel_list_push(sels@, sel);
            f = (f - 1) as nat;
            assert(sels@.push(sel).drop_last() =~= sels@);
            assert(sels@.push(sel).last() == sel);
            assert(dv_sels(sels@.push(sel)) == dv_sels(sels@).push(dv_sel(sel)));
            let remn = p_selloop(tv0, *pos as int, depth, f);
            assert(p_selloop(tv0, pp, depth, fcur).1 == remn.1);
            if remn.0 is Ok {
                let svs2 = remn.0->Ok_0;
                assert(dv_sels(sels@) + (seq![dv_sel(sel)] + svs2) =~= dv_sels(sels@).push(
                    dv_sel(sel),
                ) + svs2);
            }
        }
        sels.push(sel);
    }
    proof {
        assert(p_selloop(tv0, *pos as int, depth, f).0 == Result::<
            Seq<SelV>,
            (Seq<char>, Seq<Location>),
        >::Ok(Seq::empty()));
        assert(dv_sels(sels@) + Seq::<SelV>::empty() =~= dv_sels(sels@));
        assert(mstart.0 matches Ok(all) && all == dv_sels(sels@) && mstart.1 == *pos as int);
        if sels@.len() == 0 {
            assert(dv_sels(sels@) =~= Seq::<SelV>::empty());
        } else {
            assert(dv_sels(sels@).len() >= 1);
        }
    }
    if sels.len() == 0 {
        return Err(unexpected(&toks[*pos], "a selection"));
    }
    match expect_punct(toks, pos, "}") {
        Ok(_) => (),
        Err(e) => { return Err(e); },
    }
    Ok(sels)
}

/// Parses one selection: a field, a fragment spread or an inline fragment.
fn parse_selection(toks: &Vec<Token>, pos: &mut usize, depth: u32) -> (r: Result<Selection,
    ValidationError>)
    requires
        wf_toks(toks@),
        *old(pos) < toks@.len(),
        0 < depth,
    ensures
        *old(pos) <= *final(pos) < toks@.len(),
        r is Ok ==> *final(pos) > *old(pos),
        r matches Ok(s) ==> wf_sel(s),
        r matches Err(e) ==> wf_err_locs(e),
        ({
            let m = p_sel(toks_view(toks@), *old(pos) as int, depth);
            *final(pos) == m.1 && (match r {
                Result::Ok(s) => m.0 matches Ok(sv) && dv_sel(s) == sv,
                Result::Err(e) => m.0 matches Err(d) && err_view(e) == d,
            })
        }),
    decreases depth, 1int,
{
    let ghost tv0 = toks_view(toks@);
    let ghost p0 = *pos as int;
    let t = &toks[*pos];
    if is_punct(t, "...") {
        let loc = t.loc;
        advance(toks, pos);
        proof {
            assert(*pos as int == p0 + 1);
        }
        let t2 = &toks[*pos];
        if t2.kind == TokenKind::Name && !text_is(t2, "on") {
            let name = t2.text.clone();
            advance(toks, pos);
            proof {
                assert(*pos as int == p0 + 2);
            }
            let directives = match parse_directives(toks, pos, depth, false) {
                Ok(d) => d,
                Err(e) => { return Err(e); },
            };
            Ok(Selection::FragmentSpread(FragmentSpread { name, directives, position: loc }))
        } else {
            let on_type: Option<String> = if t2.kind == TokenKind::Name {
                // the name can only be `on` here
                advance(toks, pos);
                proof {
                    assert(*pos as int == p0 + 2);
                }
                let (ty, _tloc) = match expect_name(toks, pos, "a type condition") {
                    Ok(p) => p,
                    Err(e) => { return Err(e); },
                };
                Some(ty)
            } else {
                None
            };
            let ghost prest = *pos as int;
            let ghost mrest = p_inline_rest(tv0, prest, depth, dv_opt_str(on_type), loc);
            let directives = match parse_directives(toks, pos, depth, false) {
                Ok(d) => d,
                Err(e) => {
                    proof {
                        assert(mrest.0 matches Err(d) && err_view(e) == d && mrest.1
                            == *pos as int);
                    }
                    return Err(e);
                },
            };
            let selection_set = match parse_selection_set(toks, pos, depth - 1) {
                Ok(s) => s,
                Err(e) => {
                    proof {
                        assert(mrest.0 matches Err(d) && err_view(e) == d && mrest.1
                            == *pos as int);
                    }
                    return Err(e);
                },
            };
            let r = Selection::InlineFragment(InlineFragment {
                on_type,
                directives,
                selection_set,
                position: loc,
            });
            proof {
                assert(mrest.0 matches Ok(sv) && dv_sel(r) == sv && mrest.1 == *pos as int);
            }
            Ok(r)
        }
    } else if t.kind == TokenKind::Name {
        parse_field(toks, pos, depth)
    } else {
        Err(unexpected(t, "a selection"))
    }
}

/// Parses a field with its optional alias, arguments, directives and
/// nested selection set.
fn parse_field(toks: &Vec<Token>, pos: &mut usize, depth: u32) -> (r: Result<Selection,
    ValidationError>)
    requires
        wf_toks(toks@),
        *old(pos) < toks@.len(),
        toks@[*old(pos) as int].kind is Name,
        0 < depth,
    ensures
        *old(pos) <= *final(pos) < toks@.len(),
        r is Ok ==> *final(pos) > *old(pos),
        r matches Ok(s) ==> wf_sel(s),
        r matches Err(e) ==> wf_err_locs(e),
        ({
            let m = p_field(toks_view(toks@), *old(pos) as int, depth);
            *final(pos) == m.1 && (match r {
                Result::Ok(s) => m.0 matches Ok(sv) && dv_sel(s) == sv,
                Result::Err(e) => m.0 matches Err(d) && err_view(e) == d,
            })
        }),
    decreases depth, 0int,
{
    let ghost tv0 = toks_view(toks@);
    let ghost p0 = *pos as int;
    let loc = toks[*pos].loc;
    let first = toks[*pos].text.clone();
    advance(toks, pos);
    proof {
        assert(*pos as int == p0 + 1);
    }
    let alias: Option<String>;
    let name: String;
    if is_punct(&toks[*pos], ":") {
        advance(toks, pos);
        proof {
            assert(*pos as int == p0 + 2);
        }
        let (n, _nloc) = match expect_name(toks, pos, "a field name") {
            Ok(p) => p,
            Err(e) => { return Err(e); },
        };
        alias = Some(first);
        name = n;
    } else {
        alias = None;
        name = first;
    }
    let ghost prest = *pos as int;
    let ghost mrest = p_field_rest(tv0, prest, depth, dv_opt_str(alias), name@, loc);
    let arguments: Vec<Argument> = if is_punct(&toks[*pos], "(") {
        match parse_arguments(toks, pos, depth, false) {
            Ok(a) => a,
            Err(e) => {
                proof {
                    assert(mrest.0 matches Err(d) && err_view(e) == d && mrest.1 == *pos as int);
                }
                return Err(e);
            },
        }
    } else {
        Vec::new()
    };
    proof {
        if arguments@.len() == 0 {
            assert(dv_args(arguments@) =~= Seq::<ArgV>::empty());
        }
    }
    let directives = match parse_directives(toks, pos, depth, false) {
        Ok(d) => d,
        Err(e) => {
            proof {
                assert(mrest.0 matches Err(d) && err_view(e) == d && mrest.1 == *pos as int);
            }
            return Err(e);
        },
    };
    let selection_set: Option<Vec<Selection>> = if is_punct(&toks[*pos], "{") {
        match parse_selection_set(toks, pos, depth - 1) {
            Ok(s) => Some(s),
            Err(e) => {
                proof {
                    assert(mrest.0 matches Err(d) && err_view(e) == d && mrest.1 == *pos as int);
                }
                return Err(e);
            },
        }
    } else {
        None
    };
    let r = Selection::Field(
        Field { alias, name, arguments, directives, selection_set, position: loc },
    );
    proof {
        assert(mrest.0 matches Ok(sv) && dv_sel(r) == sv && mrest.1 == *pos as int);
    }
    Ok(r)
}


/// Parses a parenthesized, non-empty variable-definition list.
fn parse_variable_definitions(toks: &Vec<Token>, pos: &mut usize) -> (r: Result<Vec<
    VariableDefinition>, ValidationError>)
    requires
        wf_toks(toks@),
        *old(pos) < toks@.len(),
    ensures
        *old(pos) <= *final(pos) < toks@.len(),
        r matches Err(e) ==> wf_err_locs(e),
        ({
            let m = p_vardefs(toks_view(toks@), *old(pos) as int);
            *final(pos) == m.1 && (match r {
                Result::Ok(vds) => m.0 matches Ok(vv) && dv_vardefs(vds@) == vv,
                Result::Err(e) => m.0 matches Err(d) && err_view(e) == d,
            })
        }),
{
    let ghost tv0 = toks_view(toks@);
    let ghost p0 = *pos as int;
    match expect_punct(toks, pos, "(") {
        Ok(_) => (),
        Err(e) => { return Err(e); },
    }
    let ghost fl0: nat = tv0.len() + 1;
    let ghost mstart = p_vardefloop(tv0, p0 + 1, fl0);
    let ghost mut f: nat = fl0;
    let mut defs: Vec<VariableDefinition> = Vec::new();
    proof {
        assert(dv_vardefs(defs@) =~= Seq::<VarDefV>::empty());
        assert(dv_vardefs(defs@) + Seq::<VarDefV>::empty() =~= dv_vardefs(defs@));
    }
    while is_punct(&toks[*pos], "$")
        invariant
            wf_toks(toks@),
            tv0 == toks_view(toks@),
            p0 == *old(pos) as int,
            tok_is_punct(tv0[p0], "("@),
            mstart == p_vardefloop(tv0, p0 + 1, tv0.len() + 1),
            *old(pos) < *pos < toks@.len(),
            f >= toks@.len() - *pos + 1,
            ({
                let rem = p_vardefloop(tv0, *pos as int, f);
                match rem.0 {
                    Result::Ok(vvs) => mstart.0 matches Ok(all) && all == dv_vardefs(defs@) + vvs
                        && mstart.1 == rem.1,
                    Result::Err(d) => mstart.0 matches Err(d2) && d == d2 && mstart.1 == rem.1,
                }
            }),
        decreases toks@.len() - *pos,
    {
        let ghost pp = *pos as int;
        let ghost fcur = f;
        let loc = toks[*pos].loc;
        advance(toks, pos);
        let (name, _nloc) = match expect_name(toks, pos, "a variable name") {
            Ok(p) => p,
            Err(e) => {
                proof {
                    assert(p_vardefloop(tv0, pp, fcur).0 matches Err(d) && err_view(e) == d);
                    assert(p_vardefloop(tv0, pp, fcur).1 == *pos as int);
                }
                return Err(e);
            },
        };
        match expect_punct(toks, pos, ":") {
            Ok(_) => (),
            Err(e) => {
                proof {
                    assert(p_vardefloop(tv0, pp, fcur).0 matches Err(d) && err_view(e) == d);
                    assert(p_vardefloop(tv0, pp, fcur).1 == *pos as int);
                }
                return Err(e);
            },
        }
        let var_type = match parse_type(toks, pos, MAX_DEPTH) {
            Ok(t) => t,
            Err(e) => {
                proof {
                    assert(p_vardefloop(tv0, pp, fcur).0 matches Err(d) && err_view(e) == d);
                    assert(p_vardefloop(tv0, pp, fcur).1 == *pos as int);
                }
                return Err(e);
            },
        };
        let default_value: Option<Value> = if is_punct(&toks[*pos], "=") {
            advance(toks, pos);
            match parse_value(toks, pos, MAX_DEPTH, true) {
                Ok(v) => Some(v),
                Err(e) => {
                    proof {
                        assert(p_vardefloop(tv0, pp, fcur).0 matches Err(d) && err_view(e) == d);
                        assert(p_vardefloop(tv0, pp, fcur).1 == *pos as int);
                    }
                    return Err(e);
                },
            }
        } else {
            None
        };
        let directives = match parse_directives(toks, pos, MAX_DEPTH, true) {
            Ok(d) => d,
            Err(e) => {
                proof {
                    assert(p_vardefloop(tv0, pp, fcur).0 matches Err(d) && err_view(e) == d);
                    assert(p_vardefloop(tv0, pp, fcur).1 == *pos as int);
                }
                return Err(e);
            },
        };
        let vd = VariableDefinition { name, var_type, default_value, directives, position: loc };
        proof {
            f = (f - 1) as nat;
            assert(defs@.push(vd).drop_last() =~= defs@);
            assert(defs@.push(vd).last() == vd);
            assert(dv_vardefs(defs@.push(vd)) == dv_vardefs(defs@).push(dv_vardef(vd)));
            let remn = p_vardefloop(tv0, *pos as int, f);
            assert(p_vardefloop(tv0, pp, fcur).1 == remn.1);
            if remn.0 is Ok {
                let vvs2 = remn.0->Ok_0;
                assert(dv_vardefs(defs@) + (seq![dv_vardef(vd)] + vvs2) =~= dv_vardefs(
                    defs@,
                ).push(dv_vardef(vd)) + vvs2);
            }
        }
        defs.push(vd);
    }
    proof {
        assert(p_vardefloop(tv0, *pos as int, f).0 == Result::<
            Seq<VarDefV>,
            (Seq<char>, Seq<Location>),
        >::Ok(Seq::empty()));
        assert(dv_vardefs(defs@) + Seq::<VarDefV>::empty() =~= dv_vardefs(defs@));
        assert(mstart.0 matches Ok(all) && all == dv_vardefs(defs@) && mstart.1 == *pos as int);
        if defs@.len() == 0 {
            assert(dv_vardefs(defs@) =~= Seq::<VarDefV>::empty());
        } else {
            assert(dv_vardefs(defs@).len() >= 1);
        }
    }
    if defs.len() == 0 {
        return Err(unexpected(&toks[*pos], "a variable definition"));
    }
    match expect_punct(toks, pos, ")") {
        Ok(_) => (),
        Err(e) => { return Err(e); },
    }
    Ok(defs)
}

/// Parses an operation definition whose `query`/`mutation`/`subscription`
/// keyword sits at the current token.
fn parse_operation(toks: &Vec<Token>, pos: &mut usize, op_type: OperationType) -> (r: Result<
    Definition, ValidationError>)
    requires
        wf_toks(toks@),
        *old(pos) < toks@.len(),
        !(toks@[*old(pos) as int].kind is Eof),
    ensures
        *old(pos) <= *final(pos) < toks@.len(),
        r is Ok ==> *final(pos) > *old(pos),
        r matches Ok(d) ==> wf_definition(d),
        r matches Err(e) ==> wf_err_locs(e),
        ({
            let m = p_operation(toks_view(toks@), *old(pos) as int, op_type);
            *final(pos) == m.1 && (match r {
                Result::Ok(d) => m.0 matches Ok(dv) && dv_def(d) == dv,
                Result::Err(e) => m.0 matches Err(d2) && err_view(e) == d2,
            })
        }),
{
    let ghost tv0 = toks_view(toks@);
    let ghost p0 = *pos as int;
    let loc = toks[*pos].loc;
    advance(toks, pos);
    proof {
        assert(*pos as int == p0 + 1);
    }
    let name: Option<String> = if toks[*pos].kind == TokenKind::Name {
        let n = toks[*pos].text.clone();
        advance(toks, pos);
        Some(n)
    } else {
        None
    };
    let variable_definitions: Vec<VariableDefinition> = if is_punct(&toks[*pos], "(") {
        match parse_variable_definitions(toks, pos) {
            Ok(v) => v,
            Err(e) => { return Err(e); },
        }
    } else {
        Vec::new()
    };
    proof {
        if variable_definitions@.len() == 0 {
            assert(dv_vardefs(variable_definitions@) =~= Seq::<VarDefV>::empty());
        }
    }
    let directives = match parse_directives(toks, pos, MAX_DEPTH, false) {
        Ok(d) => d,
        Err(e) => { return Err(e); },
    };
    let selection_set = match parse_selection_set(toks, pos, MAX_DEPTH) {
        Ok(s) => s,
        Err(e) => { return Err(e); },
    };
    Ok(Definition::Operation(OperationDefinition {
        op_type,
        name,
        variable_definitions,
        directives,
        selection_set,
        position: loc,
    }))
}

/// Parses a fragment definition whose `fragment` keyword sits at the
/// current token.
fn parse_fragment(toks: &Vec<Token>, pos: &mut usize) -> (r: Result<Definition, ValidationError>)
    requires
        wf_toks(toks@),
        *old(pos) < toks@.len(),
        !(toks@[*old(pos) as int].kind is Eof),
    ensures
        *old(pos) <= *final(pos) < toks@.len(),
        r is Ok ==> *final(pos) > *old(pos),
        r matches Ok(d) ==> wf_definition(d),
        r matches Err(e) ==> wf_err_locs(e),
        ({
            let m = p_fragment(toks_view(toks@), *old(pos) as int);
            *final(pos) == m.1 && (match r {
                Result::Ok(d) => m.0 matches Ok(dv) && dv_def(d) == dv,
                Result::Err(e) => m.0 matches Err(d2) && err_view(e) == d2,
            })
        }),
{
    let ghost tv0 = toks_view(toks@);
    let ghost p0 = *pos as int;
    let loc = toks[*pos].loc;
    advance(toks, pos);
    proof {
        assert(*pos as int == p0 + 1);
    }
    let t = &toks[*pos];
    if !(t.kind == TokenKind::Name) || text_is(t, "on") {
        return Err(unexpected(t, "a fragment name"));
    }
    let name = t.text.clone();
    advance(toks, pos);
    proof {
        assert(*pos as int == p0 + 2);
    }
    let t2 = &toks[*pos];
    if !(t2.kind == TokenKind::Name) || !text_is(t2, "on") {
        return Err(unexpected(t2, "'on'"));
    }
    advance(toks, pos);
    proof {
        assert(*pos as int == p0 + 3);
    }
    let (on_type, _tloc) = match expect_name(toks, pos, "a type condition") {
        Ok(p) => p,
        Err(e) => { return Err(e); },
    };
    let directives = match parse_directives(toks, pos, MAX_DEPTH, false) {
        Ok(d) => d,
        Err(e) => { return Err(e); },
    };
    let selection_set = match parse_selection_set(toks, pos, MAX_DEPTH) {
        Ok(s) => s,
        Err(e) => { return Err(e); },
    };
    Ok(Definition::Fragment(FragmentDefinition {
        name,
        on_type,
        directives,
        selection_set,
        position: loc,
    }))
}

/// Parses one definition at the current token.
fn parse_definition(toks: &Vec<Token>, pos: &mut usize) -> (r: Result<Definition, ValidationError>)
    requires
        wf_toks(toks@),
        *old(pos) < toks@.len(),
        !(toks@[*old(pos) as int].kind is Eof),
    ensures
        *old(pos) <= *final(pos) < toks@.len(),
        r is Ok ==> *final(pos) > *old(pos),
        r matches Ok(d) ==> wf_definition(d),
        r matches Err(e) ==> wf_err_locs(e),
        ({
            let m = p_definition(toks_view(toks@), *old(pos) as int);
            *final(pos) == m.1 && (match r {
                Result::Ok(d) => m.0 matches Ok(dv) && dv_def(d) == dv,
                Result::Err(e) => m.0 matches Err(d2) && err_view(e) == d2,
            })
        }),
{
    let ghost tv0 = toks_view(toks@);
    let ghost p0 = *pos as int;
    let t = &toks[*pos];
    if is_punct(t, "{") {
        let loc = t.loc;
        let selection_set = match parse_selection_set(toks, pos, MAX_DEPTH) {
            Ok(s) => s,
            Err(e) => { return Err(e); },
        };
        let r = Definition::Operation(OperationDefinition {
            op_type: OperationType::Query,
            name: None,
            variable_definitions: Vec::new(),
            directives: Vec::new(),
            selection_set,
            position: loc,
        });
        proof {
            assert(dv_vardefs(Seq::<VariableDefinition>::empty()) =~= Seq::<VarDefV>::empty());
            assert(dv_dirs(Seq::<Directive>::empty()) =~= Seq::<DirV>::empty());
            assert(p_definition(tv0, p0, ).0 matches Ok(dv) && dv_def(r) == dv);
        }
        Ok(r)
    } else if t.kind == TokenKind::Name {
        if text_is(t, "query") {
            parse_operation(toks, pos, OperationType::Query)
        } else if text_is(t, "mutation") {
            parse_operation(toks, pos, OperationType::Mutation)
        } else if text_is(t, "subscription") {
            parse_operation(toks, pos, OperationType::Subscription)
        } else if text_is(t, "fragment") {
            parse_fragment(toks, pos)
        } else {
            Err(unexpected(t, "a definition"))
        }
    } else {
        Err(unexpected(t, "a definition"))
    }
}

/// True of tokens at which recovery can restart a definition.
fn at_definition_start(t: &Token) -> (r: bool)
    ensures
        r == p_defstart((t.kind, t.text@, t.loc)),
{
    if t.kind == TokenKind::Name {
        text_is(t, "query") || text_is(t, "mutation") || text_is(t, "subscription") || text_is(
            t,
            "fragment",
        )
    } else {
        is_punct(t, "{")
    }
}

/// Skips ahead to a plausible start of the next definition.
fn sync_to_definition(toks: &Vec<Token>, pos: &mut usize)
    requires
        wf_toks(toks@),
        *old(pos) < toks@.len(),
    ensures
        *old(pos) <= *final(pos) < toks@.len(),
        !(toks@[*old(pos) as int].kind is Eof) ==> *final(pos) > *old(pos),
        *final(pos) == p_sync(toks_view(toks@), *old(pos) as int),
{
    let ghost tv0 = toks_view(toks@);
    let ghost p0 = *pos as int;
    advance(toks, pos);
    let ghost q0 = *pos as int;
    let ghost fl0: nat = tv0.len() + 1;
    let ghost mut f: nat = fl0;
    while !(toks[*pos].kind == TokenKind::Eof) && !at_definition_start(&toks[*pos])
        invariant_except_break
            p_syncloop(tv0, q0, fl0) == p_syncloop(tv0, *pos as int, f),
        invariant
            wf_toks(toks@),
            tv0 == toks_view(toks@),
            p0 == *old(pos) as int,
            q0 == padv(tv0, p0),
            *old(pos) <= *pos < toks@.len(),
            !(toks@[*old(pos) as int].kind is Eof) ==> *old(pos) < *pos,
            f >= toks@.len() - *pos + 1,
        ensures
            p_syncloop(tv0, q0, fl0) == *pos as int,
        decreases toks@.len() - *pos,
    {
        let brace = is_punct(&toks[*pos], "}");
        proof {
            assert(f > 0);
        }
        advance(toks, pos);
        proof {
            f = (f - 1) as nat;
        }
        if brace {
            proof {
                assert(p_syncloop(tv0, q0, fl0) == *pos as int);
            }
            break ;
        }
    }
    proof {
        assert(p_sync(tv0, p0) == *pos as int);
    }
}

/// Parses a whole token stream, recovering at definition boundaries so
/// that several syntax errors can be reported in one pass.
fn parse_token_stream(toks: &Vec<Token>, pos: &mut usize) -> (r: (Document, Vec<ValidationError>))
    requires
        wf_toks(toks@),
        *old(pos) < toks@.len(),
    ensures
        r.1@.len() == 0 ==> wf_document(r.0),
        forall|k: int| 0 <= k < r.1@.len() ==> wf_err_locs(#[trigger] r.1@[k]),
        ({
            let m = p_stream_full(toks_view(toks@), *old(pos) as int);
            dv_defs(r.0.definitions@) == m.0 && errs_view(r.1@) == m.1 && *final(pos) == m.2
        }),
{
    let ghost tv0 = toks_view(toks@);
    let ghost p0 = *pos as int;
    let ghost fl0: nat = tv0.len() + 1;
    let ghost mstart = p_streamloop(tv0, p0, fl0);
    let ghost mut f: nat = fl0;
    let mut defs: Vec<Definition> = Vec::new();
    let mut diags: Vec<ValidationError> = Vec::new();
    proof {
        assert(dv_defs(defs@) =~= Seq::<DefV>::empty());
        assert(dv_defs(defs@) + Seq::<DefV>::empty() =~= dv_defs(defs@));
        assert(errs_view(diags@) =~= Seq::<(Seq<char>, Seq<Location>)>::empty());
        assert(errs_view(diags@) + Seq::<(Seq<char>, Seq<Location>)>::empty() =~= errs_view(
            diags@,
        ));
    }
    while !(toks[*pos].kind == TokenKind::Eof)
        invariant
            wf_toks(toks@),
            tv0 == toks_view(toks@),
            p0 == *old(pos) as int,
            mstart == p_streamloop(tv0, p0, tv0.len() + 1),
            *old(pos) <= *pos < toks@.len(),
            wf_def_list(defs@),
            forall|k: int| 0 <= k < diags@.len() ==> wf_err_locs(#[trigger] diags@[k]),
            f >= toks@.len() - *pos + 1,
            ({
                let rem = p_streamloop(tv0, *pos as int, f);
                mstart.0 == dv_defs(defs@) + rem.0 && mstart.1 == errs_view(diags@) + rem.1
                    && mstart.2 == rem.2
            }),
        decreases toks@.len() - *pos,
    {
        let ghost pp = *pos as int;
        let ghost fcur = f;
        match parse_definition(toks, pos) {
            Ok(d) => {
                proof {
                    lemma_wf_def_list_push(defs@, d);
                    f = (f - 1) as nat;
                    assert(defs@.push(d).drop_last() =~= defs@);
                    assert(defs@.push(d).last() == d);
                    assert(dv_defs(defs@.push(d)) == dv_defs(defs@).push(dv_def(d)));
                    let remn = p_streamloop(tv0, *pos as int, f);
                    assert(dv_defs(defs@) + (seq![dv_def(d)] + remn.0) =~= dv_defs(defs@).push(
                        dv_def(d),
                    ) + remn.0);
                }
                defs.push(d);
            },
            Err(e) => {
                proof {
                    f = (f - 1) as nat;
                    assert(diags@.push(e).drop_last() =~= diags@);
                    assert(errs_view(diags@.push(e)) =~= errs_view(diags@).push(err_view(e)));
                }
                diags.push(e);
                sync_to_definition(toks, pos);
                proof {
                    let remn = p_streamloop(tv0, *pos as int, f);
                    assert(errs_view(diags@.drop_last()) + (seq![err_view(e)] + remn.1)
                        =~= errs_view(diags@.drop_last()).push(err_view(e)) + remn.1);
                    assert(errs_view(diags@) =~= errs_view(diags@.drop_last()).push(err_view(e)));
                }
            },
        }
    }
    proof {
        assert(p_streamloop(tv0, *pos as int, f) == (
            Seq::<DefV>::empty(),
            Seq::<(Seq<char>, Seq<Location>)>::empty(),
            *pos as int,
        ));
        assert(mstart.0 == dv_defs(defs@) && mstart.1 == errs_view(diags@) && mstart.2
            == *pos as int);
        if defs@.len() == 0 {
            assert(dv_defs(defs@) =~= Seq::<DefV>::empty());
        } else {
            assert(dv_defs(defs@).len() >= 1);
        }
        if diags@.len() == 0 {
            assert(errs_view(diags@) =~= Seq::<(Seq<char>, Seq<Location>)>::empty());
        }
    }
    if defs.len() == 0 && diags.len() == 0 {
        let e = unexpected(&toks[*pos], "a definition");
        proof {
            assert(errs_view(diags@.push(e)) =~= errs_view(diags@).push(err_view(e)));
            assert(errs_view(diags@).push(err_view(e)) =~= seq![err_view(e)]);
        }
        diags.push(e);
    }
    (Document { definitions: defs }, diags)
}

fn copy_locs(v: &Vec<Location>) -> (r: Vec<Location>)
    ensures
        r@ == v@,
{
    let mut r: Vec<Location> = Vec::new();
    let n = v.len();
    let mut j: usize = 0;
    while j < n
        invariant
            j <= n == v@.len(),
            r@ == v@.take(j as int),
        decreases n - j,
    {
        r.push(v[j]);
        proof {
            assert(v@.take(j as int).push(v@[j as int]) =~= v@.take(j + 1));
        }
        j = j + 1;
    }
    proof {
        assert(v@.take(n as int) =~= v@);
    }
    r
}

/// Parses source text into a document, or into the list of syntax errors,
/// each tagged with the identifying `path` label. The result is exactly
/// the specified parse of the text: success exactly when the grammar
/// accepts, returning the specified document; failure returning exactly
/// the collected diagnostics, tagged, in order, with 1-based locations.
pub fn parse_query(query: &str, path: &str) -> (r: Result<Document, Vec<ValidationError>>)
    ensures
        r matches Ok(d) ==> wf_document(d),
        r matches Err(es) ==> es@.len() > 0 && forall|k: int|
            0 <= k < es@.len() ==> wf_err_locs(#[trigger] es@[k]),
        ({
            let ps = parse_spec(query@);
            match r {
                Result::Ok(d) => ps matches Ok(dv) && dv_doc(d) == dv,
                Result::Err(es) => ps matches Err(ds) && errs_view(es@) == tag_diags(path@, ds),
            }
        }),
{
    let toks = tokenize(query);
    let mut pos: usize = 0;
    let (doc, diags) = parse_token_stream(&toks, &mut pos);
    if diags.len() == 0 {
        proof {
            assert(errs_view(diags@) =~= Seq::<(Seq<char>, Seq<Location>)>::empty());
        }
        Ok(doc)
    } else {
        let mut tagged: Vec<ValidationError> = Vec::new();
        let mut i: usize = 0;
        while i < diags.len()
            invariant
                tagged@.len() == i <= diags@.len(),
                forall|k: int| 0 <= k < diags@.len() ==> wf_err_locs(#[trigger] diags@[k]),
                forall|k: int| 0 <= k < tagged@.len() ==> wf_err_locs(#[trigger] tagged@[k]),
                forall|k: int|
                    0 <= k < tagged@.len() ==> err_view(#[trigger] tagged@[k]) == (
                        path@ + ": syntax error: "@ + errs_view(diags@)[k].0,
                        errs_view(diags@)[k].1,
                    ),
            decreases diags@.len() - i,
        {
            let d = &diags[i];
            let mut m = path.to_owned();
            m.append(": syntax error: ");
            m.append(d.message.as_str());
            tagged.push(ValidationError { message: m, locations: copy_locs(&d.locations) });
            i = i + 1;
        }
        proof {
            assert(errs_view(tagged@) =~= tag_diags(path@, errs_view(diags@)));
        }
        Err(tagged)
    }
}


} // verus!
