//! Lexer: turns source text into a token stream with 1-based line/column
//! positions, counting columns in code points. It never fails: unrecognized
//! or unterminated constructs become `Error` tokens for the parser to
//! report. The `lex_spec` functions define the token stream of a source
//! text; `tokenize` is proved to return exactly that stream.
use vstd::prelude::*;
use vstd::string::StrSliceExecFns;
use crate::Location;

verus! {

#[derive(Clone, Copy, PartialEq, Eq, Structural, Debug)]
pub enum TokenKind {
    Name,
    IntValue,
    FloatValue,
    StringValue,
    Punctuator,
    Error,
    Eof,
}

/// A token: its kind, its raw source spelling, and the position of its first
/// character.
#[derive(Clone, Debug)]
pub struct Token {
    pub kind: TokenKind,
    pub text: String,
    pub loc: Location,
}

pub open spec fn toks_view(s: Seq<Token>) -> Seq<(TokenKind, Seq<char>, Location)> {
    Seq::new(s.len(), |i: int| (s[i].kind, s[i].text@, s[i].loc))
}

/// A lexed token stream ends with exactly one end-of-input token.
pub open spec fn wf_toks(ts: Seq<Token>) -> bool {
    &&& ts.len() >= 1
    &&& ts[ts.len() - 1].kind is Eof
    &&& forall|k: int| 0 <= k < ts.len() - 1 ==> !((#[trigger] ts[k]).kind is Eof)
    &&& forall|k: int| 0 <= k < ts.len() ==> (#[trigger] ts[k]).loc.line >= 1 && ts[k].loc.column
        >= 1
}

/// Position counters advance by one, saturating instead of overflowing.
pub open spec fn sinc(x: usize) -> usize {
    if x < usize::MAX {
        (x + 1) as usize
    } else {
        x
    }
}

pub open spec fn s_name_start(u: u32) -> bool {
    u == 0x5F || (0x41 <= u && u <= 0x5A) || (0x61 <= u && u <= 0x7A)
}

pub open spec fn s_name_cont(u: u32) -> bool {
    s_name_start(u) || (0x30 <= u && u <= 0x39)
}

pub open spec fn s_digit(u: u32) -> bool {
    0x30 <= u && u <= 0x39
}

pub open spec fn s_punct(u: u32) -> bool {
    u == 0x21 || u == 0x24 || u == 0x26 || u == 0x28 || u == 0x29 || u == 0x3A || u == 0x3D || u
        == 0x40 || u == 0x5B || u == 0x5D || u == 0x7B || u == 0x7C || u == 0x7D
}

/// The end of a comment: everything up to the next line terminator.
pub open spec fn scan_comment(cs: Seq<char>, i: int, col: usize) -> (int, usize)
    decreases cs.len() - i,
{
    if i < cs.len() && (cs[i] as u32) != 0x0A && (cs[i] as u32) != 0x0D {
        scan_comment(cs, i + 1, sinc(col))
    } else {
        (i, col)
    }
}

pub open spec fn scan_name(cs: Seq<char>, i: int, col: usize) -> (int, usize)
    decreases cs.len() - i,
{
    if i < cs.len() && s_name_cont(cs[i] as u32) {
        scan_name(cs, i + 1, sinc(col))
    } else {
        (i, col)
    }
}

pub open spec fn scan_digits(cs: Seq<char>, i: int, col: usize) -> (int, usize)
    decreases cs.len() - i,
{
    if i < cs.len() && s_digit(cs[i] as u32) {
        scan_digits(cs, i + 1, sinc(col))
    } else {
        (i, col)
    }
}

/// An integer or float literal starting at `i` (a digit or minus sign):
/// its kind, end position and end column. A lone minus sign is an error
/// token.
pub open spec fn lex_number(cs: Seq<char>, i: int, col: usize) -> (TokenKind, int, usize) {
    let neg = (cs[i] as u32) == 0x2D;
    let r1 = scan_digits(cs, i + 1, sinc(col));
    if neg && r1.0 == i + 1 {
        (TokenKind::Error, r1.0, r1.1)
    } else {
        let has_frac = r1.0 < cs.len() && (cs[r1.0] as u32) == 0x2E && r1.0 + 1 < cs.len()
            && s_digit(cs[r1.0 + 1] as u32);
        let r2 = if has_frac {
            scan_digits(cs, r1.0 + 1, sinc(r1.1))
        } else {
            r1
        };
        let sgn = r2.0 + 1 < cs.len() && ((cs[r2.0 + 1] as u32) == 0x2B || (cs[r2.0 + 1] as u32)
            == 0x2D);
        let j = if sgn {
            r2.0 + 2
        } else {
            r2.0 + 1
        };
        let has_exp = r2.0 < cs.len() && ((cs[r2.0] as u32) == 0x45 || (cs[r2.0] as u32) == 0x65)
            && j < cs.len() && s_digit(cs[j] as u32);
        let r3 = if has_exp {
            scan_digits(cs, j, if sgn {
                sinc(sinc(r2.1))
            } else {
                sinc(r2.1)
            })
        } else {
            r2
        };
        let kind = if has_frac || has_exp {
            TokenKind::FloatValue
        } else {
            TokenKind::IntValue
        };
        (kind, r3.0, r3.1)
    }
}

/// The end of a single-quoted string: end position, end column, and
/// whether the closing quote was reached on this line.
pub open spec fn scan_string(cs: Seq<char>, i: int, col: usize) -> (int, usize, bool)
    decreases cs.len() - i,
{
    if i >= cs.len() {
        (i, col, false)
    } else {
        let d = cs[i] as u32;
        if d == 0x5C && i + 1 < cs.len() {
            scan_string(cs, i + 2, sinc(sinc(col)))
        } else if d == 0x22 {
            (i + 1, sinc(col), true)
        } else if d == 0x0A || d == 0x0D {
            (i, col, false)
        } else {
            scan_string(cs, i + 1, sinc(col))
        }
    }
}

/// The end of a block string: end position, line, column, and whether the
/// closing triple quote was reached.
pub open spec fn scan_block(cs: Seq<char>, i: int, line: usize, col: usize) -> (
    int,
    usize,
    usize,
    bool,
)
    decreases cs.len() - i,
{
    if i >= cs.len() {
        (i, line, col, false)
    } else {
        let d = cs[i] as u32;
        if d == 0x5C && cs.len() - i > 3 && (cs[i + 1] as u32) == 0x22 && (cs[i + 2] as u32) == 0x22
            && (cs[i + 3] as u32) == 0x22 {
            scan_block(cs, i + 4, line, sinc(sinc(sinc(sinc(col)))))
        } else if d == 0x22 && cs.len() - i > 2 && (cs[i + 1] as u32) == 0x22 && (cs[i
            + 2] as u32) == 0x22 {
            (i + 3, line, sinc(sinc(sinc(col))), true)
        } else if d == 0x0A {
            scan_block(cs, i + 1, sinc(line), 1)
        } else if d == 0x0D {
            if i + 1 < cs.len() && (cs[i + 1] as u32) == 0x0A {
                scan_block(cs, i + 2, sinc(line), 1)
            } else {
                scan_block(cs, i + 1, sinc(line), 1)
            }
        } else {
            scan_block(cs, i + 1, line, sinc(col))
        }
    }
}

/// The token stream of the source from position `i` on. One recursion step
/// per token or skipped run; the fuel is sized so that it never runs out
/// on any input.
pub open spec fn lex_spec(cs: Seq<char>, i: int, line: usize, col: usize, fuel: nat) -> Seq<
    (TokenKind, Seq<char>, Location),
>
    decreases fuel,
{
    if fuel == 0 {
        Seq::empty()
    } else if i < 0 || i >= cs.len() {
        seq![(TokenKind::Eof, Seq::<char>::empty(), Location { line, column: col })]
    } else {
        let u = cs[i] as u32;
        let loc = Location { line, column: col };
        if u == 0x0A {
            lex_spec(cs, i + 1, sinc(line), 1, (fuel - 1) as nat)
        } else if u == 0x0D {
            if i + 1 < cs.len() && (cs[i + 1] as u32) == 0x0A {
                lex_spec(cs, i + 2, sinc(line), 1, (fuel - 1) as nat)
            } else {
                lex_spec(cs, i + 1, sinc(line), 1, (fuel - 1) as nat)
            }
        } else if u == 0x20 || u == 0x09 || u == 0x2C || u == 0xFEFF {
            lex_spec(cs, i + 1, line, sinc(col), (fuel - 1) as nat)
        } else if u == 0x23 {
            let r = scan_comment(cs, i + 1, sinc(col));
            lex_spec(cs, r.0, line, r.1, (fuel - 1) as nat)
        } else if s_name_start(u) {
            let r = scan_name(cs, i + 1, sinc(col));
            seq![(TokenKind::Name, cs.subrange(i, r.0), loc)] + lex_spec(
                cs,
                r.0,
                line,
                r.1,
                (fuel - 1) as nat,
            )
        } else if s_digit(u) || u == 0x2D {
            let r = lex_number(cs, i, col);
            seq![(r.0, cs.subrange(i, r.1), loc)] + lex_spec(cs, r.1, line, r.2, (fuel - 1) as nat)
        } else if u == 0x22 {
            if cs.len() - i > 2 && (cs[i + 1] as u32) == 0x22 && (cs[i + 2] as u32) == 0x22 {
                let r = scan_block(cs, i + 3, line, sinc(sinc(sinc(col))));
                let kind = if r.3 {
                    TokenKind::StringValue
                } else {
                    TokenKind::Error
                };
                seq![(kind, cs.subrange(i, r.0), loc)] + lex_spec(
                    cs,
                    r.0,
                    r.1,
                    r.2,
                    (fuel - 1) as nat,
                )
            } else {
                let r = scan_string(cs, i + 1, sinc(col));
                let kind = if r.2 {
                    TokenKind::StringValue
                } else {
                    TokenKind::Error
                };
                seq![(kind, cs.subrange(i, r.0), loc)] + lex_spec(
                    cs,
                    r.0,
                    line,
                    r.1,
                    (fuel - 1) as nat,
                )
            }
        } else if s_punct(u) {
            seq![(TokenKind::Punctuator, cs.subrange(i, i + 1), loc)] + lex_spec(
                cs,
                i + 1,
                line,
                sinc(col),
                (fuel - 1) as nat,
            )
        } else if u == 0x2E {
            if cs.len() - i > 2 && (cs[i + 1] as u32) == 0x2E && (cs[i + 2] as u32) == 0x2E {
                seq![(TokenKind::Punctuator, cs.subrange(i, i + 3), loc)] + lex_spec(
                    cs,
                    i + 3,
                    line,
                    sinc(sinc(sinc(col))),
                    (fuel - 1) as nat,
                )
            } else {
                seq![(TokenKind::Error, cs.subrange(i, i + 1), loc)] + lex_spec(
                    cs,
                    i + 1,
                    line,
                    sinc(col),
                    (fuel - 1) as nat,
                )
            }
        } else {
            seq![(TokenKind::Error, cs.subrange(i, i + 1), loc)] + lex_spec(
                cs,
                i + 1,
                line,
                sinc(col),
                (fuel - 1) as nat,
            )
        }
    }
}

/// The token stream of a whole source text.
pub open spec fn lex_spec_full(src: Seq<char>) -> Seq<(TokenKind, Seq<char>, Location)> {
    lex_spec(src, 0, 1, 1, src.len() + 1)
}

/// Collects the characters of a string slice.
pub fn to_chars(s: &str) -> (r: Vec<char>)
    ensures
        r@ == s@,
{
    let n = s.unicode_len();
    let mut r: Vec<char> = Vec::new();
    let mut i: usize = 0;
    while i < n
        invariant
            n == s@.len(),
            i <= n,
            r@ == s@.take(i as int),
        decreases n - i,
    {
        r.push(s.get_char(i));
        assert(s@.take(i as int).push(s@[i as int]) =~= s@.take(i + 1));
        i = i + 1;
    }
    assert(s@.take(n as int) =~= s@);
    r
}

fn inc(x: usize) -> (r: usize)
    ensures
        r == sinc(x),
        r >= x,
        r >= 1,
{
    if x < usize::MAX {
        x + 1
    } else {
        x
    }
}

fn is_name_start(u: u32) -> (r: bool)
    ensures
        r == s_name_start(u),
{
    u == 0x5F || (0x41 <= u && u <= 0x5A) || (0x61 <= u && u <= 0x7A)
}

fn is_name_cont(u: u32) -> (r: bool)
    ensures
        r == s_name_cont(u),
{
    u == 0x5F || (0x41 <= u && u <= 0x5A) || (0x61 <= u && u <= 0x7A) || (0x30 <= u && u <= 0x39)
}

fn is_digit(u: u32) -> (r: bool)
    ensures
        r == s_digit(u),
{
    0x30 <= u && u <= 0x39
}

fn is_punct(u: u32) -> (r: bool)
    ensures
        r == s_punct(u),
{
    u == 0x21 || u == 0x24 || u == 0x26 || u == 0x28 || u == 0x29 || u == 0x3A || u == 0x3D || u
        == 0x40 || u == 0x5B || u == 0x5D || u == 0x7B || u == 0x7C || u == 0x7D
}

/// Builds a token whose text is the given character range of the source.
fn mk_token(kind: TokenKind, src: &str, start: usize, end: usize, line: usize, col: usize) -> (r:
    Token)
    requires
        start <= end <= src@.len(),
        line >= 1,
        col >= 1,
    ensures
        r.kind == kind,
        r.loc.line == line,
        r.loc.column == col,
        r.text@ == src@.subrange(start as int, end as int),
{
    let text = src.substring_char(start, end).to_owned();
    Token { kind, text, loc: Location { line, column: col } }
}

/// Lexes a whole source string: returns exactly the token stream that
/// `lex_spec_full` describes, which always ends in a single end-of-input
/// token with 1-based positions throughout.
pub fn tokenize(src: &str) -> (r: Vec<Token>)
    ensures
        wf_toks(r@),
        toks_view(r@) == lex_spec_full(src@),
{
    let cs = to_chars(src);
    let n = cs.len();
    let mut toks: Vec<Token> = Vec::new();
    let mut i: usize = 0;
    let mut line: usize = 1;
    let mut col: usize = 1;
    let ghost mut f: nat = cs@.len() + 1;
    proof {
        assert(toks_view(toks@) =~= Seq::<(TokenKind, Seq<char>, Location)>::empty());
    }
    while i < n
        invariant
            cs@ == src@,
            n == cs@.len(),
            i <= n,
            line >= 1,
            col >= 1,
            f >= n - i + 1,
            lex_spec_full(src@) == toks_view(toks@) + lex_spec(cs@, i as int, line, col, f),
            forall|k: int|
                0 <= k < toks@.len() ==> !((#[trigger] toks@[k]).kind is Eof) && toks@[k].loc.line
                    >= 1 && toks@[k].loc.column >= 1,
        decreases n - i,
    {
        let ghost i0 = i as int;
        let ghost line0 = line;
        let ghost col0 = col;
        let ghost f0 = f;
        let c = cs[i];
        let u = c as u32;
        if u == 0x0A {
            // line feed
            i = i + 1;
            line = inc(line);
            col = 1;
        } else if u == 0x0D {
            // carriage return, optionally followed by a line feed
            i = i + 1;
            if i < n && (cs[i] as u32) == 0x0A {
                i = i + 1;
            }
            line = inc(line);
            col = 1;
        } else if u == 0x20 || u == 0x09 || u == 0x2C || u == 0xFEFF {
            // insignificant: space, tab, comma, byte order mark
            i = i + 1;
            col = inc(col);
        } else if u == 0x23 {
            // comment: skipped up to (not including) the line terminator
            let ghost start = i as int;
            i = i + 1;
            col = inc(col);
            while i < n && (cs[i] as u32) != 0x0A && (cs[i] as u32) != 0x0D
                invariant
                    n == cs@.len(),
                    start < i <= n,
                    col >= 1,
                    scan_comment(cs@, start + 1, sinc(col0)) == scan_comment(cs@, i as int, col),
                decreases n - i,
            {
                i = i + 1;
                col = inc(col);
            }
            proof {
                assert(scan_comment(cs@, i as int, col) == (i as int, col));
            }
        } else if is_name_start(u) {
            let start = i;
            let tok_line = line;
            let tok_col = col;
            i = i + 1;
            col = inc(col);
            while i < n && is_name_cont(cs[i] as u32)
                invariant
                    cs@ == src@,
                    n == cs@.len(),
                    start < i <= n,
                    col >= 1,
                    scan_name(cs@, start + 1, sinc(col0)) == scan_name(cs@, i as int, col),
                decreases n - i,
            {
                i = i + 1;
                col = inc(col);
            }
            proof {
                assert(scan_name(cs@, i as int, col) == (i as int, col));
            }
            toks.push(mk_token(TokenKind::Name, src, start, i, tok_line, tok_col));
        } else if is_digit(u) || u == 0x2D {
            let start = i;
            let tok_line = line;
            let tok_col = col;
            let neg = u == 0x2D;
            i = i + 1;
            col = inc(col);
            let digits_from = i;
            let ghost dcol = col;
            while i < n && is_digit(cs[i] as u32)
                invariant
                    cs@ == src@,
                    n == cs@.len(),
                    start < i <= n,
                    digits_from <= i,
                    col >= 1,
                    scan_digits(cs@, digits_from as int, dcol) == scan_digits(cs@, i as int, col),
                decreases n - i,
            {
                i = i + 1;
                col = inc(col);
            }
            proof {
                assert(scan_digits(cs@, i as int, col) == (i as int, col));
            }
            if neg && i == digits_from {
                // a lone minus sign
                toks.push(mk_token(TokenKind::Error, src, start, i, tok_line, tok_col));
            } else {
                let mut is_float = false;
                let has_frac = i < n && (cs[i] as u32) == 0x2E && i + 1 < n && is_digit(
                    cs[i + 1] as u32,
                );
                if has_frac {
                    is_float = true;
                    i = i + 1;
                    col = inc(col);
                    let ghost ffrom = i as int;
                    let ghost fcol = col;
                    while i < n && is_digit(cs[i] as u32)
                        invariant
                            cs@ == src@,
                            n == cs@.len(),
                            start < i <= n,
                            col >= 1,
                            scan_digits(cs@, ffrom, fcol) == scan_digits(cs@, i as int, col),
                        decreases n - i,
                    {
                        i = i + 1;
                        col = inc(col);
                    }
                    proof {
                        assert(scan_digits(cs@, i as int, col) == (i as int, col));
                    }
                }
                // exponent part: only consumed when a digit follows
                let sgn = n - i > 1 && ((cs[i + 1] as u32) == 0x2B || (cs[i + 1] as u32) == 0x2D);
                let has_exp = i < n && ((cs[i] as u32) == 0x45 || (cs[i] as u32) == 0x65) && (
                if sgn {
                    n - i > 2 && is_digit(cs[i + 2] as u32)
                } else {
                    n - i > 1 && is_digit(cs[i + 1] as u32)
                });
                if has_exp {
                    is_float = true;
                    i = i + 1;
                    col = inc(col);
                    if sgn {
                        i = i + 1;
                        col = inc(col);
                    }
                    let ghost efrom = i as int;
                    let ghost ecol = col;
                    while i < n && is_digit(cs[i] as u32)
                        invariant
                            cs@ == src@,
                            n == cs@.len(),
                            start < i <= n,
                            col >= 1,
                            scan_digits(cs@, efrom, ecol) == scan_digits(cs@, i as int, col),
                        decreases n - i,
                    {
                        i = i + 1;
                        col = inc(col);
                    }
                    proof {
                        assert(scan_digits(cs@, i as int, col) == (i as int, col));
                    }
                }
                let kind = if is_float {
                    TokenKind::FloatValue
                } else {
                    TokenKind::IntValue
                };
                proof {
                    assert(lex_number(cs@, start as int, col0) == (kind, i as int, col));
                }
                toks.push(mk_token(kind, src, start, i, tok_line, tok_col));
            }
        } else if u == 0x22 {
            let start = i;
            let tok_line = line;
            let tok_col = col;
            if n - i > 2 && (cs[i + 1] as u32) == 0x22 && (cs[i + 2] as u32) == 0x22 {
                // block string
                i = i + 3;
                col = inc(inc(inc(col)));
                let ghost bfrom = i as int;
                let ghost bline = line;
                let ghost bcol = col;
                let mut closed = false;
                while i < n
                    invariant_except_break
                        !closed,
                        scan_block(cs@, bfrom, bline, bcol) == scan_block(
                            cs@,
                            i as int,
                            line,
                            col,
                        ),
                    invariant
                        cs@ == src@,
                        n == cs@.len(),
                        start < i <= n,
                        line >= 1,
                        col >= 1,
                    ensures
                        scan_block(cs@, bfrom, bline, bcol) == (i as int, line, col, closed),
                    decreases n - i,
                {
                    let d = cs[i] as u32;
                    if d == 0x5C && n - i > 3 && (cs[i + 1] as u32) == 0x22 && (cs[i + 2] as u32)
                        == 0x22 && (cs[i + 3] as u32) == 0x22 {
                        i = i + 4;
                        col = inc(inc(inc(inc(col))));
                    } else if d == 0x22 && n - i > 2 && (cs[i + 1] as u32) == 0x22 && (cs[i
                        + 2] as u32) == 0x22 {
                        proof {
                            assert(scan_block(cs@, i as int, line, col) == (
                                i + 3,
                                line,
                                sinc(sinc(sinc(col))),
                                true,
                            ));
                        }
                        i = i + 3;
                        col = inc(inc(inc(col)));
                        closed = true;
                        break ;
                    } else if d == 0x0A {
                        i = i + 1;
                        line = inc(line);
                        col = 1;
                    } else if d == 0x0D {
                        if i + 1 < n && (cs[i + 1] as u32) == 0x0A {
                            i = i + 2;
                        } else {
                            i = i + 1;
                        }
                        line = inc(line);
                        col = 1;
                    } else {
                        i = i + 1;
                        col = inc(col);
                    }
                }
                let kind = if closed {
                    TokenKind::StringValue
                } else {
                    TokenKind::Error
                };
                toks.push(mk_token(kind, src, start, i, tok_line, tok_col));
            } else {
                // single-quoted ("...") string on one line
                i = i + 1;
                col = inc(col);
                let ghost sfrom = i as int;
                let ghost scol = col;
                let mut closed = false;
                while i < n
                    invariant_except_break
                        !closed,
                        scan_string(cs@, sfrom, scol) == scan_string(cs@, i as int, col),
                    invariant
                        cs@ == src@,
                        n == cs@.len(),
                        start < i <= n,
                        col >= 1,
                    ensures
                        scan_string(cs@, sfrom, scol) == (i as int, col, closed),
                    decreases n - i,
                {
                    let d = cs[i] as u32;
                    if d == 0x5C && i + 1 < n {
                        i = i + 2;
                        col = inc(inc(col));
                    } else if d == 0x22 {
                        proof {
                            assert(scan_string(cs@, i as int, col) == (i + 1, sinc(col), true));
                        }
                        i = i + 1;
                        col = inc(col);
                        closed = true;
                        break ;
                    } else if d == 0x0A || d == 0x0D {
                        // unterminated: the terminator is left for the outer loop
                        proof {
                            assert(scan_string(cs@, i as int, col) == (i as int, col, false));
                        }
                        break ;
                    } else {
                        i = i + 1;
                        col = inc(col);
                    }
                }
                let kind = if closed {
                    TokenKind::StringValue
                } else {
                    TokenKind::Error
                };
                toks.push(mk_token(kind, src, start, i, tok_line, tok_col));
            }
        } else if is_punct(u) {
            toks.push(mk_token(TokenKind::Punctuator, src, i, i + 1, line, col));
            i = i + 1;
            col = inc(col);
        } else if u == 0x2E {
            if n - i > 2 && (cs[i + 1] as u32) == 0x2E && (cs[i + 2] as u32) == 0x2E {
                toks.push(mk_token(TokenKind::Punctuator, src, i, i + 3, line, col));
                i = i + 3;
                col = inc(inc(inc(col)));
            } else {
                toks.push(mk_token(TokenKind::Error, src, i, i + 1, line, col));
                i = i + 1;
                col = inc(col);
            }
        } else {
            toks.push(mk_token(TokenKind::Error, src, i, i + 1, line, col));
            i = i + 1;
            col = inc(col);
        }
        proof {
            f = (f - 1) as nat;
            assert(toks_view(toks@) + lex_spec(cs@, i as int, line, col, f) =~= lex_spec_full(
                src@,
            ));
        }
    }
    proof {
        assert(lex_spec(cs@, i as int, line, col, f) == seq![
            (TokenKind::Eof, Seq::<char>::empty(), Location { line, column: col }),
        ]);
    }
    let eof = Token { kind: TokenKind::Eof, text: String::new(), loc: Location { line, column: col } };
    proof {
        assert(toks_view(toks@.push(eof)) =~= toks_view(toks@).push(
            (TokenKind::Eof, Seq::<char>::empty(), Location { line, column: col }),
        ));
        assert(toks_view(toks@.push(eof)) =~= lex_spec_full(src@));
    }
    toks.push(eof);
    toks
}

} // verus!
