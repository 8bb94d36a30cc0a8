//! Standalone semantic validation: schema-independent rules over a parsed
//! document. Every rule has a spec-level definition; `validate_document` is
//! proved to return exactly the diagnostics those definitions describe, so
//! validation is deterministic by construction.
use vstd::prelude::*;
use vstd::string::StringExecFns;
use crate::Location;
use crate::ValidationError;
use crate::ast::Definition;
use crate::ast::Document;
use crate::ast::Argument;
use crate::ast::Directive;
use crate::ast::ObjectField;
use crate::ast::OperationDefinition;
use crate::ast::Selection;
use crate::ast::Value;
use crate::ast::VariableDefinition;

verus! {

/// The spec-level shape of a diagnostic: message and locations.
pub open spec fn err_view(e: ValidationError) -> (Seq<char>, Seq<Location>) {
    (e.message@, e.locations@)
}

pub open spec fn errs_view(s: Seq<ValidationError>) -> Seq<(Seq<char>, Seq<Location>)> {
    Seq::new(s.len(), |i: int| err_view(s[i]))
}

/// A name paired with the source location it was seen at.
pub struct NameAt {
    pub name: String,
    pub loc: Location,
}

pub open spec fn nas_view(s: Seq<NameAt>) -> Seq<(Seq<char>, Location)> {
    Seq::new(s.len(), |i: int| (s[i].name@, s[i].loc))
}

/// Index of the first entry with the given name at or after `from`, or -1.
pub open spec fn find_name(s: Seq<(Seq<char>, Location)>, name: Seq<char>, from: int) -> int
    decreases s.len() - from,
{
    if from < 0 || from >= s.len() {
        -1
    } else if s[from].0 == name {
        from
    } else {
        find_name(s, name, from + 1)
    }
}

pub open spec fn msg_dup(what: Seq<char>, disp: Seq<char>) -> Seq<char> {
    "duplicate "@ + what + " '"@ + disp + "'"@
}

/// Diagnostics for duplicated names among the first `n` entries: one per
/// repeated entry, citing the first occurrence and then the repeat.
pub open spec fn dup_diags_upto(
    s: Seq<(Seq<char>, Location)>,
    what: Seq<char>,
    pre: Seq<char>,
    n: int,
) -> Seq<(Seq<char>, Seq<Location>)>
    decreases n,
{
    if n <= 0 {
        Seq::empty()
    } else {
        let i = n - 1;
        let f = find_name(s, s[i].0, 0);
        let prefix = dup_diags_upto(s, what, pre, i);
        if 0 <= f < i {
            prefix.push((msg_dup(what, pre + s[i].0), seq![s[f].1, s[i].1]))
        } else {
            prefix
        }
    }
}

pub open spec fn dup_diags(s: Seq<(Seq<char>, Location)>, what: Seq<char>, pre: Seq<char>) -> Seq<
    (Seq<char>, Seq<Location>),
> {
    dup_diags_upto(s, what, pre, s.len() as int)
}

/// Finds the first entry with the given name, scanning from the front.
fn find_name_e(items: &Vec<NameAt>, name: &String) -> (r: Option<usize>)
    ensures
        match r {
            Option::Some(j) => j < items@.len() && j as int == find_name(nas_view(items@), name@, 0),
            Option::None => find_name(nas_view(items@), name@, 0) == -1,
        },
{
    let n = items.len();
    let mut j: usize = 0;
    while j < n
        invariant
            j <= n == items@.len(),
            find_name(nas_view(items@), name@, 0) == find_name(nas_view(items@), name@, j as int),
        decreases n - j,
    {
        if items[j].name == *name {
            proof {
                assert(nas_view(items@)[j as int].0 == name@);
                assert(find_name(nas_view(items@), name@, j as int) == j as int);
            }
            return Some(j);
        }
        j = j + 1;
    }
    None
}

/// Builds the duplicate-name diagnostics for a list of named items.
fn dup_errors(items: &Vec<NameAt>, what: &str, pre: &str) -> (r: Vec<ValidationError>)
    ensures
        errs_view(r@) == dup_diags(nas_view(items@), what@, pre@),
{
    let mut out: Vec<ValidationError> = Vec::new();
    let n = items.len();
    let mut i: usize = 0;
    while i < n
        invariant
            i <= n == items@.len(),
            errs_view(out@) == dup_diags_upto(nas_view(items@), what@, pre@, i as int),
        decreases n - i,
    {
        let found = find_name_e(items, &items[i].name);
        if let Some(f) = found {
            if f < i {
            let mut m = String::from_str("duplicate ");
            m.append(what);
            m.append(" '");
            m.append(pre);
            m.append(items[i].name.as_str());
            m.append("'");
            let mut locs: Vec<Location> = Vec::new();
            locs.push(items[f].loc);
            locs.push(items[i].loc);
            let e = ValidationError { message: m, locations: locs };
            proof {
                assert(err_view(e) == (
                    msg_dup(what@, pre@ + nas_view(items@)[i as int].0),
                    seq![
                        nas_view(items@)[f as int].1,
                        nas_view(items@)[i as int].1,
                    ],
                ));
                assert(errs_view(out@.push(e)) =~= errs_view(out@).push(err_view(e)));
            }
            out.push(e);
            }
        }
        proof {
            assert(errs_view(out@) == dup_diags_upto(nas_view(items@), what@, pre@, i + 1));
        }
        i = i + 1;
    }
    out
}

/// The named operations of a document, in order.
pub open spec fn op_names(defs: Seq<Definition>) -> Seq<(Seq<char>, Location)>
    decreases defs,
{
    if defs.len() == 0 {
        Seq::empty()
    } else {
        op_names(defs.drop_last()) + (match defs.last() {
            Definition::Operation(o) => match o.name {
                Option::Some(n) => seq![(n@, o.position)],
                Option::None => Seq::empty(),
            },
            Definition::Fragment(_) => Seq::empty(),
        })
    }
}

/// The fragment definitions of a document: name and position, in order.
pub open spec fn frag_names(defs: Seq<Definition>) -> Seq<(Seq<char>, Location)>
    decreases defs,
{
    if defs.len() == 0 {
        Seq::empty()
    } else {
        frag_names(defs.drop_last()) + (match defs.last() {
            Definition::Operation(_) => Seq::empty(),
            Definition::Fragment(f) => seq![(f.name@, f.position)],
        })
    }
}

pub open spec fn op_count(defs: Seq<Definition>) -> int
    decreases defs,
{
    if defs.len() == 0 {
        0int
    } else {
        op_count(defs.drop_last()) + (match defs.last() {
            Definition::Operation(_) => 1int,
            Definition::Fragment(_) => 0int,
        })
    }
}

/// Positions of the anonymous operations, in order.
pub open spec fn anon_ops(defs: Seq<Definition>) -> Seq<Location>
    decreases defs,
{
    if defs.len() == 0 {
        Seq::empty()
    } else {
        anon_ops(defs.drop_last()) + (match defs.last() {
            Definition::Operation(o) => match o.name {
                Option::Some(_) => Seq::empty(),
                Option::None => seq![o.position],
            },
            Definition::Fragment(_) => Seq::empty(),
        })
    }
}

pub open spec fn msg_anon() -> Seq<char> {
    "an anonymous operation must be the only operation in the document"@
}

/// When several operations share the document, every anonymous one is
/// reported.
pub open spec fn anon_diags(defs: Seq<Definition>) -> Seq<(Seq<char>, Seq<Location>)> {
    if op_count(defs) > 1 {
        Seq::new(anon_ops(defs).len(), |i: int| (msg_anon(), seq![anon_ops(defs)[i]]))
    } else {
        Seq::empty()
    }
}

/// Collects named operations, fragments, anonymous positions and the
/// operation count in one pass.
fn scan_definitions(doc: &Document) -> (r: (Vec<NameAt>, Vec<NameAt>, Vec<Location>, usize))
    ensures
        nas_view(r.0@) == op_names(doc.definitions@),
        nas_view(r.1@) == frag_names(doc.definitions@),
        r.2@ == anon_ops(doc.definitions@),
        r.3 as int == op_count(doc.definitions@) || r.3 == usize::MAX,
        (r.3 as int > 1) == (op_count(doc.definitions@) > 1),
{
    let defs = &doc.definitions;
    let mut ops: Vec<NameAt> = Vec::new();
    let mut frags: Vec<NameAt> = Vec::new();
    let mut anon: Vec<Location> = Vec::new();
    let mut count: usize = 0;
    let n = defs.len();
    let mut i: usize = 0;
    while i < n
        invariant
            i <= n == defs@.len(),
            nas_view(ops@) == op_names(defs@.take(i as int)),
            nas_view(frags@) == frag_names(defs@.take(i as int)),
            anon@ == anon_ops(defs@.take(i as int)),
            count as int == op_count(defs@.take(i as int)) || count == usize::MAX,
            (count as int > 1) == (op_count(defs@.take(i as int)) > 1),
        decreases n - i,
    {
        proof {
            assert(defs@.take(i + 1).drop_last() =~= defs@.take(i as int));
            assert(defs@.take(i + 1).last() == defs@[i as int]);
        }
        match &defs[i] {
            Definition::Operation(o) => {
                if count < usize::MAX {
                    count = count + 1;
                }
                match &o.name {
                    Option::Some(nm) => {
                        let e = NameAt { name: nm.clone(), loc: o.position };
                        proof {
                            assert(nas_view(ops@.push(e)) =~= nas_view(ops@).push(
                                (e.name@, e.loc),
                            ));
                            assert(nas_view(ops@).push((e.name@, e.loc)) =~= nas_view(ops@)
                                + seq![(e.name@, e.loc)]);
                        }
                        ops.push(e);
                    },
                    Option::None => {
                        proof {
                            assert(anon@.push(o.position) =~= anon@ + seq![o.position]);
                        }
                        anon.push(o.position);
                    },
                }
            },
            Definition::Fragment(f) => {
                let e = NameAt { name: f.name.clone(), loc: f.position };
                proof {
                    assert(nas_view(frags@.push(e)) =~= nas_view(frags@).push((e.name@, e.loc)));
                    assert(nas_view(frags@).push((e.name@, e.loc)) =~= nas_view(frags@)
                        + seq![(e.name@, e.loc)]);
                }
                frags.push(e);
            },
        }
        i = i + 1;
    }
    proof {
        assert(defs@.take(n as int) =~= defs@);
    }
    (ops, frags, anon, count)
}

/// Builds the anonymous-operation diagnostics.
fn anon_errors(doc: &Document, anon: &Vec<Location>, count: usize) -> (r: Vec<ValidationError>)
    requires
        anon@ == anon_ops(doc.definitions@),
        (count as int > 1) == (op_count(doc.definitions@) > 1),
    ensures
        errs_view(r@) == anon_diags(doc.definitions@),
{
    let mut out: Vec<ValidationError> = Vec::new();
    if count <= 1 {
        return out;
    }
    let n = anon.len();
    let mut i: usize = 0;
    while i < n
        invariant
            i <= n == anon@.len(),
            anon@ == anon_ops(doc.definitions@),
            op_count(doc.definitions@) > 1,
            errs_view(out@) =~= anon_diags(doc.definitions@).take(i as int),
        decreases n - i,
    {
        let m = String::from_str(
            "an anonymous operation must be the only operation in the document",
        );
        let mut locs: Vec<Location> = Vec::new();
        locs.push(anon[i]);
        let e = ValidationError { message: m, locations: locs };
        proof {
            assert(err_view(e) == anon_diags(doc.definitions@)[i as int]);
            assert(errs_view(out@.push(e)) =~= errs_view(out@).push(err_view(e)));
            assert(anon_diags(doc.definitions@).take(i + 1) =~= anon_diags(
                doc.definitions@,
            ).take(i as int).push(anon_diags(doc.definitions@)[i as int]));
        }
        out.push(e);
        i = i + 1;
    }
    proof {
        assert(anon_diags(doc.definitions@).take(anon@.len() as int) =~= anon_diags(
            doc.definitions@,
        ));
    }
    out
}



pub open spec fn strs_view(s: Seq<String>) -> Seq<Seq<char>> {
    Seq::new(s.len(), |i: int| s[i]@)
}

/// The fragment-spread names occurring in one selection, in order.
pub open spec fn spreads_sel(s: Selection) -> Seq<Seq<char>>
    decreases s,
{
    match s {
        Selection::Field(f) => match f.selection_set {
            Option::Some(ss) => spreads_sels(ss@),
            Option::None => Seq::empty(),
        },
        Selection::FragmentSpread(sp) => seq![sp.name@],
        Selection::InlineFragment(inl) => spreads_sels(inl.selection_set@),
    }
}

pub open spec fn spreads_sels(ss: Seq<Selection>) -> Seq<Seq<char>>
    decreases ss,
{
    if ss.len() == 0 {
        Seq::empty()
    } else {
        spreads_sels(ss.drop_last()) + spreads_sel(ss.last())
    }
}

pub open spec fn def_spreads(d: Definition) -> Seq<Seq<char>> {
    match d {
        Definition::Operation(o) => spreads_sels(o.selection_set@),
        Definition::Fragment(f) => spreads_sels(f.selection_set@),
    }
}

/// Every spread name in the document, operations and fragments alike.
pub open spec fn doc_spreads(defs: Seq<Definition>) -> Seq<Seq<char>>
    decreases defs,
{
    if defs.len() == 0 {
        Seq::empty()
    } else {
        doc_spreads(defs.drop_last()) + def_spreads(defs.last())
    }
}

fn collect_spreads_sel(s: &Selection, out: &mut Vec<String>)
    ensures
        strs_view(final(out)@) == strs_view(old(out)@) + spreads_sel(*s),
    decreases s,
{
    match s {
        Selection::Field(f) => {
            match &f.selection_set {
                Option::Some(inner) => {
                    proof {
                        assert(decreases_to!(*s => f.selection_set->0));
                    }
                    collect_spreads_sels(inner, out);
                },
                Option::None => {
                    proof {
                        assert(strs_view(out@) =~= strs_view(out@) + spreads_sel(*s));
                    }
                },
            }
        },
        Selection::FragmentSpread(sp) => {
            proof {
                assert(strs_view(out@.push(sp.name)) =~= strs_view(out@) + seq![sp.name@]);
            }
            out.push(sp.name.clone());
            proof {
                assert(strs_view(out@) =~= strs_view(old(out)@) + seq![sp.name@]);
            }
        },
        Selection::InlineFragment(inl) => {
            proof {
                assert(decreases_to!(*s => inl.selection_set));
            }
            collect_spreads_sels(&inl.selection_set, out);
        },
    }
}

fn collect_spreads_sels(ss: &Vec<Selection>, out: &mut Vec<String>)
    ensures
        strs_view(final(out)@) == strs_view(old(out)@) + spreads_sels(ss@),
    decreases ss,
{
    let n = ss.len();
    let mut i: usize = 0;
    while i < n
        invariant
            i <= n == ss@.len(),
            strs_view(out@) == strs_view(old(out)@) + spreads_sels(ss@.take(i as int)),
        decreases n - i,
    {
        proof {
            assert(decreases_to!(ss => ss@[i as int]));
        }
        collect_spreads_sel(&ss[i], out);
        proof {
            assert(ss@.take(i + 1).drop_last() =~= ss@.take(i as int));
            assert(ss@.take(i + 1).last() == ss@[i as int]);
        }
        i = i + 1;
    }
    proof {
        assert(ss@.take(n as int) =~= ss@);
    }
}

/// Collects every spread name in the document.
fn collect_doc_spreads(doc: &Document) -> (r: Vec<String>)
    ensures
        strs_view(r@) == doc_spreads(doc.definitions@),
{
    let defs = &doc.definitions;
    let mut out: Vec<String> = Vec::new();
    let n = defs.len();
    let mut i: usize = 0;
    while i < n
        invariant
            i <= n == defs@.len(),
            strs_view(out@) == doc_spreads(defs@.take(i as int)),
        decreases n - i,
    {
        match &defs[i] {
            Definition::Operation(o) => collect_spreads_sels(&o.selection_set, &mut out),
            Definition::Fragment(f) => collect_spreads_sels(&f.selection_set, &mut out),
        }
        proof {
            assert(defs@.take(i + 1).drop_last() =~= defs@.take(i as int));
            assert(defs@.take(i + 1).last() == defs@[i as int]);
        }
        i = i + 1;
    }
    proof {
        assert(defs@.take(n as int) =~= defs@);
    }
    out
}

pub open spec fn contains_str(names: Seq<Seq<char>>, n: Seq<char>) -> bool {
    exists|i: int| 0 <= i < names.len() && names[i] == n
}

fn contains_str_e(names: &Vec<String>, n: &String) -> (r: bool)
    ensures
        r == contains_str(strs_view(names@), n@),
{
    let len = names.len();
    let mut j: usize = 0;
    while j < len
        invariant
            j <= len == names@.len(),
            forall|k: int| 0 <= k < j ==> strs_view(names@)[k] != n@,
        decreases len - j,
    {
        if names[j] == *n {
            proof {
                assert(strs_view(names@)[j as int] == n@);
            }
            return true;
        }
        j = j + 1;
    }
    false
}

pub open spec fn msg_unused_frag(n: Seq<char>) -> Seq<char> {
    "fragment '"@ + n + "' is never used"@
}

/// Diagnostics for fragments that are never spread anywhere.
pub open spec fn unused_frag_upto(
    frags: Seq<(Seq<char>, Location)>,
    spreads: Seq<Seq<char>>,
    n: int,
) -> Seq<(Seq<char>, Seq<Location>)>
    decreases n,
{
    if n <= 0 {
        Seq::empty()
    } else {
        let prefix = unused_frag_upto(frags, spreads, n - 1);
        if !contains_str(spreads, frags[n - 1].0) {
            prefix.push((msg_unused_frag(frags[n - 1].0), seq![frags[n - 1].1]))
        } else {
            prefix
        }
    }
}

pub open spec fn unused_frag_diags(
    frags: Seq<(Seq<char>, Location)>,
    spreads: Seq<Seq<char>>,
) -> Seq<(Seq<char>, Seq<Location>)> {
    unused_frag_upto(frags, spreads, frags.len() as int)
}

fn unused_frag_errors(frags: &Vec<NameAt>, spreads: &Vec<String>) -> (r: Vec<ValidationError>)
    ensures
        errs_view(r@) == unused_frag_diags(nas_view(frags@), strs_view(spreads@)),
{
    let mut out: Vec<ValidationError> = Vec::new();
    let n = frags.len();
    let mut i: usize = 0;
    while i < n
        invariant
            i <= n == frags@.len(),
            errs_view(out@) == unused_frag_upto(nas_view(frags@), strs_view(spreads@), i as int),
        decreases n - i,
    {
        if !contains_str_e(spreads, &frags[i].name) {
            let mut m = String::from_str("fragment '");
            m.append(frags[i].name.as_str());
            m.append("' is never used");
            let mut locs: Vec<Location> = Vec::new();
            locs.push(frags[i].loc);
            let e = ValidationError { message: m, locations: locs };
            proof {
                assert(err_view(e) == (
                    msg_unused_frag(nas_view(frags@)[i as int].0),
                    seq![nas_view(frags@)[i as int].1],
                ));
                assert(errs_view(out@.push(e)) =~= errs_view(out@).push(err_view(e)));
            }
            out.push(e);
        }
        proof {
            assert(errs_view(out@) == unused_frag_upto(
                nas_view(frags@),
                strs_view(spreads@),
                i + 1,
            ));
        }
        i = i + 1;
    }
    out
}


pub open spec fn adj_view(s: Seq<Vec<usize>>) -> Seq<Seq<usize>> {
    Seq::new(s.len(), |i: int| s[i]@)
}

/// Every edge target lies below the given bound.
pub open spec fn wf_adj(a: Seq<Seq<usize>>, bound: int) -> bool {
    forall|i: int, j: int|
        0 <= i < a.len() && 0 <= j < a[i].len() ==> (#[trigger] a[i][j]) < bound
}

/// One fragment's edges: each spread name resolved to the first fragment
/// definition with that name; unresolved spreads contribute no edge.
pub open spec fn adj_row_upto(
    spreads: Seq<Seq<char>>,
    frags: Seq<(Seq<char>, Location)>,
    n: int,
) -> Seq<usize>
    decreases n,
{
    if n <= 0 {
        Seq::empty()
    } else {
        let prefix = adj_row_upto(spreads, frags, n - 1);
        let f = find_name(frags, spreads[n - 1], 0);
        if 0 <= f < frags.len() {
            prefix.push(f as usize)
        } else {
            prefix
        }
    }
}

pub open spec fn adj_row(spreads: Seq<Seq<char>>, frags: Seq<(Seq<char>, Location)>) -> Seq<
    usize,
> {
    adj_row_upto(spreads, frags, spreads.len() as int)
}

pub open spec fn doc_adj_upto(
    defs: Seq<Definition>,
    frags: Seq<(Seq<char>, Location)>,
    n: int,
) -> Seq<Seq<usize>>
    decreases n,
{
    if n <= 0 {
        Seq::empty()
    } else {
        doc_adj_upto(defs, frags, n - 1) + (match defs[n - 1] {
            Definition::Operation(_) => Seq::empty(),
            Definition::Fragment(f) => seq![adj_row(spreads_sels(f.selection_set@), frags)],
        })
    }
}

/// The fragment-spread graph: one row per fragment definition, in order.
pub open spec fn doc_adj(defs: Seq<Definition>, frags: Seq<(Seq<char>, Location)>) -> Seq<
    Seq<usize>,
> {
    doc_adj_upto(defs, frags, defs.len() as int)
}

fn build_row(spreads: &Vec<String>, frags: &Vec<NameAt>) -> (r: Vec<usize>)
    ensures
        r@ == adj_row(strs_view(spreads@), nas_view(frags@)),
        forall|k: int| 0 <= k < r@.len() ==> (#[trigger] r@[k]) < frags@.len(),
{
    let mut row: Vec<usize> = Vec::new();
    let n = spreads.len();
    let mut j: usize = 0;
    while j < n
        invariant
            j <= n == spreads@.len(),
            row@ == adj_row_upto(strs_view(spreads@), nas_view(frags@), j as int),
            forall|k: int| 0 <= k < row@.len() ==> (#[trigger] row@[k]) < frags@.len(),
        decreases n - j,
    {
        match find_name_e(frags, &spreads[j]) {
            Option::Some(f) => {
                row.push(f);
            },
            Option::None => {},
        }
        proof {
            assert(row@ == adj_row_upto(strs_view(spreads@), nas_view(frags@), j + 1));
        }
        j = j + 1;
    }
    row
}

/// Builds the fragment-spread graph of a document.
fn build_adj(doc: &Document, frags: &Vec<NameAt>) -> (r: Vec<Vec<usize>>)
    requires
        nas_view(frags@) == frag_names(doc.definitions@),
    ensures
        adj_view(r@) == doc_adj(doc.definitions@, nas_view(frags@)),
        r@.len() == frags@.len(),
        wf_adj(adj_view(r@), frags@.len() as int),
{
    let defs = &doc.definitions;
    let mut adj: Vec<Vec<usize>> = Vec::new();
    let n = defs.len();
    let mut i: usize = 0;
    while i < n
        invariant
            i <= n == defs@.len(),
            nas_view(frags@) == frag_names(defs@),
            adj_view(adj@) == doc_adj_upto(defs@, nas_view(frags@), i as int),
            adj@.len() == frag_names(defs@.take(i as int)).len(),
            wf_adj(adj_view(adj@), frags@.len() as int),
        decreases n - i,
    {
        proof {
            assert(defs@.take(i + 1).drop_last() =~= defs@.take(i as int));
            assert(defs@.take(i + 1).last() == defs@[i as int]);
        }
        match &defs[i] {
            Definition::Operation(_) => {},
            Definition::Fragment(f) => {
                let mut spr: Vec<String> = Vec::new();
                collect_spreads_sels(&f.selection_set, &mut spr);
                let row = build_row(&spr, frags);
                proof {
                    assert(adj_view(adj@.push(row)) =~= adj_view(adj@).push(row@));
                    assert(adj_view(adj@).push(row@) =~= adj_view(adj@) + seq![row@]);
                }
                adj.push(row);
            },
        }
        proof {
            assert(adj_view(adj@) == doc_adj_upto(defs@, nas_view(frags@), i + 1));
        }
        i = i + 1;
    }
    proof {
        assert(defs@.take(n as int) =~= defs@);
    }
    adj
}

/// Saturating addition, used to size the search fuel.
pub open spec fn sat_add(a: nat, b: nat) -> nat {
    if a + b <= usize::MAX as nat {
        a + b
    } else {
        usize::MAX as nat
    }
}

fn sat_add_e(a: usize, b: usize) -> (r: usize)
    ensures
        r as nat == sat_add(a as nat, b as nat),
{
    if a <= usize::MAX - b {
        a + b
    } else {
        usize::MAX
    }
}

pub open spec fn edges_upto(adj: Seq<Seq<usize>>, n: int) -> nat
    decreases n,
{
    if n <= 0 {
        0
    } else {
        sat_add(edges_upto(adj, n - 1), adj[n - 1].len())
    }
}

/// Enough steps for one full depth-first traversal: every node is pushed
/// and popped at most once and every edge is examined at most once.
pub open spec fn dfs_fuel(adj: Seq<Seq<usize>>) -> nat {
    sat_add(sat_add(adj.len(), adj.len()), sat_add(edges_upto(adj, adj.len() as int), 1))
}

fn dfs_fuel_e(adj: &Vec<Vec<usize>>) -> (r: usize)
    ensures
        r as nat == dfs_fuel(adj_view(adj@)),
{
    let n = adj.len();
    let mut e: usize = 0;
    let mut i: usize = 0;
    while i < n
        invariant
            i <= n == adj@.len(),
            e as nat == edges_upto(adj_view(adj@), i as int),
        decreases n - i,
    {
        e = sat_add_e(e, adj[i].len());
        i = i + 1;
    }
    sat_add_e(sat_add_e(n, n), sat_add_e(e, 1))
}

fn contains_usize(v: &Vec<usize>, x: usize) -> (r: bool)
    ensures
        r == v@.contains(x),
{
    let n = v.len();
    let mut j: usize = 0;
    while j < n
        invariant
            j <= n == v@.len(),
            forall|k: int| 0 <= k < j ==> v@[k] != x,
        decreases n - j,
    {
        if v[j] == x {
            return true;
        }
        j = j + 1;
    }
    proof {
        assert(!v@.contains(x));
    }
    false
}

pub open spec fn msg_cycle(n: Seq<char>) -> Seq<char> {
    "cycle in fragment spreads starting at fragment '"@ + n + "'"@
}

/// First stack entry holding the given fragment, or the stack length.
pub open spec fn stack_find(st: Seq<(usize, usize)>, c: usize, from: int) -> int
    decreases st.len() - from,
{
    if from < 0 || from >= st.len() {
        st.len() as int
    } else if st[from].0 == c {
        from
    } else {
        stack_find(st, c, from + 1)
    }
}

/// The definition positions of the fragments on the stack from `k` on:
/// the cycle that was just closed.
pub open spec fn cycle_locs(
    st: Seq<(usize, usize)>,
    k: int,
    frags: Seq<(Seq<char>, Location)>,
) -> Seq<Location> {
    Seq::new(if k <= st.len() { (st.len() - k) as nat } else { 0 }, |t: int| frags[st[k + t].0 as int].1)
}

/// One three-color depth-first traversal, driven by an explicit stack of
/// (fragment, next edge) pairs. Colors: 0 untouched, 1 on the stack,
/// 2 finished. A back edge to an on-stack fragment closes a cycle and
/// yields one diagnostic for the stack segment from that fragment on.
pub open spec fn dfs_run(
    adj: Seq<Seq<usize>>,
    frags: Seq<(Seq<char>, Location)>,
    st: Seq<(usize, usize)>,
    color: Seq<u8>,
    diags: Seq<(Seq<char>, Seq<Location>)>,
    fuel: nat,
) -> (Seq<u8>, Seq<(Seq<char>, Seq<Location>)>)
    decreases fuel,
{
    if st.len() == 0 || fuel == 0 {
        (color, diags)
    } else {
        let u = st.last().0;
        let ci = st.last().1;
        if (u as int) >= adj.len() || (ci as int) >= adj[u as int].len() {
            // every edge of `u` is done: finish it and pop
            dfs_run(
                adj,
                frags,
                st.drop_last(),
                color.update(u as int, 2u8),
                diags,
                (fuel - 1) as nat,
            )
        } else {
            let c = adj[u as int][ci as int];
            let st2 = st.update(st.len() - 1, (u, (ci + 1) as usize));
            if (c as int) < color.len() && color[c as int] == 1u8 {
                let k = stack_find(st2, c, 0);
                let d = (msg_cycle(frags[c as int].0), cycle_locs(st2, k, frags));
                dfs_run(adj, frags, st2, color, diags.push(d), (fuel - 1) as nat)
            } else if (c as int) < color.len() && color[c as int] == 0u8 {
                dfs_run(
                    adj,
                    frags,
                    st2.push((c, 0usize)),
                    color.update(c as int, 1u8),
                    diags,
                    (fuel - 1) as nat,
                )
            } else {
                dfs_run(adj, frags, st2, color, diags, (fuel - 1) as nat)
            }
        }
    }
}

/// Starts one traversal at each still-untouched fragment, in document
/// order. Finished fragments are never revisited, so the whole search
/// examines each edge once.
pub open spec fn scan_roots(
    adj: Seq<Seq<usize>>,
    frags: Seq<(Seq<char>, Location)>,
    i: int,
    color: Seq<u8>,
    diags: Seq<(Seq<char>, Seq<Location>)>,
    fuel: nat,
) -> Seq<(Seq<char>, Seq<Location>)>
    decreases frags.len() - i,
{
    if i < 0 || i >= frags.len() {
        diags
    } else if !(i < color.len() && color[i] == 0u8) {
        scan_roots(adj, frags, i + 1, color, diags, fuel)
    } else {
        let r = dfs_run(
            adj,
            frags,
            seq![(i as usize, 0usize)],
            color.update(i, 1u8),
            diags,
            fuel,
        );
        scan_roots(adj, frags, i + 1, r.0, r.1, fuel)
    }
}

pub open spec fn cycle_diags(adj: Seq<Seq<usize>>, frags: Seq<(Seq<char>, Location)>) -> Seq<
    (Seq<char>, Seq<Location>),
> {
    scan_roots(
        adj,
        frags,
        0,
        Seq::new(frags.len(), |t: int| 0u8),
        Seq::empty(),
        dfs_fuel(adj),
    )
}

/// Runs one traversal to exhaustion (or until the fuel, sized for a full
/// traversal, runs out), appending one diagnostic per back edge.
fn dfs_run_e(
    adj: &Vec<Vec<usize>>,
    frags: &Vec<NameAt>,
    stack: &mut Vec<(usize, usize)>,
    color: &mut Vec<u8>,
    out: &mut Vec<ValidationError>,
    fuel: usize,
)
    requires
        adj@.len() == frags@.len(),
        wf_adj(adj_view(adj@), adj@.len() as int),
        old(color)@.len() == frags@.len(),
        forall|q: int| 0 <= q < old(stack)@.len() ==> (#[trigger] old(stack)@[q]).0 < adj@.len(),
    ensures
        final(color)@.len() == frags@.len(),
        (final(color)@, errs_view(final(out)@)) == dfs_run(
            adj_view(adj@),
            nas_view(frags@),
            old(stack)@,
            old(color)@,
            errs_view(old(out)@),
            fuel as nat,
        ),
{
    let ghost av = adj_view(adj@);
    let ghost fv = nas_view(frags@);
    let ghost target = dfs_run(av, fv, old(stack)@, old(color)@, errs_view(old(out)@), fuel as nat);
    let mut f = fuel;
    while stack.len() > 0 && f > 0
        invariant
            adj@.len() == frags@.len(),
            wf_adj(av, adj@.len() as int),
            av == adj_view(adj@),
            fv == nas_view(frags@),
            color@.len() == frags@.len(),
            forall|q: int| 0 <= q < stack@.len() ==> (#[trigger] stack@[q]).0 < adj@.len(),
            dfs_run(av, fv, stack@, color@, errs_view(out@), f as nat) == target,
        decreases f,
    {
        let ghost st0 = stack@;
        let ghost c0 = color@;
        let ghost d0 = errs_view(out@);
        let last = stack.len() - 1;
        let p = stack[last];
        let u = p.0;
        let ci = p.1;
        if ci >= adj[u].len() {
            stack.pop();
            color[u] = 2;
            proof {
                assert(stack@ =~= st0.drop_last());
                assert(color@ =~= c0.update(u as int, 2u8));
            }
        } else {
            let c = adj[u][ci];
            stack.pop();
            stack.push((u, ci + 1));
            proof {
                assert(stack@ =~= st0.update(st0.len() - 1, (u, (ci + 1) as usize)));
                assert(c < adj@.len());
            }
            if color[c] == 1 {
                let mut k: usize = 0;
                while k < stack.len() && stack[k].0 != c
                    invariant
                        k <= stack@.len(),
                        stack_find(stack@, c, 0) == stack_find(stack@, c, k as int),
                    decreases stack@.len() - k,
                {
                    k = k + 1;
                }
                proof {
                    assert(k as int == stack_find(stack@, c, 0));
                }
                let mut m = String::from_str("cycle in fragment spreads starting at fragment '");
                m.append(frags[c].name.as_str());
                m.append("'");
                let mut locs: Vec<Location> = Vec::new();
                let mut t = k;
                while t < stack.len()
                    invariant
                        k <= t <= stack@.len(),
                        fv == nas_view(frags@),
                        adj@.len() == frags@.len(),
                        forall|q: int|
                            0 <= q < stack@.len() ==> (#[trigger] stack@[q]).0 < adj@.len(),
                        locs@.len() == t - k,
                        forall|q: int|
                            0 <= q < t - k ==> locs@[q] == fv[stack@[k + q].0 as int].1,
                    decreases stack@.len() - t,
                {
                    locs.push(frags[stack[t].0].loc);
                    t = t + 1;
                }
                proof {
                    assert(locs@ =~= cycle_locs(stack@, k as int, fv));
                }
                let e = ValidationError { message: m, locations: locs };
                proof {
                    assert(err_view(e) == (
                        msg_cycle(fv[c as int].0),
                        cycle_locs(stack@, k as int, fv),
                    ));
                    assert(errs_view(out@.push(e)) =~= errs_view(out@).push(err_view(e)));
                }
                out.push(e);
            } else if color[c] == 0 {
                stack.push((c, 0));
                color[c] = 1;
                proof {
                    assert(stack@ =~= st0.update(st0.len() - 1, (u, (ci + 1) as usize)).push(
                        (c, 0usize),
                    ));
                    assert(color@ =~= c0.update(c as int, 1u8));
                }
            }
        }
        f = f - 1;
    }
    proof {
        assert(dfs_run(av, fv, stack@, color@, errs_view(out@), f as nat) == (
            color@,
            errs_view(out@),
        ));
    }
}

/// Builds the fragment-cycle diagnostics by one linear three-color search.
fn cycle_errors(adj: &Vec<Vec<usize>>, frags: &Vec<NameAt>) -> (r: Vec<ValidationError>)
    requires
        adj@.len() == frags@.len(),
        wf_adj(adj_view(adj@), adj@.len() as int),
    ensures
        errs_view(r@) == cycle_diags(adj_view(adj@), nas_view(frags@)),
{
    let ghost av = adj_view(adj@);
    let ghost fv = nas_view(frags@);
    let n = frags.len();
    let mut color: Vec<u8> = Vec::new();
    let mut t: usize = 0;
    while t < n
        invariant
            t <= n,
            color@.len() == t,
            forall|q: int| 0 <= q < t ==> color@[q] == 0u8,
        decreases n - t,
    {
        color.push(0);
        t = t + 1;
    }
    let ghost init = Seq::new(fv.len(), |q: int| 0u8);
    proof {
        assert(color@ =~= init);
    }
    let fuel = dfs_fuel_e(adj);
    let mut out: Vec<ValidationError> = Vec::new();
    proof {
        assert(errs_view(out@) =~= Seq::<(Seq<char>, Seq<Location>)>::empty());
    }
    let mut i: usize = 0;
    while i < n
        invariant
            n == frags@.len() == adj@.len(),
            av == adj_view(adj@),
            fv == nas_view(frags@),
            wf_adj(av, adj@.len() as int),
            i <= n,
            color@.len() == n,
            fuel as nat == dfs_fuel(av),
            scan_roots(av, fv, i as int, color@, errs_view(out@), fuel as nat) == scan_roots(
                av,
                fv,
                0,
                init,
                Seq::empty(),
                fuel as nat,
            ),
        decreases n - i,
    {
        let ghost c0 = color@;
        let ghost d0 = errs_view(out@);
        if color[i] == 0 {
            color[i] = 1;
            let mut stack: Vec<(usize, usize)> = Vec::new();
            stack.push((i, 0));
            proof {
                assert(color@ =~= c0.update(i as int, 1u8));
                assert(stack@ =~= seq![(i, 0usize)]);
            }
            dfs_run_e(adj, frags, &mut stack, &mut color, &mut out, fuel);
            proof {
                let r = dfs_run(av, fv, seq![(i as usize, 0usize)], c0.update(i as int, 1u8), d0, fuel as nat);
                assert((color@, errs_view(out@)) == r);
                assert(scan_roots(av, fv, i as int, c0, d0, fuel as nat) == scan_roots(
                    av,
                    fv,
                    i + 1,
                    r.0,
                    r.1,
                    fuel as nat,
                ));
            }
        }
        i = i + 1;
    }
    proof {
        assert(scan_roots(av, fv, n as int, color@, errs_view(out@), fuel as nat) == errs_view(
            out@,
        ));
    }
    out
}


/// The variable uses in a value, in order, with their positions.
pub open spec fn uses_val(v: Value) -> Seq<(Seq<char>, Location)>
    decreases v,
{
    match v {
        Value::Variable(n, l) => seq![(n@, l)],
        Value::ListValue(items) => uses_vals(items@),
        Value::ObjectValue(fields) => uses_objs(fields@),
        _ => Seq::empty(),
    }
}

pub open spec fn uses_vals(s: Seq<Value>) -> Seq<(Seq<char>, Location)>
    decreases s,
{
    if s.len() == 0 {
        Seq::empty()
    } else {
        uses_vals(s.drop_last()) + uses_val(s.last())
    }
}

pub open spec fn uses_objs(s: Seq<ObjectField>) -> Seq<(Seq<char>, Location)>
    decreases s,
{
    if s.len() == 0 {
        Seq::empty()
    } else {
        uses_objs(s.drop_last()) + uses_val(s.last().value)
    }
}

pub open spec fn uses_args(s: Seq<Argument>) -> Seq<(Seq<char>, Location)>
    decreases s,
{
    if s.len() == 0 {
        Seq::empty()
    } else {
        uses_args(s.drop_last()) + uses_val(s.last().value)
    }
}

pub open spec fn uses_dirs(s: Seq<Directive>) -> Seq<(Seq<char>, Location)>
    decreases s,
{
    if s.len() == 0 {
        Seq::empty()
    } else {
        uses_dirs(s.drop_last()) + uses_args(s.last().arguments@)
    }
}

pub open spec fn uses_sel(s: Selection) -> Seq<(Seq<char>, Location)>
    decreases s,
{
    match s {
        Selection::Field(f) => uses_args(f.arguments@) + uses_dirs(f.directives@) + (
        match f.selection_set {
            Option::Some(ss) => uses_sels(ss@),
            Option::None => Seq::empty(),
        }),
        Selection::FragmentSpread(sp) => uses_dirs(sp.directives@),
        Selection::InlineFragment(inl) => uses_dirs(inl.directives@) + uses_sels(
            inl.selection_set@,
        ),
    }
}

pub open spec fn uses_sels(ss: Seq<Selection>) -> Seq<(Seq<char>, Location)>
    decreases ss,
{
    if ss.len() == 0 {
        Seq::empty()
    } else {
        uses_sels(ss.drop_last()) + uses_sel(ss.last())
    }
}

fn collect_uses_val(v: &Value, out: &mut Vec<NameAt>)
    ensures
        nas_view(final(out)@) == nas_view(old(out)@) + uses_val(*v),
    decreases v,
{
    match v {
        Value::Variable(n, l) => {
            let e = NameAt { name: n.clone(), loc: *l };
            proof {
                assert(nas_view(out@.push(e)) =~= nas_view(out@) + seq![(n@, *l)]);
            }
            out.push(e);
        },
        Value::ListValue(items) => {
            let n = items.len();
            let mut i: usize = 0;
            while i < n
                invariant
                    i <= n == items@.len(),
                    *v == Value::ListValue(*items),
                    nas_view(out@) == nas_view(old(out)@) + uses_vals(items@.take(i as int)),
                decreases n - i,
            {
                proof {
                    assert(decreases_to!(*v => (*v)->ListValue_0));
                    assert(decreases_to!((*v)->ListValue_0 => (*v)->ListValue_0@[i as int]));
                    assert(decreases_to!(*v => items@[i as int]));
                }
                collect_uses_val(&items[i], out);
                proof {
                    assert(items@.take(i + 1).drop_last() =~= items@.take(i as int));
                    assert(items@.take(i + 1).last() == items@[i as int]);
                }
                i = i + 1;
            }
            proof {
                assert(items@.take(n as int) =~= items@);
            }
        },
        Value::ObjectValue(fields) => {
            let n = fields.len();
            let mut i: usize = 0;
            while i < n
                invariant
                    i <= n == fields@.len(),
                    *v == Value::ObjectValue(*fields),
                    nas_view(out@) == nas_view(old(out)@) + uses_objs(fields@.take(i as int)),
                decreases n - i,
            {
                proof {
                    assert(decreases_to!(*v => (*v)->ObjectValue_0));
                    assert(decreases_to!((*v)->ObjectValue_0 => (*v)->ObjectValue_0@[i as int]));
                    assert(decreases_to!((*v)->ObjectValue_0@[i as int] => (*v)->ObjectValue_0@[i as int].value));
                    assert(decreases_to!(*v => fields@[i as int].value));
                }
                collect_uses_val(&fields[i].value, out);
                proof {
                    assert(fields@.take(i + 1).drop_last() =~= fields@.take(i as int));
                    assert(fields@.take(i + 1).last() == fields@[i as int]);
                }
                i = i + 1;
            }
            proof {
                assert(fields@.take(n as int) =~= fields@);
            }
        },
        _ => {
            proof {
                assert(nas_view(out@) =~= nas_view(out@) + uses_val(*v));
            }
        },
    }
}

fn collect_uses_args(args: &Vec<Argument>, out: &mut Vec<NameAt>)
    ensures
        nas_view(final(out)@) == nas_view(old(out)@) + uses_args(args@),
{
    let n = args.len();
    let mut i: usize = 0;
    while i < n
        invariant
            i <= n == args@.len(),
            nas_view(out@) == nas_view(old(out)@) + uses_args(args@.take(i as int)),
        decreases n - i,
    {
        collect_uses_val(&args[i].value, out);
        proof {
            assert(args@.take(i + 1).drop_last() =~= args@.take(i as int));
            assert(args@.take(i + 1).last() == args@[i as int]);
        }
        i = i + 1;
    }
    proof {
        assert(args@.take(n as int) =~= args@);
    }
}

fn collect_uses_dirs(dirs: &Vec<Directive>, out: &mut Vec<NameAt>)
    ensures
        nas_view(final(out)@) == nas_view(old(out)@) + uses_dirs(dirs@),
{
    let n = dirs.len();
    let mut i: usize = 0;
    while i < n
        invariant
            i <= n == dirs@.len(),
            nas_view(out@) == nas_view(old(out)@) + uses_dirs(dirs@.take(i as int)),
        decreases n - i,
    {
        collect_uses_args(&dirs[i].arguments, out);
        proof {
            assert(dirs@.take(i + 1).drop_last() =~= dirs@.take(i as int));
            assert(dirs@.take(i + 1).last() == dirs@[i as int]);
        }
        i = i + 1;
    }
    proof {
        assert(dirs@.take(n as int) =~= dirs@);
    }
}

fn collect_uses_sel(s: &Selection, out: &mut Vec<NameAt>)
    ensures
        nas_view(final(out)@) == nas_view(old(out)@) + uses_sel(*s),
    decreases s,
{
    match s {
        Selection::Field(f) => {
            collect_uses_args(&f.arguments, out);
            collect_uses_dirs(&f.directives, out);
            match &f.selection_set {
                Option::Some(inner) => {
                    proof {
                        assert(decreases_to!(*s => f.selection_set->0));
                    }
                    collect_uses_sels(inner, out);
                },
                Option::None => {},
            }
        },
        Selection::FragmentSpread(sp) => {
            collect_uses_dirs(&sp.directives, out);
        },
        Selection::InlineFragment(inl) => {
            collect_uses_dirs(&inl.directives, out);
            proof {
                assert(decreases_to!(*s => inl.selection_set));
            }
            collect_uses_sels(&inl.selection_set, out);
        },
    }
}

fn collect_uses_sels(ss: &Vec<Selection>, out: &mut Vec<NameAt>)
    ensures
        nas_view(final(out)@) == nas_view(old(out)@) + uses_sels(ss@),
    decreases ss,
{
    let n = ss.len();
    let mut i: usize = 0;
    while i < n
        invariant
            i <= n == ss@.len(),
            nas_view(out@) == nas_view(old(out)@) + uses_sels(ss@.take(i as int)),
        decreases n - i,
    {
        proof {
            assert(decreases_to!(ss => ss@[i as int]));
        }
        collect_uses_sel(&ss[i], out);
        proof {
            assert(ss@.take(i + 1).drop_last() =~= ss@.take(i as int));
            assert(ss@.take(i + 1).last() == ss@[i as int]);
        }
        i = i + 1;
    }
    proof {
        assert(ss@.take(n as int) =~= ss@);
    }
}


/// Some already-included fragment has an edge into `t`.
pub open spec fn edge_into(incl: Seq<bool>, adj: Seq<Seq<usize>>, t: int) -> bool {
    exists|j: int| 0 <= j < incl.len() && incl[j] && j < adj.len() && adj[j].contains(t as usize)
}

pub open spec fn step_incl(incl: Seq<bool>, adj: Seq<Seq<usize>>) -> Seq<bool> {
    Seq::new(incl.len(), |t: int| incl[t] || edge_into(incl, adj, t))
}

/// Iterates the inclusion step a fixed number of rounds; as many rounds as
/// fragments reaches the transitive closure.
pub open spec fn closure(incl: Seq<bool>, adj: Seq<Seq<usize>>, rounds: nat) -> Seq<bool>
    decreases rounds,
{
    if rounds == 0 {
        incl
    } else {
        closure(step_incl(incl, adj), adj, (rounds - 1) as nat)
    }
}

/// The fragments directly spread from a selection tree.
pub open spec fn init_incl(spreads: Seq<Seq<char>>, frags: Seq<(Seq<char>, Location)>) -> Seq<
    bool,
> {
    Seq::new(frags.len(), |t: int| adj_row(spreads, frags).contains(t as usize))
}

/// The fragments reachable from an operation's selection tree.
pub open spec fn op_incl(
    o: OperationDefinition,
    defs: Seq<Definition>,
    frags: Seq<(Seq<char>, Location)>,
) -> Seq<bool> {
    closure(init_incl(spreads_sels(o.selection_set@), frags), doc_adj(defs, frags), frags.len())
}

/// Variable uses contributed by the included fragments, in document order.
pub open spec fn incl_uses_upto(defs: Seq<Definition>, incl: Seq<bool>, n: int) -> Seq<
    (Seq<char>, Location),
>
    decreases n,
{
    if n <= 0 {
        Seq::empty()
    } else {
        let pre = incl_uses_upto(defs, incl, n - 1);
        match defs[n - 1] {
            Definition::Operation(_) => pre,
            Definition::Fragment(f) => {
                let fi = frag_names(defs.take(n - 1)).len() as int;
                if 0 <= fi < incl.len() && incl[fi] {
                    pre + uses_dirs(f.directives@) + uses_sels(f.selection_set@)
                } else {
                    pre
                }
            },
        }
    }
}

/// Every variable use that belongs to an operation: its own directives and
/// selection tree, then each reachable fragment's directives and tree.
pub open spec fn op_uses(
    o: OperationDefinition,
    defs: Seq<Definition>,
    frags: Seq<(Seq<char>, Location)>,
) -> Seq<(Seq<char>, Location)> {
    uses_dirs(o.directives@) + uses_sels(o.selection_set@) + incl_uses_upto(
        defs,
        op_incl(o, defs, frags),
        defs.len() as int,
    )
}

pub open spec fn vardef_names(vds: Seq<VariableDefinition>) -> Seq<(Seq<char>, Location)> {
    Seq::new(vds.len(), |i: int| (vds[i].name@, vds[i].position))
}

pub open spec fn msg_undef_var(n: Seq<char>) -> Seq<char> {
    "variable '$"@ + n + "' is not defined"@
}

pub open spec fn msg_unused_var(n: Seq<char>) -> Seq<char> {
    "variable '$"@ + n + "' is never used"@
}

/// One diagnostic per distinct undefined variable name, at its first use.
pub open spec fn undef_upto(
    uses: Seq<(Seq<char>, Location)>,
    defs: Seq<(Seq<char>, Location)>,
    n: int,
) -> Seq<(Seq<char>, Seq<Location>)>
    decreases n,
{
    if n <= 0 {
        Seq::empty()
    } else {
        let pre = undef_upto(uses, defs, n - 1);
        if find_name(defs, uses[n - 1].0, 0) == -1 && find_name(uses, uses[n - 1].0, 0) == n - 1 {
            pre.push((msg_undef_var(uses[n - 1].0), seq![uses[n - 1].1]))
        } else {
            pre
        }
    }
}

/// One diagnostic per defined variable that is never used.
pub open spec fn unused_var_upto(
    defs: Seq<(Seq<char>, Location)>,
    uses: Seq<(Seq<char>, Location)>,
    n: int,
) -> Seq<(Seq<char>, Seq<Location>)>
    decreases n,
{
    if n <= 0 {
        Seq::empty()
    } else {
        let pre = unused_var_upto(defs, uses, n - 1);
        if find_name(uses, defs[n - 1].0, 0) == -1 {
            pre.push((msg_unused_var(defs[n - 1].0), seq![defs[n - 1].1]))
        } else {
            pre
        }
    }
}

/// All variable diagnostics of one operation: duplicate definitions, then
/// undefined uses, then unused definitions.
pub open spec fn op_var_diags(
    o: OperationDefinition,
    defs: Seq<Definition>,
    frags: Seq<(Seq<char>, Location)>,
) -> Seq<(Seq<char>, Seq<Location>)> {
    let d = vardef_names(o.variable_definitions@);
    let u = op_uses(o, defs, frags);
    dup_diags(d, "variable"@, "$"@) + undef_upto(u, d, u.len() as int) + unused_var_upto(
        d,
        u,
        d.len() as int,
    )
}

pub open spec fn var_diags_upto(
    defs: Seq<Definition>,
    frags: Seq<(Seq<char>, Location)>,
    n: int,
) -> Seq<(Seq<char>, Seq<Location>)>
    decreases n,
{
    if n <= 0 {
        Seq::empty()
    } else {
        var_diags_upto(defs, frags, n - 1) + (match defs[n - 1] {
            Definition::Operation(o) => op_var_diags(o, defs, frags),
            Definition::Fragment(_) => Seq::empty(),
        })
    }
}

/// Variable diagnostics of every operation, in document order.
pub open spec fn var_diags(defs: Seq<Definition>, frags: Seq<(Seq<char>, Location)>) -> Seq<
    (Seq<char>, Seq<Location>),
> {
    var_diags_upto(defs, frags, defs.len() as int)
}

fn edge_into_e(incl: &Vec<bool>, adj: &Vec<Vec<usize>>, t: usize) -> (r: bool)
    ensures
        r == edge_into(incl@, adj_view(adj@), t as int),
{
    let n = incl.len();
    let mut j: usize = 0;
    while j < n
        invariant
            j <= n == incl@.len(),
            forall|k: int|
                0 <= k < j ==> !(incl@[k] && k < adj@.len() && adj_view(adj@)[k].contains(t)),
        decreases n - j,
    {
        if incl[j] && j < adj.len() && contains_usize(&adj[j], t) {
            proof {
                assert(incl@[j as int] && (j as int) < adj@.len() && adj_view(adj@)[
                    j as int].contains(t));
            }
            return true;
        }
        j = j + 1;
    }
    false
}

fn step_incl_e(incl: &Vec<bool>, adj: &Vec<Vec<usize>>) -> (r: Vec<bool>)
    ensures
        r@ == step_incl(incl@, adj_view(adj@)),
{
    let n = incl.len();
    let mut out: Vec<bool> = Vec::new();
    let mut t: usize = 0;
    while t < n
        invariant
            t <= n == incl@.len(),
            out@.len() == t,
            forall|k: int|
                0 <= k < t ==> out@[k] == (incl@[k] || edge_into(incl@, adj_view(adj@), k)),
        decreases n - t,
    {
        let b = incl[t] || edge_into_e(incl, adj, t);
        out.push(b);
        t = t + 1;
    }
    proof {
        assert(out@ =~= step_incl(incl@, adj_view(adj@)));
    }
    out
}

/// Computes the fragments reachable from an operation.
fn op_incl_e(o: &OperationDefinition, frags: &Vec<NameAt>, adj: &Vec<Vec<usize>>) -> (r: Vec<
    bool>)
    ensures
        r@ == closure(
            init_incl(spreads_sels(o.selection_set@), nas_view(frags@)),
            adj_view(adj@),
            frags@.len(),
        ),
{
    let mut spr: Vec<String> = Vec::new();
    collect_spreads_sels(&o.selection_set, &mut spr);
    let row = build_row(&spr, frags);
    let n = frags.len();
    let mut incl: Vec<bool> = Vec::new();
    let mut t: usize = 0;
    while t < n
        invariant
            t <= n == frags@.len(),
            row@ == adj_row(strs_view(spr@), nas_view(frags@)),
            strs_view(spr@) == spreads_sels(o.selection_set@),
            incl@.len() == t,
            forall|k: int| 0 <= k < t ==> incl@[k] == row@.contains(k as usize),
        decreases n - t,
    {
        let b = contains_usize(&row, t);
        incl.push(b);
        t = t + 1;
    }
    proof {
        assert(incl@ =~= init_incl(spreads_sels(o.selection_set@), nas_view(frags@)));
    }
    let ghost init0 = incl@;
    let mut r: usize = 0;
    while r < n
        invariant
            r <= n == frags@.len(),
            closure(incl@, adj_view(adj@), (n - r) as nat) == closure(
                init0,
                adj_view(adj@),
                n as nat,
            ),
        decreases n - r,
    {
        incl = step_incl_e(&incl, adj);
        r = r + 1;
    }
    incl
}


fn undef_errors(uses: &Vec<NameAt>, defs: &Vec<NameAt>) -> (r: Vec<ValidationError>)
    ensures
        errs_view(r@) == undef_upto(nas_view(uses@), nas_view(defs@), uses@.len() as int),
{
    let mut out: Vec<ValidationError> = Vec::new();
    let n = uses.len();
    let mut i: usize = 0;
    while i < n
        invariant
            i <= n == uses@.len(),
            errs_view(out@) == undef_upto(nas_view(uses@), nas_view(defs@), i as int),
        decreases n - i,
    {
        let in_defs = find_name_e(defs, &uses[i].name);
        let first = find_name_e(uses, &uses[i].name);
        let is_first: bool = match first {
            Option::Some(f) => f == i,
            Option::None => false,
        };
        let is_undef: bool = match in_defs {
            Option::Some(_) => false,
            Option::None => true,
        };
        if is_undef && is_first {
            let mut m = String::from_str("variable '$");
            m.append(uses[i].name.as_str());
            m.append("' is not defined");
            let mut locs: Vec<Location> = Vec::new();
            locs.push(uses[i].loc);
            let e = ValidationError { message: m, locations: locs };
            proof {
                assert(err_view(e) == (
                    msg_undef_var(nas_view(uses@)[i as int].0),
                    seq![nas_view(uses@)[i as int].1],
                ));
                assert(errs_view(out@.push(e)) =~= errs_view(out@).push(err_view(e)));
            }
            out.push(e);
        }
        proof {
            assert(errs_view(out@) == undef_upto(nas_view(uses@), nas_view(defs@), i + 1));
        }
        i = i + 1;
    }
    out
}

fn unused_var_errors(defs: &Vec<NameAt>, uses: &Vec<NameAt>) -> (r: Vec<ValidationError>)
    ensures
        errs_view(r@) == unused_var_upto(nas_view(defs@), nas_view(uses@), defs@.len() as int),
{
    let mut out: Vec<ValidationError> = Vec::new();
    let n = defs.len();
    let mut i: usize = 0;
    while i < n
        invariant
            i <= n == defs@.len(),
            errs_view(out@) == unused_var_upto(nas_view(defs@), nas_view(uses@), i as int),
        decreases n - i,
    {
        let used = find_name_e(uses, &defs[i].name);
        let is_unused: bool = match used {
            Option::Some(_) => false,
            Option::None => true,
        };
        if is_unused {
            let mut m = String::from_str("variable '$");
            m.append(defs[i].name.as_str());
            m.append("' is never used");
            let mut locs: Vec<Location> = Vec::new();
            locs.push(defs[i].loc);
            let e = ValidationError { message: m, locations: locs };
            proof {
                assert(err_view(e) == (
                    msg_unused_var(nas_view(defs@)[i as int].0),
                    seq![nas_view(defs@)[i as int].1],
                ));
                assert(errs_view(out@.push(e)) =~= errs_view(out@).push(err_view(e)));
            }
            out.push(e);
        }
        proof {
            assert(errs_view(out@) == unused_var_upto(nas_view(defs@), nas_view(uses@), i + 1));
        }
        i = i + 1;
    }
    out
}

/// Builds the variable diagnostics of one operation.
fn op_var_errors(
    o: &OperationDefinition,
    doc: &Document,
    frags: &Vec<NameAt>,
    adj: &Vec<Vec<usize>>,
) -> (r: Vec<ValidationError>)
    requires
        adj_view(adj@) == doc_adj(doc.definitions@, nas_view(frags@)),
    ensures
        errs_view(r@) == op_var_diags(*o, doc.definitions@, nas_view(frags@)),
{
    let ghost fv = nas_view(frags@);
    let ghost dv = doc.definitions@;
    // the declared variables
    let mut vds: Vec<NameAt> = Vec::new();
    let vn = o.variable_definitions.len();
    let mut i: usize = 0;
    while i < vn
        invariant
            i <= vn == o.variable_definitions@.len(),
            vds@.len() == i,
            forall|k: int|
                0 <= k < i ==> (#[trigger] vds@[k]).name@ == o.variable_definitions@[k].name@
                    && vds@[k].loc == o.variable_definitions@[k].position,
        decreases vn - i,
    {
        vds.push(
            NameAt {
                name: o.variable_definitions[i].name.clone(),
                loc: o.variable_definitions[i].position,
            },
        );
        i = i + 1;
    }
    proof {
        assert(nas_view(vds@) =~= vardef_names(o.variable_definitions@));
    }
    // every use in the operation's scope
    let mut uses: Vec<NameAt> = Vec::new();
    collect_uses_dirs(&o.directives, &mut uses);
    collect_uses_sels(&o.selection_set, &mut uses);
    let incl = op_incl_e(o, frags, adj);
    proof {
        assert(incl@ == op_incl(*o, dv, fv));
    }
    let defs = &doc.definitions;
    let dn = defs.len();
    let mut fi: usize = 0;
    let mut di: usize = 0;
    while di < dn
        invariant
            di <= dn == defs@.len(),
            fi <= di,
            fv == nas_view(frags@),
            incl@ == op_incl(*o, dv, fv),
            dv == defs@,
            fi as int == frag_names(defs@.take(di as int)).len(),
            nas_view(uses@) == uses_dirs(o.directives@) + uses_sels(o.selection_set@)
                + incl_uses_upto(defs@, incl@, di as int),
        decreases dn - di,
    {
        proof {
            assert(defs@.take(di + 1).drop_last() =~= defs@.take(di as int));
            assert(defs@.take(di + 1).last() == defs@[di as int]);
        }
        match &defs[di] {
            Definition::Operation(_) => {},
            Definition::Fragment(f) => {
                proof {
                    assert(frag_names(defs@.take(di + 1)).len() == fi + 1);
                }
                if fi < incl.len() && incl[fi] {
                    collect_uses_dirs(&f.directives, &mut uses);
                    collect_uses_sels(&f.selection_set, &mut uses);
                }
                fi = fi + 1;
            },
        }
        di = di + 1;
    }
    proof {
        assert(defs@.take(dn as int) =~= defs@);
        assert(nas_view(uses@) == op_uses(*o, dv, fv));
    }
    let mut out = dup_errors(&vds, "variable", "$");
    let mut undef = undef_errors(&uses, &vds);
    let mut unused = unused_var_errors(&vds, &uses);
    let ghost a = out@;
    let ghost b = undef@;
    out.append(&mut undef);
    proof {
        assert(errs_view(a + b) =~= errs_view(a) + errs_view(b));
    }
    let ghost c = out@;
    let ghost d = unused@;
    out.append(&mut unused);
    proof {
        assert(errs_view(c + d) =~= errs_view(c) + errs_view(d));
        assert(errs_view(out@) =~= op_var_diags(*o, dv, fv));
    }
    out
}

/// Builds the variable diagnostics of every operation, in document order.
fn var_errors(doc: &Document, frags: &Vec<NameAt>, adj: &Vec<Vec<usize>>) -> (r: Vec<
    ValidationError>)
    requires
        adj_view(adj@) == doc_adj(doc.definitions@, nas_view(frags@)),
    ensures
        errs_view(r@) == var_diags(doc.definitions@, nas_view(frags@)),
{
    let defs = &doc.definitions;
    let mut out: Vec<ValidationError> = Vec::new();
    let n = defs.len();
    let mut i: usize = 0;
    while i < n
        invariant
            i <= n == defs@.len(),
            adj_view(adj@) == doc_adj(doc.definitions@, nas_view(frags@)),
            defs@ == doc.definitions@,
            errs_view(out@) == var_diags_upto(defs@, nas_view(frags@), i as int),
        decreases n - i,
    {
        proof {
            assert(defs@.take(i + 1).drop_last() =~= defs@.take(i as int));
            assert(defs@.take(i + 1).last() == defs@[i as int]);
        }
        match &defs[i] {
            Definition::Operation(o) => {
                let mut part = op_var_errors(o, doc, frags, adj);
                let ghost a = out@;
                let ghost b = part@;
                out.append(&mut part);
                proof {
                    assert(errs_view(a + b) =~= errs_view(a) + errs_view(b));
                }
            },
            Definition::Fragment(_) => {},
        }
        proof {
            assert(errs_view(out@) == var_diags_upto(defs@, nas_view(frags@), i + 1));
        }
        i = i + 1;
    }
    out
}


/// A directive occurrence: name, position, and whether the node it sits on
/// is a field, fragment spread or inline fragment.
pub struct DirAt {
    pub name: String,
    pub loc: Location,
    pub ok: bool,
}

pub open spec fn dirats_view(s: Seq<DirAt>) -> Seq<(Seq<char>, Location, bool)> {
    Seq::new(s.len(), |i: int| (s[i].name@, s[i].loc, s[i].ok))
}

pub open spec fn dirs_at(dirs: Seq<Directive>, ok: bool) -> Seq<(Seq<char>, Location, bool)> {
    Seq::new(dirs.len(), |i: int| (dirs[i].name@, dirs[i].position, ok))
}

pub open spec fn dirctx_sel(s: Selection) -> Seq<(Seq<char>, Location, bool)>
    decreases s,
{
    match s {
        Selection::Field(f) => dirs_at(f.directives@, true) + (match f.selection_set {
            Option::Some(ss) => dirctx_sels(ss@),
            Option::None => Seq::empty(),
        }),
        Selection::FragmentSpread(sp) => dirs_at(sp.directives@, true),
        Selection::InlineFragment(inl) => dirs_at(inl.directives@, true) + dirctx_sels(
            inl.selection_set@,
        ),
    }
}

pub open spec fn dirctx_sels(ss: Seq<Selection>) -> Seq<(Seq<char>, Location, bool)>
    decreases ss,
{
    if ss.len() == 0 {
        Seq::empty()
    } else {
        dirctx_sels(ss.drop_last()) + dirctx_sel(ss.last())
    }
}

pub open spec fn dirctx_vardefs(vds: Seq<VariableDefinition>) -> Seq<(Seq<char>, Location, bool)>
    decreases vds,
{
    if vds.len() == 0 {
        Seq::empty()
    } else {
        dirctx_vardefs(vds.drop_last()) + dirs_at(vds.last().directives@, false)
    }
}

pub open spec fn dirctx_def(d: Definition) -> Seq<(Seq<char>, Location, bool)> {
    match d {
        Definition::Operation(o) => dirs_at(o.directives@, false) + dirctx_vardefs(
            o.variable_definitions@,
        ) + dirctx_sels(o.selection_set@),
        Definition::Fragment(f) => dirs_at(f.directives@, false) + dirctx_sels(f.selection_set@),
    }
}

pub open spec fn dirctx_doc(defs: Seq<Definition>) -> Seq<(Seq<char>, Location, bool)>
    decreases defs,
{
    if defs.len() == 0 {
        Seq::empty()
    } else {
        dirctx_doc(defs.drop_last()) + dirctx_def(defs.last())
    }
}

/// The built-in executable directives, whose placement is known without a
/// schema: they may only decorate fields, spreads and inline fragments.
pub open spec fn is_builtin_exec_dir(n: Seq<char>) -> bool {
    n == "skip"@ || n == "include"@
}

pub open spec fn msg_misplaced_dir(n: Seq<char>) -> Seq<char> {
    "directive '@"@ + n + "' is not valid in this position"@
}

pub open spec fn dir_diags_upto(ds: Seq<(Seq<char>, Location, bool)>, n: int) -> Seq<
    (Seq<char>, Seq<Location>),
>
    decreases n,
{
    if n <= 0 {
        Seq::empty()
    } else {
        let pre = dir_diags_upto(ds, n - 1);
        if is_builtin_exec_dir(ds[n - 1].0) && !ds[n - 1].2 {
            pre.push((msg_misplaced_dir(ds[n - 1].0), seq![ds[n - 1].1]))
        } else {
            pre
        }
    }
}

pub open spec fn dir_diags(defs: Seq<Definition>) -> Seq<(Seq<char>, Seq<Location>)> {
    dir_diags_upto(dirctx_doc(defs), dirctx_doc(defs).len() as int)
}

fn push_dirs_at(dirs: &Vec<Directive>, ok: bool, out: &mut Vec<DirAt>)
    ensures
        dirats_view(final(out)@) == dirats_view(old(out)@) + dirs_at(dirs@, ok),
{
    let n = dirs.len();
    let mut i: usize = 0;
    while i < n
        invariant
            i <= n == dirs@.len(),
            out@.len() == old(out)@.len() + i,
            forall|k: int| 0 <= k < old(out)@.len() ==> out@[k] == old(out)@[k],
            forall|j: int|
                old(out)@.len() <= j < out@.len() ==> (#[trigger] out@[j]).name@ == dirs@[j - old(
                    out,
                )@.len()].name@ && out@[j].loc == dirs@[j - old(out)@.len()].position && out@[j].ok
                    == ok,
        decreases n - i,
    {
        out.push(DirAt { name: dirs[i].name.clone(), loc: dirs[i].position, ok });
        i = i + 1;
    }
    proof {
        assert(dirats_view(out@) =~= dirats_view(old(out)@) + dirs_at(dirs@, ok));
    }
}

fn collect_dirctx_sel(s: &Selection, out: &mut Vec<DirAt>)
    ensures
        dirats_view(final(out)@) == dirats_view(old(out)@) + dirctx_sel(*s),
    decreases s,
{
    match s {
        Selection::Field(f) => {
            push_dirs_at(&f.directives, true, out);
            match &f.selection_set {
                Option::Some(inner) => {
                    proof {
                        assert(decreases_to!(*s => f.selection_set->0));
                    }
                    collect_dirctx_sels(inner, out);
                },
                Option::None => {},
            }
        },
        Selection::FragmentSpread(sp) => {
            push_dirs_at(&sp.directives, true, out);
        },
        Selection::InlineFragment(inl) => {
            push_dirs_at(&inl.directives, true, out);
            proof {
                assert(decreases_to!(*s => inl.selection_set));
            }
            collect_dirctx_sels(&inl.selection_set, out);
        },
    }
}

fn collect_dirctx_sels(ss: &Vec<Selection>, out: &mut Vec<DirAt>)
    ensures
        dirats_view(final(out)@) == dirats_view(old(out)@) + dirctx_sels(ss@),
    decreases ss,
{
    let n = ss.len();
    let mut i: usize = 0;
    while i < n
        invariant
            i <= n == ss@.len(),
            dirats_view(out@) == dirats_view(old(out)@) + dirctx_sels(ss@.take(i as int)),
        decreases n - i,
    {
        proof {
            assert(decreases_to!(ss => ss@[i as int]));
        }
        collect_dirctx_sel(&ss[i], out);
        proof {
            assert(ss@.take(i + 1).drop_last() =~= ss@.take(i as int));
            assert(ss@.take(i + 1).last() == ss@[i as int]);
        }
        i = i + 1;
    }
    proof {
        assert(ss@.take(n as int) =~= ss@);
    }
}

/// Collects every directive occurrence in the document with its context.
fn collect_dirctx_doc(doc: &Document) -> (r: Vec<DirAt>)
    ensures
        dirats_view(r@) == dirctx_doc(doc.definitions@),
{
    let defs = &doc.definitions;
    let mut out: Vec<DirAt> = Vec::new();
    let n = defs.len();
    let mut i: usize = 0;
    while i < n
        invariant
            i <= n == defs@.len(),
            dirats_view(out@) == dirctx_doc(defs@.take(i as int)),
        decreases n - i,
    {
        proof {
            assert(defs@.take(i + 1).drop_last() =~= defs@.take(i as int));
            assert(defs@.take(i + 1).last() == defs@[i as int]);
        }
        match &defs[i] {
            Definition::Operation(o) => {
                push_dirs_at(&o.directives, false, &mut out);
                let vn = o.variable_definitions.len();
                let mut j: usize = 0;
                while j < vn
                    invariant
                        j <= vn == o.variable_definitions@.len(),
                        dirats_view(out@) == dirctx_doc(defs@.take(i as int)) + dirs_at(
                            o.directives@,
                            false,
                        ) + dirctx_vardefs(o.variable_definitions@.take(j as int)),
                    decreases vn - j,
                {
                    push_dirs_at(&o.variable_definitions[j].directives, false, &mut out);
                    proof {
                        assert(o.variable_definitions@.take(j + 1).drop_last()
                            =~= o.variable_definitions@.take(j as int));
                        assert(o.variable_definitions@.take(j + 1).last()
                            == o.variable_definitions@[j as int]);
                    }
                    j = j + 1;
                }
                proof {
                    assert(o.variable_definitions@.take(vn as int) =~= o.variable_definitions@);
                }
                collect_dirctx_sels(&o.selection_set, &mut out);
            },
            Definition::Fragment(f) => {
                push_dirs_at(&f.directives, false, &mut out);
                collect_dirctx_sels(&f.selection_set, &mut out);
            },
        }
        i = i + 1;
    }
    proof {
        assert(defs@.take(n as int) =~= defs@);
    }
    out
}

fn str_eq(a: &String, b: &str) -> (r: bool)
    ensures
        r == (a@ == b@),
{
    let o = b.to_owned();
    *a == o
}

/// Builds the misplaced-directive diagnostics.
fn dir_errors(doc: &Document) -> (r: Vec<ValidationError>)
    ensures
        errs_view(r@) == dir_diags(doc.definitions@),
{
    let ds = collect_dirctx_doc(doc);
    let mut out: Vec<ValidationError> = Vec::new();
    let n = ds.len();
    let mut i: usize = 0;
    while i < n
        invariant
            i <= n == ds@.len(),
            dirats_view(ds@) == dirctx_doc(doc.definitions@),
            errs_view(out@) == dir_diags_upto(dirctx_doc(doc.definitions@), i as int),
        decreases n - i,
    {
        let builtin = str_eq(&ds[i].name, "skip") || str_eq(&ds[i].name, "include");
        if builtin && !ds[i].ok {
            let mut m = String::from_str("directive '@");
            m.append(ds[i].name.as_str());
            m.append("' is not valid in this position");
            let mut locs: Vec<Location> = Vec::new();
            locs.push(ds[i].loc);
            let e = ValidationError { message: m, locations: locs };
            proof {
                assert(err_view(e) == (
                    msg_misplaced_dir(dirats_view(ds@)[i as int].0),
                    seq![dirats_view(ds@)[i as int].1],
                ));
                assert(errs_view(out@.push(e)) =~= errs_view(out@).push(err_view(e)));
            }
            out.push(e);
        }
        proof {
            assert(errs_view(out@) == dir_diags_upto(dirctx_doc(doc.definitions@), i + 1));
        }
        i = i + 1;
    }
    out
}


/// Every standalone-validation diagnostic of a document, in a fixed order:
/// duplicate operation names, anonymous operations beside others, duplicate
/// fragment names, unused fragments, fragment-spread cycles, the variable
/// rules of each operation, and misplaced built-in directives.
pub open spec fn validate_spec(doc: Document) -> Seq<(Seq<char>, Seq<Location>)> {
    let defs = doc.definitions@;
    let frags = frag_names(defs);
    dup_diags(op_names(defs), "operation"@, ""@) + anon_diags(defs) + dup_diags(
        frags,
        "fragment"@,
        ""@,
    ) + unused_frag_diags(frags, doc_spreads(defs)) + cycle_diags(doc_adj(defs, frags), frags)
        + var_diags(defs, frags) + dir_diags(defs)
}

/// Validates a document against the standalone executable rules. The
/// outcome is a pure function of the document: success exactly when the
/// rules produce no diagnostic, and otherwise exactly those diagnostics,
/// in order.
pub fn validate_document(doc: &Document) -> (r: Result<(), Vec<ValidationError>>)
    ensures
        (r is Ok) == (validate_spec(*doc).len() == 0),
        r matches Err(e) ==> errs_view(e@) == validate_spec(*doc) && e@.len() > 0,
{
    let (ops, frags, anon, count) = scan_definitions(doc);
    let mut out = dup_errors(&ops, "operation", "");
    let mut part_anon = anon_errors(doc, &anon, count);
    let mut part_dupfrag = dup_errors(&frags, "fragment", "");
    let spreads = collect_doc_spreads(doc);
    let mut part_unused = unused_frag_errors(&frags, &spreads);
    let adj = build_adj(doc, &frags);
    let mut part_cycle = cycle_errors(&adj, &frags);
    let mut part_var = var_errors(doc, &frags, &adj);
    let mut part_dir = dir_errors(doc);
    let ghost a1 = out@;
    let ghost b1 = part_anon@;
    out.append(&mut part_anon);
    proof {
        assert(errs_view(a1 + b1) =~= errs_view(a1) + errs_view(b1));
    }
    let ghost a2 = out@;
    let ghost b2 = part_dupfrag@;
    out.append(&mut part_dupfrag);
    proof {
        assert(errs_view(a2 + b2) =~= errs_view(a2) + errs_view(b2));
    }
    let ghost a3 = out@;
    let ghost b3 = part_unused@;
    out.append(&mut part_unused);
    proof {
        assert(errs_view(a3 + b3) =~= errs_view(a3) + errs_view(b3));
    }
    let ghost a4 = out@;
    let ghost b4 = part_cycle@;
    out.append(&mut part_cycle);
    proof {
        assert(errs_view(a4 + b4) =~= errs_view(a4) + errs_view(b4));
    }
    let ghost a5 = out@;
    let ghost b5 = part_var@;
    out.append(&mut part_var);
    proof {
        assert(errs_view(a5 + b5) =~= errs_view(a5) + errs_view(b5));
    }
    let ghost a6 = out@;
    let ghost b6 = part_dir@;
    out.append(&mut part_dir);
    proof {
        assert(errs_view(a6 + b6) =~= errs_view(a6) + errs_view(b6));
        assert(errs_view(out@) =~= validate_spec(*doc));
        assert(errs_view(out@).len() == out@.len());
    }
    if out.len() == 0 {
        Ok(())
    } else {
        Err(out)
    }
}

} // verus!
