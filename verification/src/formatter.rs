//! Canonical formatter: a deterministic pretty-printer over the AST. The
//! `fmt_*` spec functions define the canonical text; the writer functions
//! are proved to emit exactly that text.
use vstd::prelude::*;
use vstd::string::StringExecFns;
use crate::ast::Argument;
use crate::ast::Definition;
use crate::ast::Directive;
use crate::ast::Document;
use crate::ast::Field;
use crate::ast::FragmentDefinition;
use crate::ast::InlineFragment;
use crate::ast::ObjectField;
use crate::ast::OperationDefinition;
use crate::ast::OperationType;
use crate::ast::Selection;
use crate::ast::TypeRef;
use crate::ast::Value;
use crate::ast::VariableDefinition;

verus! {

/// Indentation grows by one level per nesting step, saturating at a depth
/// no real document reaches.
pub open spec fn ind_inc(n: nat) -> nat {
    if n < usize::MAX as nat {
        n + 1
    } else {
        n
    }
}

fn ind_inc_e(n: usize) -> (r: usize)
    ensures
        r as nat == ind_inc(n as nat),
{
    if n < usize::MAX {
        n + 1
    } else {
        n
    }
}

pub open spec fn indent_seq(n: nat) -> Seq<char>
    decreases n,
{
    if n == 0 {
        Seq::empty()
    } else {
        indent_seq((n - 1) as nat) + "  "@
    }
}

pub open spec fn fmt_op_type(t: OperationType) -> Seq<char> {
    match t {
        OperationType::Query => "query"@,
        OperationType::Mutation => "mutation"@,
        OperationType::Subscription => "subscription"@,
    }
}

pub open spec fn fmt_type(t: TypeRef) -> Seq<char>
    decreases t,
{
    match t {
        TypeRef::Named(n) => n@,
        TypeRef::List(i) => "["@ + fmt_type(*i) + "]"@,
        TypeRef::NonNull(i) => fmt_type(*i) + "!"@,
    }
}

pub open spec fn fmt_value(v: Value) -> Seq<char>
    decreases v,
{
    match v {
        Value::Variable(n, _l) => "$"@ + n@,
        Value::IntValue(t) => t@,
        Value::FloatValue(t) => t@,
        Value::StringValue(t) => t@,
        Value::BooleanValue(b) => if b {
            "true"@
        } else {
            "false"@
        },
        Value::NullValue => "null"@,
        Value::EnumValue(n) => n@,
        Value::ListValue(items) => "["@ + fmt_value_items(items@) + "]"@,
        Value::ObjectValue(fields) => "{"@ + fmt_object_items(fields@) + "}"@,
    }
}

pub open spec fn fmt_value_items(s: Seq<Value>) -> Seq<char>
    decreases s,
{
    if s.len() == 0 {
        Seq::empty()
    } else if s.len() == 1 {
        fmt_value(s[0])
    } else {
        fmt_value_items(s.drop_last()) + ", "@ + fmt_value(s.last())
    }
}

pub open spec fn fmt_object_items(s: Seq<ObjectField>) -> Seq<char>
    decreases s,
{
    if s.len() == 0 {
        Seq::empty()
    } else if s.len() == 1 {
        s[0].name@ + ": "@ + fmt_value(s[0].value)
    } else {
        fmt_object_items(s.drop_last()) + ", "@ + s.last().name@ + ": "@ + fmt_value(s.last().value)
    }
}

pub open spec fn fmt_arg(a: Argument) -> Seq<char> {
    a.name@ + ": "@ + fmt_value(a.value)
}

pub open spec fn fmt_args_list(s: Seq<Argument>) -> Seq<char>
    decreases s,
{
    if s.len() == 0 {
        Seq::empty()
    } else if s.len() == 1 {
        fmt_arg(s[0])
    } else {
        fmt_args_list(s.drop_last()) + ", "@ + fmt_arg(s.last())
    }
}

/// Argument lists print inside parentheses; an empty list prints nothing.
pub open spec fn fmt_args(s: Seq<Argument>) -> Seq<char> {
    if s.len() == 0 {
        Seq::empty()
    } else {
        "("@ + fmt_args_list(s) + ")"@
    }
}

pub open spec fn fmt_dir(d: Directive) -> Seq<char> {
    " @"@ + d.name@ + fmt_args(d.arguments@)
}

pub open spec fn fmt_dirs(s: Seq<Directive>) -> Seq<char>
    decreases s,
{
    if s.len() == 0 {
        Seq::empty()
    } else {
        fmt_dirs(s.drop_last()) + fmt_dir(s.last())
    }
}

/// A selection set prints as a brace block, one selection per line, with
/// two spaces of indentation per nesting level.
pub open spec fn fmt_selset(ss: Seq<Selection>, ind: nat) -> Seq<char>
    decreases ss, 1int,
{
    "{\n"@ + fmt_sels(ss, ind_inc(ind)) + indent_seq(ind) + "}"@
}

pub open spec fn fmt_sels(ss: Seq<Selection>, ind: nat) -> Seq<char>
    decreases ss, 0int,
{
    if ss.len() == 0 {
        Seq::empty()
    } else {
        fmt_sels(ss.drop_last(), ind) + indent_seq(ind) + fmt_sel(ss.last(), ind) + "\n"@
    }
}

pub open spec fn fmt_sel(s: Selection, ind: nat) -> Seq<char>
    decreases s, 0int,
{
    match s {
        Selection::Field(f) => (match f.alias {
            Option::Some(a) => a@ + ": "@,
            Option::None => Seq::empty(),
        }) + f.name@ + fmt_args(f.arguments@) + fmt_dirs(f.directives@) + (match f.selection_set {
            Option::Some(ss) => " "@ + fmt_selset(ss@, ind),
            Option::None => Seq::empty(),
        }),
        Selection::FragmentSpread(sp) => "..."@ + sp.name@ + fmt_dirs(sp.directives@),
        Selection::InlineFragment(inl) => "..."@ + (match inl.on_type {
            Option::Some(t) => " on "@ + t@,
            Option::None => Seq::empty(),
        }) + fmt_dirs(inl.directives@) + " "@ + fmt_selset(inl.selection_set@, ind),
    }
}

pub open spec fn fmt_vardef(v: VariableDefinition) -> Seq<char> {
    "$"@ + v.name@ + ": "@ + fmt_type(v.var_type) + (match v.default_value {
        Option::Some(d) => " = "@ + fmt_value(d),
        Option::None => Seq::empty(),
    }) + fmt_dirs(v.directives@)
}

pub open spec fn fmt_vardefs_list(s: Seq<VariableDefinition>) -> Seq<char>
    decreases s,
{
    if s.len() == 0 {
        Seq::empty()
    } else if s.len() == 1 {
        fmt_vardef(s[0])
    } else {
        fmt_vardefs_list(s.drop_last()) + ", "@ + fmt_vardef(s.last())
    }
}

pub open spec fn fmt_vardefs(s: Seq<VariableDefinition>) -> Seq<char> {
    if s.len() == 0 {
        Seq::empty()
    } else {
        "("@ + fmt_vardefs_list(s) + ")"@
    }
}

/// An anonymous query with no variables and no directives prints as a bare
/// selection set; every other operation prints its full header first.
pub open spec fn fmt_operation(o: OperationDefinition) -> Seq<char> {
    if o.op_type is Query && o.name is None && o.variable_definitions@.len() == 0
        && o.directives@.len() == 0 {
        fmt_selset(o.selection_set@, 0)
    } else {
        fmt_op_type(o.op_type) + (match o.name {
            Option::Some(n) => " "@ + n@,
            Option::None => Seq::empty(),
        }) + fmt_vardefs(o.variable_definitions@) + fmt_dirs(o.directives@) + " "@ + fmt_selset(
            o.selection_set@,
            0,
        )
    }
}

pub open spec fn fmt_fragment(f: FragmentDefinition) -> Seq<char> {
    "fragment "@ + f.name@ + " on "@ + f.on_type@ + fmt_dirs(f.directives@) + " "@ + fmt_selset(
        f.selection_set@,
        0,
    )
}

pub open spec fn fmt_def(d: Definition) -> Seq<char> {
    match d {
        Definition::Operation(o) => fmt_operation(o),
        Definition::Fragment(f) => fmt_fragment(f),
    }
}

pub open spec fn fmt_defs(s: Seq<Definition>) -> Seq<char>
    decreases s,
{
    if s.len() == 0 {
        Seq::empty()
    } else {
        fmt_defs(s.drop_last()) + fmt_def(s.last()) + "\n"@
    }
}

/// The canonical text of a whole document: each definition followed by a
/// newline.
pub open spec fn fmt_doc(d: Document) -> Seq<char> {
    fmt_defs(d.definitions@)
}

fn write_indent(out: &mut String, n: usize)
    ensures
        final(out)@ == old(out)@ + indent_seq(n as nat),
{
    let mut i: usize = 0;
    while i < n
        invariant
            i <= n,
            out@ == old(out)@ + indent_seq(i as nat),
        decreases n - i,
    {
        out.append("  ");
        i = i + 1;
    }
}

fn write_op_type(out: &mut String, t: &OperationType)
    ensures
        final(out)@ == old(out)@ + fmt_op_type(*t),
{
    match t {
        OperationType::Query => out.append("query"),
        OperationType::Mutation => out.append("mutation"),
        OperationType::Subscription => out.append("subscription"),
    }
}

fn write_type(out: &mut String, t: &TypeRef)
    ensures
        final(out)@ == old(out)@ + fmt_type(*t),
    decreases *t,
{
    match t {
        TypeRef::Named(n) => {
            out.append(n.as_str());
        },
        TypeRef::List(i) => {
            out.append("[");
            write_type(out, i);
            out.append("]");
        },
        TypeRef::NonNull(i) => {
            write_type(out, i);
            out.append("!");
        },
    }
}

fn write_value(out: &mut String, v: &Value)
    ensures
        final(out)@ == old(out)@ + fmt_value(*v),
    decreases *v,
{
    match v {
        Value::Variable(n, _l) => {
            out.append("$");
            out.append(n.as_str());
        },
        Value::IntValue(t) => {
            out.append(t.as_str());
        },
        Value::FloatValue(t) => {
            out.append(t.as_str());
        },
        Value::StringValue(t) => {
            out.append(t.as_str());
        },
        Value::BooleanValue(b) => {
            if *b {
                out.append("true");
            } else {
                out.append("false");
            }
        },
        Value::NullValue => {
            out.append("null");
        },
        Value::EnumValue(n) => {
            out.append(n.as_str());
        },
        Value::ListValue(items) => {
            out.append("[");
            let ghost base = out@;
            let mut i: usize = 0;
            while i < items.len()
                invariant
                    i <= items@.len(),
                    *v == Value::ListValue(*items),
                    out@ == base + fmt_value_items(items@.take(i as int)),
                decreases items@.len() - i,
            {
                if i > 0 {
                    out.append(", ");
                }
                proof {
                    assert((*v)->ListValue_0 == *items);
                    assert(decreases_to!(*v => (*v)->ListValue_0));
                    assert(decreases_to!((*v)->ListValue_0 => (*v)->ListValue_0@[i as int]));
                    assert(decreases_to!(*v => items@[i as int]));
                }
                write_value(out, &items[i]);
                proof {
                    assert(items@.take(i + 1).drop_last() =~= items@.take(i as int));
                    assert(items@.take(i + 1).last() == items@[i as int]);
                    if i == 0 {
                        assert(items@.take(1)[0] == items@[0]);
                    }
                }
                i = i + 1;
            }
            proof {
                assert(items@.take(items@.len() as int) =~= items@);
            }
            out.append("]");
        },
        Value::ObjectValue(fields) => {
            out.append("{");
            let ghost base = out@;
            let mut i: usize = 0;
            while i < fields.len()
                invariant
                    i <= fields@.len(),
                    *v == Value::ObjectValue(*fields),
                    out@ == base + fmt_object_items(fields@.take(i as int)),
                decreases fields@.len() - i,
            {
                if i > 0 {
                    out.append(", ");
                }
                out.append(fields[i].name.as_str());
                out.append(": ");
                proof {
                    assert((*v)->ObjectValue_0 == *fields);
                    assert(decreases_to!(*v => (*v)->ObjectValue_0));
                    assert(decreases_to!((*v)->ObjectValue_0 => (*v)->ObjectValue_0@[i as int]));
                    assert(decreases_to!((*v)->ObjectValue_0@[i as int] => (*v)->ObjectValue_0@[i as int].value));
                    assert(decreases_to!(*v => fields@[i as int].value));
                }
                write_value(out, &fields[i].value);
                proof {
                    assert(fields@.take(i + 1).drop_last() =~= fields@.take(i as int));
                    assert(fields@.take(i + 1).last() == fields@[i as int]);
                    if i == 0 {
                        assert(fields@.take(1)[0] == fields@[0]);
                    }
                }
                i = i + 1;
            }
            proof {
                assert(fields@.take(fields@.len() as int) =~= fields@);
            }
            out.append("}");
        },
    }
}

fn write_args(out: &mut String, args: &Vec<Argument>)
    ensures
        final(out)@ == old(out)@ + fmt_args(args@),
{
    if args.len() == 0 {
        return ;
    }
    out.append("(");
    let ghost base = out@;
    let mut i: usize = 0;
    while i < args.len()
        invariant
            i <= args@.len(),
            out@ == base + fmt_args_list(args@.take(i as int)),
        decreases args@.len() - i,
    {
        if i > 0 {
            out.append(", ");
        }
        out.append(args[i].name.as_str());
        out.append(": ");
        write_value(out, &args[i].value);
        proof {
            assert(args@.take(i + 1).drop_last() =~= args@.take(i as int));
            assert(args@.take(i + 1).last() == args@[i as int]);
            if i == 0 {
                assert(args@.take(1)[0] == args@[0]);
            }
        }
        i = i + 1;
    }
    proof {
        assert(args@.take(args@.len() as int) =~= args@);
    }
    out.append(")");
}

fn write_dirs(out: &mut String, dirs: &Vec<Directive>)
    ensures
        final(out)@ == old(out)@ + fmt_dirs(dirs@),
{
    let mut i: usize = 0;
    while i < dirs.len()
        invariant
            i <= dirs@.len(),
            out@ == old(out)@ + fmt_dirs(dirs@.take(i as int)),
        decreases dirs@.len() - i,
    {
        out.append(" @");
        out.append(dirs[i].name.as_str());
        write_args(out, &dirs[i].arguments);
        proof {
            assert(dirs@.take(i + 1).drop_last() =~= dirs@.take(i as int));
            assert(dirs@.take(i + 1).last() == dirs@[i as int]);
        }
        i = i + 1;
    }
    proof {
        assert(dirs@.take(dirs@.len() as int) =~= dirs@);
    }
}

fn write_selset(out: &mut String, ss: &Vec<Selection>, ind: usize)
    ensures
        final(out)@ == old(out)@ + fmt_selset(ss@, ind as nat),
    decreases ss, 1int,
{
    out.append("{\n");
    let ghost base = out@;
    let ind1 = ind_inc_e(ind);
    let mut i: usize = 0;
    while i < ss.len()
        invariant
            i <= ss@.len(),
            ind1 as nat == ind_inc(ind as nat),
            out@ == base + fmt_sels(ss@.take(i as int), ind_inc(ind as nat)),
        decreases ss@.len() - i,
    {
        write_indent(out, ind1);
        proof {
            assert(decreases_to!(ss => ss@[i as int]));
        }
        write_sel(out, &ss[i], ind1);
        out.append("\n");
        proof {
            assert(ss@.take(i + 1).drop_last() =~= ss@.take(i as int));
            assert(ss@.take(i + 1).last() == ss@[i as int]);
        }
        i = i + 1;
    }
    proof {
        assert(ss@.take(ss@.len() as int) =~= ss@);
    }
    write_indent(out, ind);
    out.append("}");
}

fn write_sel(out: &mut String, s: &Selection, ind: usize)
    ensures
        final(out)@ == old(out)@ + fmt_sel(*s, ind as nat),
    decreases s, 0int,
{
    match s {
        Selection::Field(f) => {
            match &f.alias {
                Option::Some(a) => {
                    out.append(a.as_str());
                    out.append(": ");
                },
                Option::None => {},
            }
            out.append(f.name.as_str());
            write_args(out, &f.arguments);
            write_dirs(out, &f.directives);
            match &f.selection_set {
                Option::Some(inner) => {
                    out.append(" ");
                    proof {
                        assert(decreases_to!(*s => f.selection_set->0));
                    }
                    write_selset(out, inner, ind);
                },
                Option::None => {},
            }
        },
        Selection::FragmentSpread(sp) => {
            out.append("...");
            out.append(sp.name.as_str());
            write_dirs(out, &sp.directives);
        },
        Selection::InlineFragment(inl) => {
            out.append("...");
            match &inl.on_type {
                Option::Some(t) => {
                    out.append(" on ");
                    out.append(t.as_str());
                },
                Option::None => {},
            }
            write_dirs(out, &inl.directives);
            out.append(" ");
            proof {
                assert(decreases_to!(*s => inl.selection_set));
            }
            write_selset(out, &inl.selection_set, ind);
        },
    }
}

fn write_vardef(out: &mut String, v: &VariableDefinition)
    ensures
        final(out)@ == old(out)@ + fmt_vardef(*v),
{
    out.append("$");
    out.append(v.name.as_str());
    out.append(": ");
    write_type(out, &v.var_type);
    match &v.default_value {
        Option::Some(d) => {
            out.append(" = ");
            write_value(out, d);
        },
        Option::None => {},
    }
    write_dirs(out, &v.directives);
}

fn write_vardefs(out: &mut String, defs: &Vec<VariableDefinition>)
    ensures
        final(out)@ == old(out)@ + fmt_vardefs(defs@),
{
    if defs.len() == 0 {
        return ;
    }
    out.append("(");
    let ghost base = out@;
    let mut i: usize = 0;
    while i < defs.len()
        invariant
            i <= defs@.len(),
            out@ == base + fmt_vardefs_list(defs@.take(i as int)),
        decreases defs@.len() - i,
    {
        if i > 0 {
            out.append(", ");
        }
        write_vardef(out, &defs[i]);
        proof {
            assert(defs@.take(i + 1).drop_last() =~= defs@.take(i as int));
            assert(defs@.take(i + 1).last() == defs@[i as int]);
            if i == 0 {
                assert(defs@.take(1)[0] == defs@[0]);
            }
        }
        i = i + 1;
    }
    proof {
        assert(defs@.take(defs@.len() as int) =~= defs@);
    }
    out.append(")");
}

fn write_operation(out: &mut String, o: &OperationDefinition)
    ensures
        final(out)@ == old(out)@ + fmt_operation(*o),
{
    let bare = match o.op_type {
        OperationType::Query => o.name.is_none() && o.variable_definitions.len() == 0
            && o.directives.len() == 0,
        _ => false,
    };
    if bare {
        write_selset(out, &o.selection_set, 0);
    } else {
        write_op_type(out, &o.op_type);
        match &o.name {
            Option::Some(n) => {
                out.append(" ");
                out.append(n.as_str());
            },
            Option::None => {},
        }
        write_vardefs(out, &o.variable_definitions);
        write_dirs(out, &o.directives);
        out.append(" ");
        write_selset(out, &o.selection_set, 0);
    }
}

fn write_fragment(out: &mut String, f: &FragmentDefinition)
    ensures
        final(out)@ == old(out)@ + fmt_fragment(*f),
{
    out.append("fragment ");
    out.append(f.name.as_str());
    out.append(" on ");
    out.append(f.on_type.as_str());
    write_dirs(out, &f.directives);
    out.append(" ");
    write_selset(out, &f.selection_set, 0);
}

fn write_def(out: &mut String, d: &Definition)
    ensures
        final(out)@ == old(out)@ + fmt_def(*d),
{
    match d {
        Definition::Operation(o) => write_operation(out, o),
        Definition::Fragment(f) => write_fragment(out, f),
    }
}

/// Renders a document into its canonical text, exactly `fmt_doc`.
pub fn format_document(doc: &Document) -> (r: String)
    ensures
        r@ == fmt_doc(*doc),
{
    let mut out = String::new();
    let defs = &doc.definitions;
    let mut i: usize = 0;
    while i < defs.len()
        invariant
            i <= defs@.len(),
            out@ == fmt_defs(defs@.take(i as int)),
        decreases defs@.len() - i,
    {
        write_def(&mut out, &defs[i]);
        out.append("\n");
        proof {
            assert(defs@.take(i + 1).drop_last() =~= defs@.take(i as int));
            assert(defs@.take(i + 1).last() == defs@[i as int]);
        }
        i = i + 1;
    }
    proof {
        assert(defs@.take(defs@.len() as int) =~= defs@);
    }
    out
}

} // verus!
