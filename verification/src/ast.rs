//! Abstract syntax tree for GraphQL executable documents: operations and
//! fragments with their selection sets, arguments, directives and values.
use vstd::prelude::*;
use crate::Location;

verus! {

#[derive(Clone, Copy, PartialEq, Eq, Structural, Debug)]
pub enum OperationType {
    Query,
    Mutation,
    Subscription,
}

/// The root of a parsed executable document: an ordered sequence of
/// operation and fragment definitions.
#[derive(Debug)]
pub struct Document {
    pub definitions: Vec<Definition>,
}

#[derive(Debug)]
pub enum Definition {
    Operation(OperationDefinition),
    Fragment(FragmentDefinition),
}

#[derive(Debug)]
pub struct OperationDefinition {
    pub op_type: OperationType,
    pub name: Option<String>,
    pub variable_definitions: Vec<VariableDefinition>,
    pub directives: Vec<Directive>,
    pub selection_set: Vec<Selection>,
    pub position: Location,
}

#[derive(Debug)]
pub struct VariableDefinition {
    /// The variable name, without the leading `$`.
    pub name: String,
    pub var_type: TypeRef,
    pub default_value: Option<Value>,
    pub directives: Vec<Directive>,
    pub position: Location,
}

#[derive(Debug)]
pub enum TypeRef {
    Named(String),
    List(Box<TypeRef>),
    NonNull(Box<TypeRef>),
}

#[derive(Debug)]
pub struct FragmentDefinition {
    pub name: String,
    pub on_type: String,
    pub directives: Vec<Directive>,
    pub selection_set: Vec<Selection>,
    pub position: Location,
}

#[derive(Debug)]
pub enum Selection {
    Field(Field),
    FragmentSpread(FragmentSpread),
    InlineFragment(InlineFragment),
}

#[derive(Debug)]
pub struct Field {
    pub alias: Option<String>,
    pub name: String,
    pub arguments: Vec<Argument>,
    pub directives: Vec<Directive>,
    pub selection_set: Option<Vec<Selection>>,
    pub position: Location,
}

#[derive(Debug)]
pub struct Argument {
    pub name: String,
    pub value: Value,
    pub position: Location,
}

#[derive(Debug)]
pub struct FragmentSpread {
    pub name: String,
    pub directives: Vec<Directive>,
    pub position: Location,
}

#[derive(Debug)]
pub struct InlineFragment {
    pub on_type: Option<String>,
    pub directives: Vec<Directive>,
    pub selection_set: Vec<Selection>,
    pub position: Location,
}

#[derive(Debug)]
pub struct Directive {
    pub name: String,
    pub arguments: Vec<Argument>,
    pub position: Location,
}

#[derive(Debug)]
pub enum Value {
    /// A variable use, with its source position; the name is stored without
    /// the leading `$`.
    Variable(String, Location),
    /// Integer literals keep their source spelling.
    IntValue(String),
    /// Float literals keep their source spelling.
    FloatValue(String),
    /// String literals keep their raw source spelling, quotes included.
    StringValue(String),
    BooleanValue(bool),
    NullValue,
    EnumValue(String),
    ListValue(Vec<Value>),
    ObjectValue(Vec<ObjectField>),
}

#[derive(Debug)]
pub struct ObjectField {
    pub name: String,
    pub value: Value,
}

/// A selection is grammatical when every selection set in it is non-empty.
pub open spec fn wf_sel(s: Selection) -> bool
    decreases s, 2int,
{
    match s {
        Selection::Field(f) => match f.selection_set {
            Option::None => true,
            Option::Some(ss) => wf_selection_set(ss@),
        },
        Selection::FragmentSpread(_) => true,
        Selection::InlineFragment(i) => wf_selection_set(i.selection_set@),
    }
}

pub open spec fn wf_sel_list(s: Seq<Selection>) -> bool
    decreases s, 0int,
{
    if s.len() == 0 {
        true
    } else {
        wf_sel(s[0]) && wf_sel_list(s.drop_first())
    }
}

/// A grammatical selection set holds at least one selection.
pub open spec fn wf_selection_set(s: Seq<Selection>) -> bool
    decreases s, 1int,
{
    s.len() > 0 && wf_sel_list(s)
}

pub open spec fn wf_definition(d: Definition) -> bool {
    match d {
        Definition::Operation(o) => wf_selection_set(o.selection_set@),
        Definition::Fragment(f) => wf_selection_set(f.selection_set@),
    }
}

pub open spec fn wf_def_list(s: Seq<Definition>) -> bool
    decreases s,
{
    if s.len() == 0 {
        true
    } else {
        wf_definition(s[0]) && wf_def_list(s.drop_first())
    }
}

/// A grammatical document: at least one definition, each with non-empty
/// selection sets throughout.
pub open spec fn wf_document(d: Document) -> bool {
    d.definitions@.len() > 0 && wf_def_list(d.definitions@)
}

pub proof fn lemma_wf_sel_list_push(s: Seq<Selection>, x: Selection)
    ensures
        wf_sel_list(s.push(x)) == (wf_sel_list(s) && wf_sel(x)),
    decreases s,
{
    let p = s.push(x);
    assert(p.len() == s.len() + 1);
    if s.len() == 0 {
        assert(p.drop_first() =~= Seq::<Selection>::empty());
        assert(p[0] == x);
        assert(wf_sel_list(p) == (wf_sel(p[0]) && wf_sel_list(p.drop_first())));
    } else {
        assert(p.drop_first() =~= s.drop_first().push(x));
        assert(p[0] == s[0]);
        lemma_wf_sel_list_push(s.drop_first(), x);
        assert(wf_sel_list(p) == (wf_sel(p[0]) && wf_sel_list(p.drop_first())));
        assert(wf_sel_list(s) == (wf_sel(s[0]) && wf_sel_list(s.drop_first())));
    }
}

pub proof fn lemma_wf_def_list_push(s: Seq<Definition>, x: Definition)
    ensures
        wf_def_list(s.push(x)) == (wf_def_list(s) && wf_definition(x)),
    decreases s,
{
    let p = s.push(x);
    assert(p.len() == s.len() + 1);
    if s.len() == 0 {
        assert(p.drop_first() =~= Seq::<Definition>::empty());
        assert(p[0] == x);
        assert(wf_def_list(p) == (wf_definition(p[0]) && wf_def_list(p.drop_first())));
    } else {
        assert(p.drop_first() =~= s.drop_first().push(x));
        assert(p[0] == s[0]);
        lemma_wf_def_list_push(s.drop_first(), x);
        assert(wf_def_list(p) == (wf_definition(p[0]) && wf_def_list(p.drop_first())));
        assert(wf_def_list(s) == (wf_definition(s[0]) && wf_def_list(s.drop_first())));
    }
}


/// Spec-level images of the AST: the same shapes over mathematical
/// sequences, so that a spec-level parser can speak of parsed documents.
pub ghost struct DocV {
    pub defs: Seq<DefV>,
}

pub ghost enum DefV {
    Op(OpV),
    Frag(FragV),
}

pub ghost struct OpV {
    pub op_type: OperationType,
    pub name: Option<Seq<char>>,
    pub vardefs: Seq<VarDefV>,
    pub dirs: Seq<DirV>,
    pub sels: Seq<SelV>,
    pub pos: Location,
}

pub ghost struct VarDefV {
    pub name: Seq<char>,
    pub ty: TyV,
    pub default: Option<ValV>,
    pub dirs: Seq<DirV>,
    pub pos: Location,
}

pub ghost enum TyV {
    Named(Seq<char>),
    List(Box<TyV>),
    NonNull(Box<TyV>),
}

pub ghost struct FragV {
    pub name: Seq<char>,
    pub on_type: Seq<char>,
    pub dirs: Seq<DirV>,
    pub sels: Seq<SelV>,
    pub pos: Location,
}

pub ghost enum SelV {
    Field(FieldV),
    Spread(SpreadV),
    Inline(InlineV),
}

pub ghost struct FieldV {
    pub alias: Option<Seq<char>>,
    pub name: Seq<char>,
    pub args: Seq<ArgV>,
    pub dirs: Seq<DirV>,
    pub sels: Option<Seq<SelV>>,
    pub pos: Location,
}

pub ghost struct ArgV {
    pub name: Seq<char>,
    pub value: ValV,
    pub pos: Location,
}

pub ghost struct SpreadV {
    pub name: Seq<char>,
    pub dirs: Seq<DirV>,
    pub pos: Location,
}

pub ghost struct InlineV {
    pub on_type: Option<Seq<char>>,
    pub dirs: Seq<DirV>,
    pub sels: Seq<SelV>,
    pub pos: Location,
}

pub ghost struct DirV {
    pub name: Seq<char>,
    pub args: Seq<ArgV>,
    pub pos: Location,
}

pub ghost enum ValV {
    Var(Seq<char>, Location),
    IntV(Seq<char>),
    FloatV(Seq<char>),
    StrV(Seq<char>),
    BoolV(bool),
    NullV,
    EnumV(Seq<char>),
    ListV(Seq<ValV>),
    ObjV(Seq<ObjFieldV>),
}

pub ghost struct ObjFieldV {
    pub name: Seq<char>,
    pub value: ValV,
}

pub open spec fn dv_ty(t: TypeRef) -> TyV
    decreases t,
{
    match t {
        TypeRef::Named(n) => TyV::Named(n@),
        TypeRef::List(i) => TyV::List(Box::new(dv_ty(*i))),
        TypeRef::NonNull(i) => TyV::NonNull(Box::new(dv_ty(*i))),
    }
}

pub open spec fn dv_val(v: Value) -> ValV
    decreases v,
{
    match v {
        Value::Variable(n, l) => ValV::Var(n@, l),
        Value::IntValue(t) => ValV::IntV(t@),
        Value::FloatValue(t) => ValV::FloatV(t@),
        Value::StringValue(t) => ValV::StrV(t@),
        Value::BooleanValue(b) => ValV::BoolV(b),
        Value::NullValue => ValV::NullV,
        Value::EnumValue(n) => ValV::EnumV(n@),
        Value::ListValue(items) => ValV::ListV(dv_vals(items@)),
        Value::ObjectValue(fields) => ValV::ObjV(dv_objs(fields@)),
    }
}

pub open spec fn dv_vals(s: Seq<Value>) -> Seq<ValV>
    decreases s,
{
    if s.len() == 0 {
        Seq::empty()
    } else {
        dv_vals(s.drop_last()).push(dv_val(s.last()))
    }
}

pub open spec fn dv_objs(s: Seq<ObjectField>) -> Seq<ObjFieldV>
    decreases s,
{
    if s.len() == 0 {
        Seq::empty()
    } else {
        dv_objs(s.drop_last()).push(ObjFieldV { name: s.last().name@, value: dv_val(s.last().value) })
    }
}

pub open spec fn dv_arg(a: Argument) -> ArgV {
    ArgV { name: a.name@, value: dv_val(a.value), pos: a.position }
}

pub open spec fn dv_args(s: Seq<Argument>) -> Seq<ArgV>
    decreases s,
{
    if s.len() == 0 {
        Seq::empty()
    } else {
        dv_args(s.drop_last()).push(dv_arg(s.last()))
    }
}

pub open spec fn dv_dir(d: Directive) -> DirV {
    DirV { name: d.name@, args: dv_args(d.arguments@), pos: d.position }
}

pub open spec fn dv_dirs(s: Seq<Directive>) -> Seq<DirV>
    decreases s,
{
    if s.len() == 0 {
        Seq::empty()
    } else {
        dv_dirs(s.drop_last()).push(dv_dir(s.last()))
    }
}

pub open spec fn dv_opt_str(o: Option<String>) -> Option<Seq<char>> {
    match o {
        Option::Some(s) => Option::Some(s@),
        Option::None => Option::None,
    }
}

pub open spec fn dv_sel(s: Selection) -> SelV
    decreases s,
{
    match s {
        Selection::Field(f) => SelV::Field(
            FieldV {
                alias: dv_opt_str(f.alias),
                name: f.name@,
                args: dv_args(f.arguments@),
                dirs: dv_dirs(f.directives@),
                sels: match f.selection_set {
                    Option::Some(ss) => Option::Some(dv_sels(ss@)),
                    Option::None => Option::None,
                },
                pos: f.position,
            },
        ),
        Selection::FragmentSpread(sp) => SelV::Spread(
            SpreadV { name: sp.name@, dirs: dv_dirs(sp.directives@), pos: sp.position },
        ),
        Selection::InlineFragment(inl) => SelV::Inline(
            InlineV {
                on_type: dv_opt_str(inl.on_type),
                dirs: dv_dirs(inl.directives@),
                sels: dv_sels(inl.selection_set@),
                pos: inl.position,
            },
        ),
    }
}

pub open spec fn dv_sels(s: Seq<Selection>) -> Seq<SelV>
    decreases s,
{
    if s.len() == 0 {
        Seq::empty()
    } else {
        dv_sels(s.drop_last()).push(dv_sel(s.last()))
    }
}

pub open spec fn dv_vardef(v: VariableDefinition) -> VarDefV {
    VarDefV {
        name: v.name@,
        ty: dv_ty(v.var_type),
        default: match v.default_value {
            Option::Some(d) => Option::Some(dv_val(d)),
            Option::None => Option::None,
        },
        dirs: dv_dirs(v.directives@),
        pos: v.position,
    }
}

pub open spec fn dv_vardefs(s: Seq<VariableDefinition>) -> Seq<VarDefV>
    decreases s,
{
    if s.len() == 0 {
        Seq::empty()
    } else {
        dv_vardefs(s.drop_last()).push(dv_vardef(s.last()))
    }
}

pub open spec fn dv_def(d: Definition) -> DefV {
    match d {
        Definition::Operation(o) => DefV::Op(
            OpV {
                op_type: o.op_type,
                name: dv_opt_str(o.name),
                vardefs: dv_vardefs(o.variable_definitions@),
                dirs: dv_dirs(o.directives@),
                sels: dv_sels(o.selection_set@),
                pos: o.position,
            },
        ),
        Definition::Fragment(f) => DefV::Frag(
            FragV {
                name: f.name@,
                on_type: f.on_type@,
                dirs: dv_dirs(f.directives@),
                sels: dv_sels(f.selection_set@),
                pos: f.position,
            },
        ),
    }
}

pub open spec fn dv_defs(s: Seq<Definition>) -> Seq<DefV>
    decreases s,
{
    if s.len() == 0 {
        Seq::empty()
    } else {
        dv_defs(s.drop_last()).push(dv_def(s.last()))
    }
}

pub open spec fn dv_doc(d: Document) -> DocV {
    DocV { defs: dv_defs(d.definitions@) }
}

} // verus!
