use vstd::prelude::*;

verus! {

/// The types of the language.
#[derive(Debug)]
pub enum Type {
    Primitive(PrimitiveType),
    Func(FunctionType),
    Struct(StructType),
    Void,
    Unknown,
}

#[derive(Debug)]
pub enum PrimitiveType {
    Int,
    Float,
    String,
    Bool,
    Array(Box<Type>, Option<u32>),
}

/// A declared (and not yet lowered) record type.
#[derive(Debug, PartialEq)]
pub struct StructType {
    pub name: String,
    pub contents: Vec<(String, Box<Type>)>,
}

/// Parameter types and an optional return type (none means void).
#[derive(Debug)]
pub struct FunctionType {
    pub ret: Option<Box<Type>>,
    pub params: Vec<Box<Type>>,
}

/// The mathematical value of a type: structural, with sequences in place of vectors.
pub enum TypeView {
    Int,
    Float,
    String,
    Bool,
    Array(Box<TypeView>, Option<u32>),
    Func(Seq<TypeView>, Option<Box<TypeView>>),
    Struct(Seq<char>, Seq<(Seq<char>, TypeView)>),
    Void,
    Unknown,
}

pub open spec fn type_view(t: Type) -> TypeView
    decreases t,
{
    match t {
        Type::Primitive(p) => prim_view(p),
        Type::Func(f) => fn_view(f),
        Type::Struct(s) => TypeView::Struct(s.name@, fields_view(s.contents@)),
        Type::Void => TypeView::Void,
        Type::Unknown => TypeView::Unknown,
    }
}

pub open spec fn prim_view(p: PrimitiveType) -> TypeView
    decreases p,
{
    match p {
        PrimitiveType::Int => TypeView::Int,
        PrimitiveType::Float => TypeView::Float,
        PrimitiveType::String => TypeView::String,
        PrimitiveType::Bool => TypeView::Bool,
        PrimitiveType::Array(e, n) => TypeView::Array(Box::new(type_view(*e)), n),
    }
}

pub open spec fn fn_view(f: FunctionType) -> TypeView
    decreases f,
{
    TypeView::Func(
        params_view(f.params@),
        match f.ret {
            Some(r) => Some(Box::new(type_view(*r))),
            None => None,
        },
    )
}

pub open spec fn params_view(s: Seq<Box<Type>>) -> Seq<TypeView>
    decreases s,
{
    if s.len() == 0 {
        seq![]
    } else {
        params_view(s.drop_last()).push(type_view(*s.last()))
    }
}

pub open spec fn fields_view(s: Seq<(String, Box<Type>)>) -> Seq<(Seq<char>, TypeView)>
    decreases s,
{
    if s.len() == 0 {
        seq![]
    } else {
        fields_view(s.drop_last()).push((s.last().0@, type_view(*s.last().1)))
    }
}

impl View for Type {
    type V = TypeView;

    open spec fn view(&self) -> TypeView {
        type_view(*self)
    }
}

impl View for PrimitiveType {
    type V = TypeView;

    open spec fn view(&self) -> TypeView {
        prim_view(*self)
    }
}

impl View for FunctionType {
    type V = TypeView;

    open spec fn view(&self) -> TypeView {
        fn_view(*self)
    }
}

/// Every element of the view of a parameter list is the view of that parameter.
pub proof fn lemma_params_view(s: Seq<Box<Type>>)
    ensures
        params_view(s).len() == s.len(),
        forall|i: int| 0 <= i < s.len() ==> #[trigger] params_view(s)[i] == type_view(*s[i]),
    decreases s.len(),
{
    if s.len() > 0 {
        lemma_params_view(s.drop_last());
    }
}

/// Every element of the view of a field list is the view of that field.
pub proof fn lemma_fields_view(s: Seq<(String, Box<Type>)>)
    ensures
        fields_view(s).len() == s.len(),
        forall|i: int|
            0 <= i < s.len() ==> #[trigger] fields_view(s)[i] == (s[i].0@, type_view(*s[i].1)),
    decreases s.len(),
{
    if s.len() > 0 {
        lemma_fields_view(s.drop_last());
    }
}

/// Structural equality of two types.
pub fn type_eq(a: &Type, b: &Type) -> (r: bool)
    ensures
        r == (a@ == b@),
    decreases a,
{
    match (a, b) {
        (Type::Primitive(p), Type::Primitive(q)) => prim_eq(p, q),
        (Type::Func(f), Type::Func(g)) => fn_type_eq(f, g),
        (Type::Struct(s), Type::Struct(t)) => {
            if s.name != t.name || s.contents.len() != t.contents.len() {
                proof {
                    lemma_fields_view(s.contents@);
                    lemma_fields_view(t.contents@);
                }
                return false;
            }
            fields_eq(&s.contents, &t.contents)
        },
        (Type::Void, Type::Void) => true,
        (Type::Unknown, Type::Unknown) => true,
        _ => {
            false
        },
    }
}

fn prim_eq(a: &PrimitiveType, b: &PrimitiveType) -> (r: bool)
    ensures
        r == (a@ == b@),
    decreases a,
{
    match (a, b) {
        (PrimitiveType::Int, PrimitiveType::Int) => true,
        (PrimitiveType::Float, PrimitiveType::Float) => true,
        (PrimitiveType::String, PrimitiveType::String) => true,
        (PrimitiveType::Bool, PrimitiveType::Bool) => true,
        (PrimitiveType::Array(x, n), PrimitiveType::Array(y, m)) => {
            let same_len = match (n, m) {
                (Some(i), Some(j)) => *i == *j,
                (None, None) => true,
                _ => false,
            };
            same_len && type_eq(x, y)
        },
        _ => false,
    }
}

fn fn_type_eq(a: &FunctionType, b: &FunctionType) -> (r: bool)
    ensures
        r == (a@ == b@),
    decreases a,
{
    proof {
        lemma_params_view(a.params@);
        lemma_params_view(b.params@);
    }
    let same_ret = match (&a.ret, &b.ret) {
        (Some(x), Some(y)) => type_eq(x, y),
        (None, None) => true,
        _ => false,
    };
    if !same_ret {
        return false;
    }
    if a.params.len() != b.params.len() {
        return false;
    }
    let same = params_eq(&a.params, &b.params);
    proof {
        if same {
            assert(params_view(a.params@) =~= params_view(b.params@));
        } else {
            let k = choose|k: int| 0 <= k < a.params.len() && type_view(*a.params@[k]) != type_view(*b.params@[k]);
            assert(params_view(a.params@)[k] != params_view(b.params@)[k]);
        }
    }
    same
}

fn params_eq(a: &Vec<Box<Type>>, b: &Vec<Box<Type>>) -> (r: bool)
    requires
        a.len() == b.len(),
    ensures
        r == forall|k: int| 0 <= k < a.len() ==> type_view(*a@[k]) == type_view(*b@[k]),
    decreases a,
{
    let mut i: usize = 0;
    while i < a.len()
        invariant
            a.len() == b.len(),
            i <= a.len(),
            forall|k: int| 0 <= k < i ==> type_view(*a@[k]) == type_view(*b@[k]),
        decreases a.len() - i,
    {
        if !type_eq(&a[i], &b[i]) {
            return false;
        }
        i = i + 1;
    }
    true
}

fn fields_eq(a: &Vec<(String, Box<Type>)>, b: &Vec<(String, Box<Type>)>) -> (r: bool)
    requires
        a.len() == b.len(),
    ensures
        r == (fields_view(a@) == fields_view(b@)),
    decreases a,
{
    proof {
        lemma_fields_view(a@);
        lemma_fields_view(b@);
    }
    let mut i: usize = 0;
    while i < a.len()
        invariant
            a.len() == b.len(),
            i <= a.len(),
            fields_view(a@).len() == a.len(),
            fields_view(b@).len() == b.len(),
            forall|k: int| 0 <= k < a.len() ==> #[trigger] fields_view(a@)[k] == (a@[k].0@, type_view(*a@[k].1)),
            forall|k: int| 0 <= k < b.len() ==> #[trigger] fields_view(b@)[k] == (b@[k].0@, type_view(*b@[k].1)),
            forall|k: int| 0 <= k < i ==> fields_view(a@)[k] == fields_view(b@)[k],
        decreases a.len() - i,
    {
        if a[i].0 != b[i].0 || !type_eq(&a[i].1, &b[i].1) {
            assert(fields_view(a@)[i as int] != fields_view(b@)[i as int]);
            return false;
        }
        i = i + 1;
    }
    assert(fields_view(a@) =~= fields_view(b@));
    true
}

/// A copy of a type with the same structure.
pub fn clone_type(t: &Type) -> (r: Type)
    ensures
        r@ == t@,
    decreases t,
{
    match t {
        Type::Primitive(p) => Type::Primitive(clone_prim(p)),
        Type::Func(f) => Type::Func(clone_fn_type(f)),
        Type::Struct(s) => {
            let contents = clone_fields(&s.contents);
            Type::Struct(StructType { name: s.name.clone(), contents })
        },
        Type::Void => Type::Void,
        Type::Unknown => Type::Unknown,
    }
}

fn clone_prim(p: &PrimitiveType) -> (r: PrimitiveType)
    ensures
        r@ == p@,
    decreases p,
{
    match p {
        PrimitiveType::Int => PrimitiveType::Int,
        PrimitiveType::Float => PrimitiveType::Float,
        PrimitiveType::String => PrimitiveType::String,
        PrimitiveType::Bool => PrimitiveType::Bool,
        PrimitiveType::Array(e, n) => {
            let n2 = match n {
                Some(k) => Some(*k),
                None => None,
            };
            PrimitiveType::Array(Box::new(clone_type(e)), n2)
        },
    }
}

fn clone_fn_type(f: &FunctionType) -> (r: FunctionType)
    ensures
        r@ == f@,
    decreases f,
{
    let ret = match &f.ret {
        Some(t) => Some(Box::new(clone_type(t))),
        None => None,
    };
    let params = clone_params(&f.params);
    FunctionType { ret, params }
}

fn clone_params(v: &Vec<Box<Type>>) -> (r: Vec<Box<Type>>)
    ensures
        params_view(r@) == params_view(v@),
    decreases v,
{
    let mut out: Vec<Box<Type>> = Vec::new();
    let mut i: usize = 0;
    while i < v.len()
        invariant
            i <= v.len(),
            out.len() == i,
            params_view(out@) == params_view(v@.subrange(0, i as int)),
        decreases v.len() - i,
    {
        let t = clone_type(&v[i]);
        let ghost prev = out@;
        out.push(Box::new(t));
        proof {
            assert(out@.drop_last() =~= prev);
            assert(v@.subrange(0, i + 1).drop_last() =~= v@.subrange(0, i as int));
        }
        i = i + 1;
    }
    assert(v@.subrange(0, v.len() as int) =~= v@);
    out
}

fn clone_fields(v: &Vec<(String, Box<Type>)>) -> (r: Vec<(String, Box<Type>)>)
    ensures
        fields_view(r@) == fields_view(v@),
    decreases v,
{
    let mut out: Vec<(String, Box<Type>)> = Vec::new();
    let mut i: usize = 0;
    while i < v.len()
        invariant
            i <= v.len(),
            out.len() == i,
            fields_view(out@) == fields_view(v@.subrange(0, i as int)),
        decreases v.len() - i,
    {
        let t = clone_type(&v[i].1);
        let name = v[i].0.clone();
        let ghost prev = out@;
        out.push((name, Box::new(t)));
        proof {
            assert(out@.drop_last() =~= prev);
            assert(v@.subrange(0, i + 1).drop_last() =~= v@.subrange(0, i as int));
        }
        i = i + 1;
    }
    assert(v@.subrange(0, v.len() as int) =~= v@);
    out
}

impl Clone for Type {
    fn clone(&self) -> (r: Self)
        ensures
            r@ == self@,
    {
        clone_type(self)
    }
}

impl Clone for PrimitiveType {
    fn clone(&self) -> (r: Self)
        ensures
            r@ == self@,
    {
        clone_prim(self)
    }
}

impl Clone for FunctionType {
    fn clone(&self) -> (r: Self)
        ensures
            r@ == self@,
    {
        clone_fn_type(self)
    }
}

impl PartialEq for Type {
    fn eq(&self, o: &Type) -> (r: bool) {
        type_eq(self, o)
    }
}

impl vstd::std_specs::cmp::PartialEqSpecImpl for Type {
    open spec fn obeys_eq_spec() -> bool {
        true
    }

    open spec fn eq_spec(&self, o: &Type) -> bool {
        self@ == o@
    }
}

impl PartialEq for PrimitiveType {
    fn eq(&self, o: &PrimitiveType) -> (r: bool) {
        prim_eq(self, o)
    }
}

impl vstd::std_specs::cmp::PartialEqSpecImpl for PrimitiveType {
    open spec fn obeys_eq_spec() -> bool {
        true
    }

    open spec fn eq_spec(&self, o: &PrimitiveType) -> bool {
        self@ == o@
    }
}

impl PartialEq for FunctionType {
    fn eq(&self, o: &FunctionType) -> (r: bool) {
        fn_type_eq(self, o)
    }
}

impl vstd::std_specs::cmp::PartialEqSpecImpl for FunctionType {
    open spec fn obeys_eq_spec() -> bool {
        true
    }

    open spec fn eq_spec(&self, o: &FunctionType) -> bool {
        self@ == o@
    }
}

impl FunctionType {
    /// A signature from its return type and parameter types.
    pub fn new(ret: Option<Box<Type>>, params: Vec<Box<Type>>) -> (r: Self)
        ensures
            r.ret == ret,
            r.params == params,
    {
        Self { ret, params }
    }
}

} // verus!
