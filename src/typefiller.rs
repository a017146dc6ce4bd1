use crate::nodes::{Expression, FunctionCall, Literal, Statement, TopLevel};
use crate::types::{clone_type, lemma_params_view, params_view, type_eq, FunctionType, PrimitiveType, Type, TypeView};
use vstd::prelude::*;

verus! {

/// The first rule of the type pass that a program breaks, with the name
/// concerned where there is one.
#[derive(Debug, Clone, PartialEq, Eq)]
pub enum TypeFault {
    DuplicateDeclaration(String),
    UnknownVariable(String),
    UnknownFunction(String),
    /// A call with another number of arguments than its callee has parameters,
    /// or a function with another number of parameter names than types.
    Arity(String),
    TypeMismatch,
    ReturnTypeMismatch,
}

/// Names bound to types: a variable scope, or the signature table.
pub type Env = Seq<(Seq<char>, TypeView)>;

/// The type bound to `name`; the latest binding counts.
pub open spec fn lookup(env: Env, name: Seq<char>) -> Option<TypeView>
    decreases env.len(),
{
    if env.len() == 0 {
        None
    } else if env.last().0 == name {
        Some(env.last().1)
    } else {
        lookup(env.drop_last(), name)
    }
}

pub open spec fn entries_view<T: View<V = TypeView>>(v: Seq<(String, T)>) -> Env {
    v.map_values(|p: (String, T)| (p.0@, p.1@))
}

/// A cell may be filled with `t` when it is still unknown or already holds `t`.
pub open spec fn cell_accepts(cell: TypeView, t: TypeView) -> bool {
    cell == t || cell == TypeView::Unknown
}

pub open spec fn is_number(t: TypeView) -> bool {
    t == TypeView::Int || t == TypeView::Float
}

/// The type of an expression under a scope and a signature table, or the first
/// fault found while typing it (operands left to right).
pub open spec fn expr_type(e: Expression, env: Env, sigs: Env) -> Result<TypeView, TypeFault>
    decreases e, 0int,
{
    match e {
        Expression::Literal(l) => match l {
            Literal::Int(_) => Ok(TypeView::Int),
            Literal::Float(_) => Ok(TypeView::Float),
            Literal::String(_) => Ok(TypeView::String),
            Literal::Bool(_) => Ok(TypeView::Bool),
            Literal::Array(elems, cell) => match elems_type(elems@, 0, TypeView::Unknown, env, sigs) {
                Ok(t) => if cell_accepts(cell@, t) {
                    Ok(TypeView::Array(Box::new(t), Some(elems@.len() as u32)))
                } else {
                    Err(TypeFault::TypeMismatch)
                },
                Err(f) => Err(f),
            },
        },
        Expression::Variable(name, cell) => match lookup(env, name@) {
            None => Err(TypeFault::UnknownVariable(name)),
            Some(t) => if cell_accepts(cell@, t) {
                Ok(t)
            } else {
                Err(TypeFault::TypeMismatch)
            },
        },
        Expression::FnCall(c) => match lookup(sigs, c.name@) {
            Some(TypeView::Func(params, ret)) => if c.args@.len() != params.len() {
                Err(TypeFault::Arity(c.name))
            } else {
                match args_check(c.args@, params, 0, env, sigs) {
                    Ok(_) => Ok(
                        match ret {
                            Some(t) => *t,
                            None => TypeView::Void,
                        },
                    ),
                    Err(f) => Err(f),
                }
            },
            _ => Err(TypeFault::UnknownFunction(c.name)),
        },
        Expression::UnaryExpr(_, x, cell) => match expr_type(*x, env, sigs) {
            Ok(t) => if is_number(t) && cell_accepts(cell@, t) {
                Ok(t)
            } else {
                Err(TypeFault::TypeMismatch)
            },
            Err(f) => Err(f),
        },
        Expression::BinExpr(op, l, r, cell) => match expr_type(*l, env, sigs) {
            Ok(lt) => match expr_type(*r, env, sigs) {
                Ok(rt) => {
                    let res = if op.spec_is_arithmetic() {
                        lt
                    } else {
                        TypeView::Bool
                    };
                    if lt != rt || (op.spec_is_ordering() && !is_number(lt)) || !cell_accepts(
                        cell@,
                        res,
                    ) {
                        Err(TypeFault::TypeMismatch)
                    } else {
                        Ok(res)
                    }
                },
                Err(f) => Err(f),
            },
            Err(f) => Err(f),
        },
    }
}

/// Arguments `i..` checked in order against the parameter types.
pub open spec fn args_check(
    args: Seq<Expression>,
    params: Seq<TypeView>,
    i: int,
    env: Env,
    sigs: Env,
) -> Result<(), TypeFault>
    decreases args, args.len() - i,
{
    if i < 0 || i >= args.len() {
        Ok(())
    } else {
        match expr_type(args[i], env, sigs) {
            Ok(t) => if i < params.len() && t == params[i] {
                args_check(args, params, i + 1, env, sigs)
            } else {
                Err(TypeFault::TypeMismatch)
            },
            Err(f) => Err(f),
        }
    }
}

/// The element type of an array literal: that of its first element, which
/// every later element must share (`Unknown` when there is none).
pub open spec fn elems_type(
    elems: Seq<Expression>,
    i: int,
    first: TypeView,
    env: Env,
    sigs: Env,
) -> Result<TypeView, TypeFault>
    decreases elems, elems.len() - i,
{
    if i < 0 || i >= elems.len() {
        Ok(first)
    } else {
        match expr_type(elems[i], env, sigs) {
            Ok(t) => if i == 0 {
                elems_type(elems, i + 1, t, env, sigs)
            } else if t == first {
                elems_type(elems, i + 1, first, env, sigs)
            } else {
                Err(TypeFault::TypeMismatch)
            },
            Err(f) => Err(f),
        }
    }
}

/// `n` is `o` with every type cell holding the type of its node.
pub open spec fn filled(o: Expression, n: Expression, env: Env, sigs: Env) -> bool
    decreases o, 0int,
{
    match o {
        Expression::BinExpr(op, l, r, _) => {
            &&& n matches Expression::BinExpr(op2, l2, r2, c2)
            &&& op2 == op
            &&& filled(*l, *l2, env, sigs)
            &&& filled(*r, *r2, env, sigs)
            &&& c2@ == expr_type(o, env, sigs)->Ok_0
        },
        Expression::UnaryExpr(op, x, _) => {
            &&& n matches Expression::UnaryExpr(op2, x2, c2)
            &&& op2 == op
            &&& filled(*x, *x2, env, sigs)
            &&& c2@ == expr_type(o, env, sigs)->Ok_0
        },
        Expression::Literal(Literal::Array(es, _)) => {
            &&& n matches Expression::Literal(Literal::Array(es2, c2))
            &&& es2@.len() == es@.len()
            &&& all_filled(es@, es2@, 0, env, sigs)
            &&& c2@ == elems_type(es@, 0, TypeView::Unknown, env, sigs)->Ok_0
        },
        Expression::Literal(_) => n == o,
        Expression::FnCall(c) => {
            &&& n matches Expression::FnCall(c2)
            &&& c2.name == c.name
            &&& c2.args@.len() == c.args@.len()
            &&& all_filled(c.args@, c2.args@, 0, env, sigs)
        },
        Expression::Variable(name, _) => {
            &&& n matches Expression::Variable(name2, c2)
            &&& name2 == name
            &&& c2@ == expr_type(o, env, sigs)->Ok_0
        },
    }
}

pub open spec fn all_filled(os: Seq<Expression>, ns: Seq<Expression>, i: int, env: Env, sigs: Env) -> bool
    decreases os, os.len() - i,
{
    if i < 0 || i >= os.len() {
        true
    } else {
        i < ns.len() && filled(os[i], ns[i], env, sigs) && all_filled(os, ns, i + 1, env, sigs)
    }
}

/// Writes `t` into a type cell. An unknown cell takes `t`; a cell that already
/// holds `t` is left as it is; a cell that holds another type is a contradiction.
pub fn replace_type(cell: &mut Type, t: Type) -> (r: Result<(), TypeFault>)
    ensures
        old(cell)@ == t@ ==> r is Ok && *final(cell) == *old(cell),
        old(cell)@ != t@ && old(cell)@ == TypeView::Unknown ==> r is Ok && *final(cell) == t,
        old(cell)@ != t@ && old(cell)@ != TypeView::Unknown ==> r == Err::<(), TypeFault>(
            TypeFault::TypeMismatch,
        ) && *final(cell) == *old(cell),
{
    if type_eq(cell, &t) {
        Ok(())
    } else if matches!(cell, Type::Unknown) {
        *cell = t;
        Ok(())
    } else {
        Err(TypeFault::TypeMismatch)
    }
}

/// The position of the latest entry named `name`, if any.
pub fn find_entry<T: View<V = TypeView>>(entries: &Vec<(String, T)>, name: &String) -> (r: Option<usize>)
    ensures
        match r {
            Some(k) => k < entries.len() && entries@[k as int].0@ == name@ && lookup(
                entries_view(entries@),
                name@,
            ) == Some(entries@[k as int].1@),
            None => lookup(entries_view(entries@), name@) is None,
        },
{
    let ghost ev = entries_view(entries@);
    let mut i: usize = entries.len();
    assert(ev.subrange(0, i as int) =~= ev);
    while i > 0
        invariant
            i <= entries.len(),
            ev == entries_view(entries@),
            lookup(ev, name@) == lookup(ev.subrange(0, i as int), name@),
        decreases i,
    {
        proof {
            assert(ev.subrange(0, i as int).drop_last() =~= ev.subrange(0, i - 1));
        }
        if entries[i - 1].0 == *name {
            return Some(i - 1);
        }
        i = i - 1;
    }
    None
}

fn unknown_cell(t: &Type) -> (r: bool)
    ensures
        r == (t@ == TypeView::Unknown),
{
    let u = Type::Unknown;
    type_eq(t, &u)
}

/// Types an expression and fills its cells in place.
pub fn fill_expr(e: &mut Expression, env: &Vec<(String, Type)>, sigs: &Vec<(String, FunctionType)>) -> (r: Result<Type, TypeFault>)
    ensures
        match expr_type(*old(e), entries_view(env@), entries_view(sigs@)) {
            Ok(t) => r is Ok && r->Ok_0@ == t && filled(*old(e), *final(e), entries_view(env@), entries_view(sigs@)),
            Err(f) => r == Err::<Type, TypeFault>(f),
        },
    decreases *old(e), 0int,
{
    match e {
        Expression::Literal(lit) => match lit {
            Literal::Int(_) => Ok(Type::Primitive(PrimitiveType::Int)),
            Literal::Float(_) => Ok(Type::Primitive(PrimitiveType::Float)),
            Literal::String(_) => Ok(Type::Primitive(PrimitiveType::String)),
            Literal::Bool(_) => Ok(Type::Primitive(PrimitiveType::Bool)),
            Literal::Array(elems, cell) => {
                let first = Type::Unknown;
                let ghost orig = *elems;
                match fill_elems(elems, 0, first, Ghost(orig), env, sigs) {
                    Ok(et) => {
                        let n = elems.len() as u32;
                        match replace_type(cell, clone_type(&et)) {
                            Ok(_) => Ok(Type::Primitive(PrimitiveType::Array(Box::new(et), Some(n)))),
                            Err(f) => Err(f),
                        }
                    },
                    Err(f) => Err(f),
                }
            },
        },
        Expression::Variable(name, cell) => match find_entry(env, name) {
            None => Err(TypeFault::UnknownVariable(name.clone())),
            Some(k) => {
                let t = clone_type(&env[k].1);
                match replace_type(cell, clone_type(&t)) {
                    Ok(_) => Ok(t),
                    Err(f) => Err(f),
                }
            },
        },
        Expression::FnCall(c) => check_call(c, env, sigs),
        Expression::UnaryExpr(_, x, cell) => match fill_expr(x, env, sigs) {
            Ok(t) => {
                let numeric = match &t {
                    Type::Primitive(PrimitiveType::Int) | Type::Primitive(PrimitiveType::Float) => true,
                    _ => false,
                };
                if !numeric {
                    return Err(TypeFault::TypeMismatch);
                }
                match replace_type(cell, clone_type(&t)) {
                    Ok(_) => Ok(t),
                    Err(f) => Err(f),
                }
            },
            Err(f) => Err(f),
        },
        Expression::BinExpr(op, l, r, cell) => {
            let lt = match fill_expr(l, env, sigs) {
                Ok(t) => t,
                Err(f) => return Err(f),
            };
            let rt = match fill_expr(r, env, sigs) {
                Ok(t) => t,
                Err(f) => return Err(f),
            };
            if !type_eq(&lt, &rt) {
                return Err(TypeFault::TypeMismatch);
            }
            let numeric = match &lt {
                Type::Primitive(PrimitiveType::Int) | Type::Primitive(PrimitiveType::Float) => true,
                _ => false,
            };
            if op.is_ordering() && !numeric {
                return Err(TypeFault::TypeMismatch);
            }
            let res = if op.is_arithmetic() {
                lt
            } else {
                Type::Primitive(PrimitiveType::Bool)
            };
            match replace_type(cell, clone_type(&res)) {
                Ok(_) => Ok(res),
                Err(f) => Err(f),
            }
        },
    }
}

/// Types a call and fills the cells of its arguments.
fn check_call(c: &mut FunctionCall, env: &Vec<(String, Type)>, sigs: &Vec<(String, FunctionType)>) -> (r: Result<Type, TypeFault>)
    ensures
        match expr_type(Expression::FnCall(*old(c)), entries_view(env@), entries_view(sigs@)) {
            Ok(t) => r is Ok && r->Ok_0@ == t && filled(
                Expression::FnCall(*old(c)),
                Expression::FnCall(*final(c)),
                entries_view(env@),
                entries_view(sigs@),
            ),
            Err(f) => r == Err::<Type, TypeFault>(f),
        },
    decreases *old(c), 0int,
{
    match find_entry(sigs, &c.name) {
        None => Err(TypeFault::UnknownFunction(c.name.clone())),
        Some(k) => {
            let ft = &sigs[k].1;
            proof {
                lemma_params_view(ft.params@);
            }
            if c.args.len() != ft.params.len() {
                return Err(TypeFault::Arity(c.name.clone()));
            }
            let ghost orig = c.args;
            match fill_args(&mut c.args, &ft.params, 0, Ghost(orig), env, sigs) {
                Ok(_) => match &ft.ret {
                    Some(t) => Ok(clone_type(t)),
                    None => Ok(Type::Void),
                },
                Err(f) => Err(f),
            }
        },
    }
}

fn fill_args(
    args: &mut Vec<Expression>,
    params: &Vec<Box<Type>>,
    i: usize,
    Ghost(orig): Ghost<Vec<Expression>>,
    env: &Vec<(String, Type)>,
    sigs: &Vec<(String, FunctionType)>,
) -> (r: Result<(), TypeFault>)
    requires
        i <= old(args).len(),
        old(args).len() == params.len(),
        old(args)@.len() == orig@.len(),
        forall|k: int| i <= k < orig@.len() ==> old(args)@[k] == orig@[k],
    ensures
        final(args)@.len() == old(args)@.len(),
        forall|k: int| 0 <= k < i ==> final(args)@[k] == old(args)@[k],
        match args_check(orig@, params_view(params@), i as int, entries_view(env@), entries_view(sigs@)) {
            Ok(_) => r is Ok && all_filled(orig@, final(args)@, i as int, entries_view(env@), entries_view(sigs@)),
            Err(f) => r == Err::<(), TypeFault>(f),
        },
    decreases orig, orig@.len() - i,
{
    if i >= args.len() {
        return Ok(());
    }
    proof {
        lemma_params_view(params@);
    }
    let mut a = Expression::Literal(Literal::Bool(false));
    args.set_and_swap(i, &mut a);
    let t = match fill_expr(&mut a, env, sigs) {
        Ok(t) => t,
        Err(f) => return Err(f),
    };
    args.set_and_swap(i, &mut a);
    if !type_eq(&t, &params[i]) {
        return Err(TypeFault::TypeMismatch);
    }
    fill_args(args, params, i + 1, Ghost(orig), env, sigs)
}

fn fill_elems(
    elems: &mut Vec<Expression>,
    i: usize,
    first: Type,
    Ghost(orig): Ghost<Vec<Expression>>,
    env: &Vec<(String, Type)>,
    sigs: &Vec<(String, FunctionType)>,
) -> (r: Result<Type, TypeFault>)
    requires
        i <= old(elems).len(),
        old(elems)@.len() == orig@.len(),
        forall|k: int| i <= k < orig@.len() ==> old(elems)@[k] == orig@[k],
    ensures
        final(elems)@.len() == old(elems)@.len(),
        forall|k: int| 0 <= k < i ==> final(elems)@[k] == old(elems)@[k],
        match elems_type(orig@, i as int, first@, entries_view(env@), entries_view(sigs@)) {
            Ok(t) => r is Ok && r->Ok_0@ == t && all_filled(orig@, final(elems)@, i as int, entries_view(env@), entries_view(sigs@)),
            Err(f) => r == Err::<Type, TypeFault>(f),
        },
    decreases orig, orig@.len() - i,
{
    if i >= elems.len() {
        return Ok(first);
    }
    let mut a = Expression::Literal(Literal::Bool(false));
    elems.set_and_swap(i, &mut a);
    let t = match fill_expr(&mut a, env, sigs) {
        Ok(t) => t,
        Err(f) => return Err(f),
    };
    elems.set_and_swap(i, &mut a);
    if i == 0 {
        fill_elems(elems, i + 1, t, Ghost(orig), env, sigs)
    } else if type_eq(&t, &first) {
        fill_elems(elems, i + 1, first, Ghost(orig), env, sigs)
    } else {
        Err(TypeFault::TypeMismatch)
    }
}

pub open spec fn ret_view(r: Option<Box<Type>>) -> Option<TypeView> {
    match r {
        Some(t) => Some(t@),
        None => None,
    }
}

/// Binds `name` to `t` unless it is bound already: the first binding of a
/// name wins, and binding it again to another type is a contradiction.
pub open spec fn bind(env: Env, name: Seq<char>, t: TypeView) -> Result<Env, TypeFault> {
    match lookup(env, name) {
        Some(t0) => if t0 == t {
            Ok(env)
        } else {
            Err(TypeFault::TypeMismatch)
        },
        None => Ok(env.push((name, t))),
    }
}

/// The scope after a statement, or the first fault in it. Scoping is flat:
/// names bound inside a branch or a loop body stay bound after it.
pub open spec fn stmt_outcome(s: Statement, env: Env, sigs: Env, ret: Option<TypeView>) -> Result<Env, TypeFault>
    decreases s, 0int,
{
    match s {
        Statement::While(c, body) => match expr_type(c, env, sigs) {
            Ok(t) => if t == TypeView::Bool {
                block_outcome(body@, 0, env, sigs, ret)
            } else {
                Err(TypeFault::TypeMismatch)
            },
            Err(f) => Err(f),
        },
        Statement::If(c, a, b) => match expr_type(c, env, sigs) {
            Ok(t) => if t == TypeView::Bool {
                match block_outcome(a@, 0, env, sigs, ret) {
                    Ok(env2) => block_outcome(b@, 0, env2, sigs, ret),
                    Err(f) => Err(f),
                }
            } else {
                Err(TypeFault::TypeMismatch)
            },
            Err(f) => Err(f),
        },
        Statement::Assignment(name, cell, init) => match expr_type(init, env, sigs) {
            Ok(t) => if cell_accepts(cell@, t) {
                bind(env, name@, t)
            } else {
                Err(TypeFault::TypeMismatch)
            },
            Err(f) => Err(f),
        },
        Statement::Mutate(name, x) => match expr_type(x, env, sigs) {
            Ok(t) => match lookup(env, name@) {
                Some(t0) => if t0 == t {
                    Ok(env)
                } else {
                    Err(TypeFault::TypeMismatch)
                },
                None => Err(TypeFault::UnknownVariable(name)),
            },
            Err(f) => Err(f),
        },
        Statement::FnCall(c) => match expr_type(Expression::FnCall(c), env, sigs) {
            Ok(_) => Ok(env),
            Err(f) => Err(f),
        },
        Statement::Return(None) => if ret is None {
            Ok(env)
        } else {
            Err(TypeFault::ReturnTypeMismatch)
        },
        Statement::Return(Some(x)) => match expr_type(x, env, sigs) {
            Ok(t) => if ret == Some(t) {
                Ok(env)
            } else {
                Err(TypeFault::ReturnTypeMismatch)
            },
            Err(f) => Err(f),
        },
    }
}

/// Statements `i..` of a block, in order, each under the scope the previous left.
pub open spec fn block_outcome(ss: Seq<Statement>, i: int, env: Env, sigs: Env, ret: Option<TypeView>) -> Result<Env, TypeFault>
    decreases ss, ss.len() - i,
{
    if i < 0 || i >= ss.len() {
        Ok(env)
    } else {
        match stmt_outcome(ss[i], env, sigs, ret) {
            Ok(env2) => block_outcome(ss, i + 1, env2, sigs, ret),
            Err(f) => Err(f),
        }
    }
}

/// `n` is the statement `o` with every type cell in it filled.
pub open spec fn stmt_filled(o: Statement, n: Statement, env: Env, sigs: Env, ret: Option<TypeView>) -> bool
    decreases o, 0int,
{
    match o {
        Statement::While(c, body) => {
            &&& n matches Statement::While(c2, body2)
            &&& filled(c, c2, env, sigs)
            &&& body2@.len() == body@.len()
            &&& block_filled(body@, body2@, 0, env, sigs, ret)
        },
        Statement::If(c, a, b) => {
            &&& n matches Statement::If(c2, a2, b2)
            &&& filled(c, c2, env, sigs)
            &&& a2@.len() == a@.len()
            &&& block_filled(a@, a2@, 0, env, sigs, ret)
            &&& b2@.len() == b@.len()
            &&& block_filled(b@, b2@, 0, block_outcome(a@, 0, env, sigs, ret)->Ok_0, sigs, ret)
        },
        Statement::Assignment(name, _, init) => {
            &&& n matches Statement::Assignment(name2, cell2, init2)
            &&& name2 == name
            &&& filled(init, init2, env, sigs)
            &&& cell2@ == expr_type(init, env, sigs)->Ok_0
        },
        Statement::Mutate(name, x) => {
            &&& n matches Statement::Mutate(name2, x2)
            &&& name2 == name
            &&& filled(x, x2, env, sigs)
        },
        Statement::FnCall(c) => {
            &&& n matches Statement::FnCall(c2)
            &&& filled(Expression::FnCall(c), Expression::FnCall(c2), env, sigs)
        },
        Statement::Return(None) => n matches Statement::Return(None),
        Statement::Return(Some(x)) => {
            &&& n matches Statement::Return(Some(x2))
            &&& filled(x, x2, env, sigs)
        },
    }
}

pub open spec fn block_filled(os: Seq<Statement>, ns: Seq<Statement>, i: int, env: Env, sigs: Env, ret: Option<TypeView>) -> bool
    decreases os, os.len() - i,
{
    if i < 0 || i >= os.len() {
        true
    } else {
        &&& i < ns.len()
        &&& stmt_filled(os[i], ns[i], env, sigs, ret)
        &&& block_filled(os, ns, i + 1, stmt_outcome(os[i], env, sigs, ret)->Ok_0, sigs, ret)
    }
}

/// Adds a binding with the rule of `bind`.
fn bind_var(env: &mut Vec<(String, Type)>, name: &String, t: Type) -> (r: Result<(), TypeFault>)
    ensures
        match bind(entries_view(old(env)@), name@, t@) {
            Ok(e2) => r is Ok && entries_view(final(env)@) == e2,
            Err(f) => r == Err::<(), TypeFault>(f) && *final(env) == *old(env),
        },
{
    match find_entry(env, name) {
        Some(k) => {
            if type_eq(&env[k].1, &t) {
                Ok(())
            } else {
                Err(TypeFault::TypeMismatch)
            }
        },
        None => {
            let ghost prev = env@;
            env.push((name.clone(), t));
            assert(entries_view(env@) =~= entries_view(prev).push((name@, t@)));
            Ok(())
        },
    }
}

/// Types `let name [: T] = init;`: an unknown declared type takes the type of
/// the initializer, a declared one must equal it; then the name is bound.
fn fill_ass(
    name: &String,
    cell: &mut Type,
    init: &mut Expression,
    env: &mut Vec<(String, Type)>,
    sigs: &Vec<(String, FunctionType)>,
) -> (r: Result<(), TypeFault>)
    ensures
        match stmt_outcome(
            Statement::Assignment(*name, *old(cell), *old(init)),
            entries_view(old(env)@),
            entries_view(sigs@),
            None,
        ) {
            Ok(e2) => r is Ok && entries_view(final(env)@) == e2 && filled(
                *old(init),
                *final(init),
                entries_view(old(env)@),
                entries_view(sigs@),
            ) && final(cell)@ == expr_type(*old(init), entries_view(old(env)@), entries_view(sigs@))->Ok_0,
            Err(f) => r == Err::<(), TypeFault>(f),
        },
{
    let t = match fill_expr(init, env, sigs) {
        Ok(t) => t,
        Err(f) => return Err(f),
    };
    match replace_type(cell, clone_type(&t)) {
        Ok(_) => {},
        Err(f) => return Err(f),
    }
    bind_var(env, name, t)
}

/// Types a statement, fills its cells in place and extends the scope.
pub fn fill_stmt(
    s: &mut Statement,
    env: &mut Vec<(String, Type)>,
    sigs: &Vec<(String, FunctionType)>,
    ret: &Option<Box<Type>>,
) -> (r: Result<(), TypeFault>)
    ensures
        match stmt_outcome(*old(s), entries_view(old(env)@), entries_view(sigs@), ret_view(*ret)) {
            Ok(e2) => r is Ok && entries_view(final(env)@) == e2 && stmt_filled(
                *old(s),
                *final(s),
                entries_view(old(env)@),
                entries_view(sigs@),
                ret_view(*ret),
            ),
            Err(f) => r == Err::<(), TypeFault>(f),
        },
    decreases *old(s), 0int,
{
    match s {
        Statement::While(c, body) => {
            match fill_expr(c, env, sigs) {
                Ok(t) => {
                    if !matches!(t, Type::Primitive(PrimitiveType::Bool)) {
                        return Err(TypeFault::TypeMismatch);
                    }
                },
                Err(f) => return Err(f),
            }
            let ghost orig = *body;
            fill_block(body, 0, Ghost(orig), env, sigs, ret)
        },
        Statement::If(c, a, b) => {
            match fill_expr(c, env, sigs) {
                Ok(t) => {
                    if !matches!(t, Type::Primitive(PrimitiveType::Bool)) {
                        return Err(TypeFault::TypeMismatch);
                    }
                },
                Err(f) => return Err(f),
            }
            let ghost orig_a = *a;
            match fill_block(a, 0, Ghost(orig_a), env, sigs, ret) {
                Ok(_) => {},
                Err(f) => return Err(f),
            }
            let ghost orig_b = *b;
            fill_block(b, 0, Ghost(orig_b), env, sigs, ret)
        },
        Statement::Assignment(name, cell, init) => fill_ass(name, cell, init, env, sigs),
        Statement::Mutate(name, x) => {
            let t = match fill_expr(x, env, sigs) {
                Ok(t) => t,
                Err(f) => return Err(f),
            };
            match find_entry(env, name) {
                Some(k) => if type_eq(&env[k].1, &t) {
                    Ok(())
                } else {
                    Err(TypeFault::TypeMismatch)
                },
                None => Err(TypeFault::UnknownVariable(name.clone())),
            }
        },
        Statement::FnCall(c) => match check_call(c, env, sigs) {
            Ok(_) => Ok(()),
            Err(f) => Err(f),
        },
        Statement::Return(None) => match ret {
            None => Ok(()),
            Some(_) => Err(TypeFault::ReturnTypeMismatch),
        },
        Statement::Return(Some(x)) => {
            let t = match fill_expr(x, env, sigs) {
                Ok(t) => t,
                Err(f) => return Err(f),
            };
            match ret {
                Some(rt) => if type_eq(rt, &t) {
                    Ok(())
                } else {
                    Err(TypeFault::ReturnTypeMismatch)
                },
                None => Err(TypeFault::ReturnTypeMismatch),
            }
        },
    }
}

/// Types statements `i..` of a block in order.
pub fn fill_block(
    body: &mut Vec<Statement>,
    i: usize,
    Ghost(orig): Ghost<Vec<Statement>>,
    env: &mut Vec<(String, Type)>,
    sigs: &Vec<(String, FunctionType)>,
    ret: &Option<Box<Type>>,
) -> (r: Result<(), TypeFault>)
    requires
        i <= old(body).len(),
        old(body)@.len() == orig@.len(),
        forall|k: int| i <= k < orig@.len() ==> old(body)@[k] == orig@[k],
    ensures
        final(body)@.len() == old(body)@.len(),
        forall|k: int| 0 <= k < i ==> final(body)@[k] == old(body)@[k],
        match block_outcome(orig@, i as int, entries_view(old(env)@), entries_view(sigs@), ret_view(*ret)) {
            Ok(e2) => r is Ok && entries_view(final(env)@) == e2 && block_filled(
                orig@,
                final(body)@,
                i as int,
                entries_view(old(env)@),
                entries_view(sigs@),
                ret_view(*ret),
            ),
            Err(f) => r == Err::<(), TypeFault>(f),
        },
    decreases orig, orig@.len() - i,
{
    if i >= body.len() {
        return Ok(());
    }
    let mut st = Statement::Return(None);
    body.set_and_swap(i, &mut st);
    match fill_stmt(&mut st, env, sigs, ret) {
        Ok(_) => {},
        Err(f) => return Err(f),
    }
    body.set_and_swap(i, &mut st);
    fill_block(body, i + 1, Ghost(orig), env, sigs, ret)
}

/// The scope of a function's parameters, bound in order.
pub open spec fn seed(names: Seq<String>, types: Seq<TypeView>, i: int, env: Env) -> Result<Env, TypeFault>
    decreases names.len() - i,
{
    if i < 0 || i >= names.len() || i >= types.len() {
        Ok(env)
    } else {
        match bind(env, names[i]@, types[i]) {
            Ok(e2) => seed(names, types, i + 1, e2),
            Err(f) => Err(f),
        }
    }
}

/// The final scope of a function body, or the first fault in it.
pub open spec fn fn_outcome(name: String, ft: FunctionType, names: Seq<String>, body: Seq<Statement>, sigs: Env) -> Result<Env, TypeFault> {
    if names.len() != ft.params@.len() {
        Err(TypeFault::Arity(name))
    } else {
        match seed(names, params_view(ft.params@), 0, seq![]) {
            Ok(env) => block_outcome(body, 0, env, sigs, ret_view(ft.ret)),
            Err(f) => Err(f),
        }
    }
}

pub open spec fn fn_filled(ft: FunctionType, names: Seq<String>, body: Seq<Statement>, body2: Seq<Statement>, sigs: Env) -> bool {
    &&& body2.len() == body.len()
    &&& block_filled(body, body2, 0, seed(names, params_view(ft.params@), 0, seq![])->Ok_0, sigs, ret_view(ft.ret))
}

/// Types a function body under a fresh scope seeded with its parameters, and
/// returns that scope at the end of the body.
pub fn fill_fn(
    name: &String,
    ft: &FunctionType,
    params: &Vec<String>,
    body: &mut Vec<Statement>,
    sigs: &Vec<(String, FunctionType)>,
) -> (r: Result<Vec<(String, Type)>, TypeFault>)
    ensures
        match fn_outcome(*name, *ft, params@, old(body)@, entries_view(sigs@)) {
            Ok(env) => r is Ok && entries_view(r->Ok_0@) == env && fn_filled(*ft, params@, old(body)@, final(body)@, entries_view(sigs@)),
            Err(f) => r == Err::<Vec<(String, Type)>, TypeFault>(f),
        },
{
    if params.len() != ft.params.len() {
        return Err(TypeFault::Arity(name.clone()));
    }
    proof {
        lemma_params_view(ft.params@);
    }
    let ghost types = params_view(ft.params@);
    let mut env: Vec<(String, Type)> = Vec::new();
    assert(entries_view(env@) =~= seq![]);
    let mut i: usize = 0;
    while i < params.len()
        invariant
            i <= params.len(),
            params.len() == ft.params.len(),
            types == params_view(ft.params@),
            types.len() == ft.params@.len(),
            forall|k: int| 0 <= k < ft.params@.len() ==> #[trigger] types[k] == (*ft.params@[k])@,
            seed(params@, types, 0, seq![]) == seed(params@, types, i as int, entries_view(env@)),
        decreases params.len() - i,
    {
        let t = clone_type(&ft.params[i]);
        match bind_var(&mut env, &params[i], t) {
            Ok(_) => {},
            Err(f) => return Err(f),
        }
        i = i + 1;
    }
    let ghost orig = *body;
    match fill_block(body, 0, Ghost(orig), &mut env, sigs, &ft.ret) {
        Ok(_) => Ok(env),
        Err(f) => Err(f),
    }
}

/// The signature table of a program: every function and extern by name, in
/// order of declaration; a name declared twice is a fault.
pub open spec fn sig_table(tree: Seq<TopLevel>, i: int, acc: Env) -> Result<Env, TypeFault>
    decreases tree.len() - i,
{
    if i < 0 || i >= tree.len() {
        Ok(acc)
    } else {
        match tree[i] {
            TopLevel::FnDecl(name, ft, _, _) | TopLevel::Extern(name, ft) => if lookup(acc, name@) is Some {
                Err(TypeFault::DuplicateDeclaration(name))
            } else {
                sig_table(tree, i + 1, acc.push((name@, ft@)))
            },
            TopLevel::StructDecl(_) => sig_table(tree, i + 1, acc),
        }
    }
}

/// The first fault in the bodies of items `i..`, if any.
pub open spec fn tops_outcome(tree: Seq<TopLevel>, i: int, sigs: Env) -> Result<(), TypeFault>
    decreases tree.len() - i,
{
    if i < 0 || i >= tree.len() {
        Ok(())
    } else {
        match tree[i] {
            TopLevel::FnDecl(name, ft, params, body) => match fn_outcome(name, ft, params@, body@, sigs) {
                Ok(_) => tops_outcome(tree, i + 1, sigs),
                Err(f) => Err(f),
            },
            _ => tops_outcome(tree, i + 1, sigs),
        }
    }
}

pub open spec fn top_filled(o: TopLevel, n: TopLevel, sigs: Env) -> bool {
    match o {
        TopLevel::FnDecl(name, ft, params, body) => {
            &&& n matches TopLevel::FnDecl(name2, ft2, params2, body2)
            &&& name2 == name
            &&& ft2 == ft
            &&& params2 == params
            &&& fn_filled(ft, params@, body@, body2@, sigs)
        },
        _ => n == o,
    }
}

/// The outcome of the whole pass on a program: the signature table, or the
/// first fault.
pub open spec fn program_outcome(tree: Seq<TopLevel>) -> Result<Env, TypeFault> {
    match sig_table(tree, 0, seq![]) {
        Ok(sigs) => match tops_outcome(tree, 0, sigs) {
            Ok(_) => Ok(sigs),
            Err(f) => Err(f),
        },
        Err(f) => Err(f),
    }
}

fn build_sigs(tree: &Vec<TopLevel>) -> (r: Result<Vec<(String, FunctionType)>, TypeFault>)
    ensures
        match sig_table(tree@, 0, seq![]) {
            Ok(sigs) => r is Ok && entries_view(r->Ok_0@) == sigs,
            Err(f) => r == Err::<Vec<(String, FunctionType)>, TypeFault>(f),
        },
{
    let mut sigs: Vec<(String, FunctionType)> = Vec::new();
    assert(entries_view(sigs@) =~= seq![]);
    let mut i: usize = 0;
    while i < tree.len()
        invariant
            i <= tree.len(),
            sig_table(tree@, 0, seq![]) == sig_table(tree@, i as int, entries_view(sigs@)),
        decreases tree.len() - i,
    {
        match &tree[i] {
            TopLevel::FnDecl(name, ft, _, _) | TopLevel::Extern(name, ft) => {
                if find_entry(&sigs, name).is_some() {
                    return Err(TypeFault::DuplicateDeclaration(name.clone()));
                }
                let ghost prev = sigs@;
                sigs.push((name.clone(), ft.clone()));
                assert(entries_view(sigs@) =~= entries_view(prev).push((name@, ft@)));
            },
            TopLevel::StructDecl(_) => {},
        }
        i = i + 1;
    }
    Ok(sigs)
}

/// The type pass over a whole program.
pub struct TypeFiller {
    pub tree: Vec<TopLevel>,
}

impl TypeFiller {
    pub fn new(tree: Vec<TopLevel>) -> (r: TypeFiller)
        ensures
            r.tree == tree,
    {
        TypeFiller { tree }
    }

    /// Builds the signature table, then types every function body in order,
    /// filling each type cell in place. Returns the typed program and the table.
    pub fn fill(self) -> (r: Result<(Vec<TopLevel>, Vec<(String, FunctionType)>), TypeFault>)
        ensures
            match program_outcome(self.tree@) {
                Ok(sigs) => r is Ok && entries_view(r->Ok_0.1@) == sigs && r->Ok_0.0@.len()
                    == self.tree@.len() && forall|k: int|
                    0 <= k < self.tree@.len() ==> #[trigger] top_filled(
                        self.tree@[k],
                        r->Ok_0.0@[k],
                        sigs,
                    ),
                Err(f) => r == Err::<(Vec<TopLevel>, Vec<(String, FunctionType)>), TypeFault>(f),
            },
    {
        let sigs = match build_sigs(&self.tree) {
            Ok(s) => s,
            Err(f) => return Err(f),
        };
        let ghost sv = entries_view(sigs@);
        let mut tree = self.tree;
        let ghost orig = tree@;
        assert(orig == self.tree@);
        assert(sig_table(orig, 0, seq![]) == Ok::<Env, TypeFault>(sv));
        let mut i: usize = 0;
        while i < tree.len()
            invariant
                i <= tree.len(),
                tree@.len() == orig.len(),
                sv == entries_view(sigs@),
                orig == self.tree@,
                sig_table(orig, 0, seq![]) == Ok::<Env, TypeFault>(sv),
                tops_outcome(orig, 0, sv) == tops_outcome(orig, i as int, sv),
                forall|k: int| 0 <= k < i ==> #[trigger] top_filled(orig[k], tree@[k], sv),
                forall|k: int| i <= k < orig.len() ==> tree@[k] == orig[k],
            decreases tree.len() - i,
        {
            let mut top = TopLevel::StructDecl(crate::types::StructType { name: String::new(), contents: Vec::new() });
            tree.set_and_swap(i, &mut top);
            let ghost before = top;
            assert(before == orig[i as int]);
            match &mut top {
                TopLevel::FnDecl(name, ft, params, body) => {
                    match fill_fn(name, ft, params, body, &sigs) {
                        Ok(_) => {},
                        Err(f) => {
                            assert(tops_outcome(orig, i as int, sv) == Err::<(), TypeFault>(f));
                            return Err(f);
                        },
                    }
                },
                _ => {},
            }
            tree.set_and_swap(i, &mut top);
            i = i + 1;
        }
        Ok((tree, sigs))
    }
}


/// `later` keeps every binding of `env`.
pub open spec fn extends(later: Env, env: Env) -> bool {
    forall|name: Seq<char>| #[trigger] lookup(env, name) is Some ==> lookup(later, name) == lookup(env, name)
}

/// Every variable in `e` carries the type its name is bound to in `env`.
pub open spec fn vars_resolved(e: Expression, env: Env) -> bool
    decreases e, 0int,
{
    match e {
        Expression::Variable(name, cell) => lookup(env, name@) == Some(cell@),
        Expression::BinExpr(_, l, r, _) => vars_resolved(*l, env) && vars_resolved(*r, env),
        Expression::UnaryExpr(_, x, _) => vars_resolved(*x, env),
        Expression::Literal(Literal::Array(es, _)) => all_vars_resolved(es@, 0, env),
        Expression::Literal(_) => true,
        Expression::FnCall(c) => all_vars_resolved(c.args@, 0, env),
    }
}

pub open spec fn all_vars_resolved(es: Seq<Expression>, i: int, env: Env) -> bool
    decreases es, es.len() - i,
{
    if i < 0 || i >= es.len() {
        true
    } else {
        vars_resolved(es[i], env) && all_vars_resolved(es, i + 1, env)
    }
}

pub open spec fn stmt_vars_resolved(s: Statement, env: Env) -> bool
    decreases s, 0int,
{
    match s {
        Statement::While(c, b) => vars_resolved(c, env) && block_vars_resolved(b@, 0, env),
        Statement::If(c, a, b) => vars_resolved(c, env) && block_vars_resolved(a@, 0, env) && block_vars_resolved(b@, 0, env),
        Statement::Assignment(_, _, e) => vars_resolved(e, env),
        Statement::Mutate(_, e) => vars_resolved(e, env),
        Statement::FnCall(c) => all_vars_resolved(c.args@, 0, env),
        Statement::Return(Some(e)) => vars_resolved(e, env),
        Statement::Return(None) => true,
    }
}

pub open spec fn block_vars_resolved(ss: Seq<Statement>, i: int, env: Env) -> bool
    decreases ss, ss.len() - i,
{
    if i < 0 || i >= ss.len() {
        true
    } else {
        stmt_vars_resolved(ss[i], env) && block_vars_resolved(ss, i + 1, env)
    }
}

proof fn lemma_bind_extends(env: Env, name: Seq<char>, t: TypeView)
    requires
        bind(env, name, t) is Ok,
    ensures
        extends(bind(env, name, t)->Ok_0, env),
{
    if lookup(env, name) is None {
        let e2 = env.push((name, t));
        assert(e2.drop_last() =~= env);
        assert forall|n: Seq<char>| #[trigger] lookup(env, n) is Some implies lookup(e2, n) == lookup(env, n) by {
            assert(n != name);
        }
    }
}

proof fn lemma_stmt_extends(s: Statement, env: Env, sigs: Env, ret: Option<TypeView>)
    requires
        stmt_outcome(s, env, sigs, ret) is Ok,
    ensures
        extends(stmt_outcome(s, env, sigs, ret)->Ok_0, env),
    decreases s, 0int,
{
    match s {
        Statement::While(c, b) => {
            lemma_block_extends(b@, 0, env, sigs, ret);
        },
        Statement::If(c, a, b) => {
            lemma_block_extends(a@, 0, env, sigs, ret);
            let ea = block_outcome(a@, 0, env, sigs, ret)->Ok_0;
            lemma_block_extends(b@, 0, ea, sigs, ret);
        },
        Statement::Assignment(name, cell, init) => {
            let t = expr_type(init, env, sigs)->Ok_0;
            lemma_bind_extends(env, name@, t);
        },
        _ => {},
    }
}

proof fn lemma_block_extends(ss: Seq<Statement>, i: int, env: Env, sigs: Env, ret: Option<TypeView>)
    requires
        block_outcome(ss, i, env, sigs, ret) is Ok,
    ensures
        extends(block_outcome(ss, i, env, sigs, ret)->Ok_0, env),
    decreases ss, ss.len() - i,
{
    if 0 <= i < ss.len() {
        lemma_stmt_extends(ss[i], env, sigs, ret);
        let e1 = stmt_outcome(ss[i], env, sigs, ret)->Ok_0;
        lemma_block_extends(ss, i + 1, e1, sigs, ret);
    }
}

proof fn lemma_expr_vars(o: Expression, n: Expression, env: Env, sigs: Env, fin: Env)
    requires
        expr_type(o, env, sigs) is Ok,
        filled(o, n, env, sigs),
        extends(fin, env),
    ensures
        vars_resolved(n, fin),
    decreases o, 0int,
{
    match o {
        Expression::BinExpr(_, l, r, _) => {
            match n {
                Expression::BinExpr(_, l2, r2, _) => {
                    lemma_expr_vars(*l, *l2, env, sigs, fin);
                    lemma_expr_vars(*r, *r2, env, sigs, fin);
                },
                _ => {},
            }
        },
        Expression::UnaryExpr(_, x, _) => {
            match n {
                Expression::UnaryExpr(_, x2, _) => {
                    lemma_expr_vars(*x, *x2, env, sigs, fin);
                },
                _ => {},
            }
        },
        Expression::Literal(Literal::Array(es, _)) => {
            match n {
                Expression::Literal(Literal::Array(es2, _)) => {
                    lemma_elems_vars(es@, es2@, 0, TypeView::Unknown, env, sigs, fin);
                },
                _ => {},
            }
        },
        Expression::FnCall(c) => {
            match n {
                Expression::FnCall(c2) => {
                    let params = lookup(sigs, c.name@)->Some_0->Func_0;
                    lemma_args_vars(c.args@, c2.args@, params, 0, env, sigs, fin);
                },
                _ => {},
            }
        },
        Expression::Variable(name, _) => {
            assert(lookup(env, name@) is Some);
        },
        _ => {},
    }
}

proof fn lemma_args_vars(os: Seq<Expression>, ns: Seq<Expression>, params: Seq<TypeView>, i: int, env: Env, sigs: Env, fin: Env)
    requires
        args_check(os, params, i, env, sigs) is Ok,
        all_filled(os, ns, i, env, sigs),
        ns.len() == os.len(),
        extends(fin, env),
    ensures
        all_vars_resolved(ns, i, fin),
    decreases os, os.len() - i,
{
    if 0 <= i < os.len() {
        lemma_expr_vars(os[i], ns[i], env, sigs, fin);
        lemma_args_vars(os, ns, params, i + 1, env, sigs, fin);
    }
}

proof fn lemma_elems_vars(os: Seq<Expression>, ns: Seq<Expression>, i: int, first: TypeView, env: Env, sigs: Env, fin: Env)
    requires
        elems_type(os, i, first, env, sigs) is Ok,
        all_filled(os, ns, i, env, sigs),
        ns.len() == os.len(),
        extends(fin, env),
    ensures
        all_vars_resolved(ns, i, fin),
    decreases os, os.len() - i,
{
    if 0 <= i < os.len() {
        lemma_expr_vars(os[i], ns[i], env, sigs, fin);
        let t = expr_type(os[i], env, sigs)->Ok_0;
        if i == 0 {
            lemma_elems_vars(os, ns, i + 1, t, env, sigs, fin);
        } else {
            lemma_elems_vars(os, ns, i + 1, first, env, sigs, fin);
        }
    }
}

proof fn lemma_stmt_vars(o: Statement, n: Statement, env: Env, sigs: Env, ret: Option<TypeView>, fin: Env)
    requires
        stmt_outcome(o, env, sigs, ret) is Ok,
        stmt_filled(o, n, env, sigs, ret),
        extends(fin, stmt_outcome(o, env, sigs, ret)->Ok_0),
    ensures
        stmt_vars_resolved(n, fin),
    decreases o, 0int,
{
    lemma_stmt_extends(o, env, sigs, ret);
    assert(extends(fin, env));
    match o {
        Statement::While(c, b) => {
            match n {
                Statement::While(c2, b2) => {
                    lemma_expr_vars(c, c2, env, sigs, fin);
                    lemma_block_vars(b@, b2@, 0, env, sigs, ret, fin);
                },
                _ => {},
            }
        },
        Statement::If(c, a, b) => {
            match n {
                Statement::If(c2, a2, b2) => {
                    lemma_expr_vars(c, c2, env, sigs, fin);
                    let ea = block_outcome(a@, 0, env, sigs, ret)->Ok_0;
                    lemma_block_extends(b@, 0, ea, sigs, ret);
                    assert(extends(fin, ea));
                    lemma_block_vars(a@, a2@, 0, env, sigs, ret, fin);
                    lemma_block_vars(b@, b2@, 0, ea, sigs, ret, fin);
                },
                _ => {},
            }
        },
        Statement::Assignment(_, _, init) => {
            match n {
                Statement::Assignment(_, _, init2) => {
                    lemma_expr_vars(init, init2, env, sigs, fin);
                },
                _ => {},
            }
        },
        Statement::Mutate(_, x) => {
            match n {
                Statement::Mutate(_, x2) => {
                    lemma_expr_vars(x, x2, env, sigs, fin);
                },
                _ => {},
            }
        },
        Statement::FnCall(c) => {
            match n {
                Statement::FnCall(c2) => {
                    lemma_expr_vars(Expression::FnCall(c), Expression::FnCall(c2), env, sigs, fin);
                },
                _ => {},
            }
        },
        Statement::Return(Some(x)) => {
            match n {
                Statement::Return(Some(x2)) => {
                    lemma_expr_vars(x, x2, env, sigs, fin);
                },
                _ => {},
            }
        },
        Statement::Return(None) => {},
    }
}

proof fn lemma_block_vars(os: Seq<Statement>, ns: Seq<Statement>, i: int, env: Env, sigs: Env, ret: Option<TypeView>, fin: Env)
    requires
        block_outcome(os, i, env, sigs, ret) is Ok,
        block_filled(os, ns, i, env, sigs, ret),
        ns.len() == os.len(),
        extends(fin, block_outcome(os, i, env, sigs, ret)->Ok_0),
    ensures
        block_vars_resolved(ns, i, fin),
    decreases os, os.len() - i,
{
    if 0 <= i < os.len() {
        let e1 = stmt_outcome(os[i], env, sigs, ret)->Ok_0;
        lemma_block_extends(os, i + 1, e1, sigs, ret);
        assert(extends(fin, e1));
        lemma_stmt_vars(os[i], ns[i], env, sigs, ret, fin);
        lemma_block_vars(os, ns, i + 1, e1, sigs, ret, fin);
    }
}

/// After a successful pass over a block, every use of a variable in the typed
/// block carries the type its name is bound to when the block ends. A name
/// once bound keeps its type, so all uses of one name agree.
pub proof fn lemma_uses_agree(os: Seq<Statement>, ns: Seq<Statement>, env: Env, sigs: Env, ret: Option<TypeView>)
    requires
        block_outcome(os, 0, env, sigs, ret) is Ok,
        block_filled(os, ns, 0, env, sigs, ret),
        ns.len() == os.len(),
    ensures
        block_vars_resolved(ns, 0, block_outcome(os, 0, env, sigs, ret)->Ok_0),
{
    lemma_block_vars(os, ns, 0, env, sigs, ret, block_outcome(os, 0, env, sigs, ret)->Ok_0);
}


/// Every function body of `tops_outcome`'s range passes.
pub proof fn lemma_tops_ok(tree: Seq<TopLevel>, i: int, sigs: Env, k: int)
    requires
        tops_outcome(tree, i, sigs) is Ok,
        0 <= i <= k < tree.len(),
    ensures
        tree[k] matches TopLevel::FnDecl(name, ft, params, body) ==> fn_outcome(name, ft, params@, body@, sigs) is Ok,
    decreases k - i,
{
    if i < k {
        lemma_tops_ok(tree, i + 1, sigs, k);
    }
}

/// In the typed function `n` (the function `o` after the pass), every use of a
/// variable carries the type its name is bound to at the end of the body.
pub open spec fn fn_uses_agree(o: TopLevel, n: TopLevel, sigs: Env) -> bool {
    match (o, n) {
        (TopLevel::FnDecl(name, ft, params, body), TopLevel::FnDecl(_, _, _, body2)) => block_vars_resolved(
            body2@,
            0,
            fn_outcome(name, ft, params@, body@, sigs)->Ok_0,
        ),
        _ => true,
    }
}

/// After a successful pass over a whole program (what `TypeFiller::fill`
/// returns), all uses of a variable in a function carry one type: the one its
/// name is bound to at the end of the function's body.
pub proof fn lemma_program_uses_agree(tree: Seq<TopLevel>, typed: Seq<TopLevel>)
    requires
        program_outcome(tree) is Ok,
        typed.len() == tree.len(),
        forall|k: int| 0 <= k < tree.len() ==> #[trigger] top_filled(tree[k], typed[k], program_outcome(tree)->Ok_0),
    ensures
        forall|k: int| 0 <= k < tree.len() ==> #[trigger] fn_uses_agree(tree[k], typed[k], program_outcome(tree)->Ok_0),
{
    let sigs = program_outcome(tree)->Ok_0;
    assert forall|k: int| 0 <= k < tree.len() implies #[trigger] fn_uses_agree(tree[k], typed[k], sigs) by {
        assert(top_filled(tree[k], typed[k], sigs));
        match (tree[k], typed[k]) {
            (TopLevel::FnDecl(_, ft, params, body), TopLevel::FnDecl(_, _, _, body2)) => {
                lemma_tops_ok(tree, 0, sigs, k);
                let env = seed(params@, params_view(ft.params@), 0, seq![])->Ok_0;
                lemma_uses_agree(body@, body2@, env, sigs, ret_view(ft.ret));
            },
            _ => {},
        }
    }
}

} // verus!
