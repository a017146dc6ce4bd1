use crate::nodes::{BinOp, Expression, FunctionCall, Literal, Statement, TopLevel};
use crate::typefiller::{
    all_filled, args_check, block_filled, block_outcome, elems_type, entries_view, expr_type, filled, find_entry, lookup,
    stmt_filled, stmt_outcome, Env, program_outcome, top_filled, seed, ret_view, lemma_tops_ok,
};
use crate::types::{clone_type, lemma_params_view, params_view, FunctionType, PrimitiveType, Type, TypeView};
use vstd::prelude::*;

verus! {

/// The family of instruction a numeric operation lowers to.
#[derive(Debug, Clone, Copy, PartialEq, Eq, Structural)]
pub enum NumKind {
    Int,
    Float,
    /// One-bit integers: equality tests only.
    Bool,
}

/// What a basic block is for; the backend names blocks after it.
#[derive(Debug, Clone, Copy, PartialEq, Eq, Structural)]
pub enum BlockRole {
    Entry,
    Then,
    Else,
    Merge,
    WhileCond,
    WhileLoop,
    AfterWhile,
}

/// One lowering request for the backend. Requests are issued in order; the
/// handle of the value, slot or block that a request makes is its own index in
/// the sequence, and later requests refer to earlier ones by those handles.
#[derive(Debug, PartialEq)]
pub enum Request {
    /// Adds a function with this name and signature to the module and makes it current.
    DeclareFunction(String, FunctionType),
    /// Appends a basic block to the current function.
    AppendBlock(BlockRole),
    /// Moves the insertion cursor to the end of a block.
    PositionAtEnd(usize),
    /// The incoming value of the current function's parameter at this position.
    Param(usize),
    /// A storage slot for a value of this type, named after a variable.
    Alloca(Type, String),
    /// Stores a value into a slot.
    Store(usize, usize),
    /// Loads a value of this type from a slot.
    Load(Type, usize, String),
    ConstInt(i64),
    /// A float constant, from its source text.
    ConstFloat(String),
    ConstBool(bool),
    /// A pointer to global character data.
    ConstString(String),
    Neg(NumKind, usize),
    Binary(NumKind, BinOp, usize, usize),
    /// Branches on a boolean value to the first block or the second.
    CondBranch(usize, usize, usize),
    Branch(usize),
    /// Calls a function of the module with these argument values.
    Call(String, Vec<usize>),
    Return(Option<usize>),
}

/// The mathematical value of a request.
pub enum RequestView {
    DeclareFunction(Seq<char>, TypeView),
    AppendBlock(BlockRole),
    PositionAtEnd(nat),
    Param(nat),
    Alloca(TypeView, Seq<char>),
    Store(nat, nat),
    Load(TypeView, nat, Seq<char>),
    ConstInt(i64),
    ConstFloat(Seq<char>),
    ConstBool(bool),
    ConstString(Seq<char>),
    Neg(NumKind, nat),
    Binary(NumKind, BinOp, nat, nat),
    CondBranch(nat, nat, nat),
    Branch(nat),
    Call(Seq<char>, Seq<nat>),
    Return(Option<nat>),
}

impl View for Request {
    type V = RequestView;

    open spec fn view(&self) -> RequestView {
        match *self {
            Request::DeclareFunction(n, ft) => RequestView::DeclareFunction(n@, ft@),
            Request::AppendBlock(b) => RequestView::AppendBlock(b),
            Request::PositionAtEnd(b) => RequestView::PositionAtEnd(b as nat),
            Request::Param(i) => RequestView::Param(i as nat),
            Request::Alloca(t, n) => RequestView::Alloca(t@, n@),
            Request::Store(s, v) => RequestView::Store(s as nat, v as nat),
            Request::Load(t, s, n) => RequestView::Load(t@, s as nat, n@),
            Request::ConstInt(i) => RequestView::ConstInt(i),
            Request::ConstFloat(s) => RequestView::ConstFloat(s@),
            Request::ConstBool(b) => RequestView::ConstBool(b),
            Request::ConstString(s) => RequestView::ConstString(s@),
            Request::Neg(k, v) => RequestView::Neg(k, v as nat),
            Request::Binary(k, op, a, b) => RequestView::Binary(k, op, a as nat, b as nat),
            Request::CondBranch(c, t, e) => RequestView::CondBranch(c as nat, t as nat, e as nat),
            Request::Branch(b) => RequestView::Branch(b as nat),
            Request::Call(n, args) => RequestView::Call(n@, args@.map_values(|a: usize| a as nat)),
            Request::Return(v) => RequestView::Return(
                match v {
                    Some(x) => Some(x as nat),
                    None => None,
                },
            ),
        }
    }
}

/// A construct the lowering does not handle.
#[derive(Debug, Clone, Copy, PartialEq, Eq, Structural)]
pub enum LowerFault {
    /// Struct declarations, array values, and operations with no instruction
    /// for their operand type.
    UnsupportedFeature,
    /// A variable with no storage slot: the tree was not typed.
    UnknownVariable,
}

pub open spec fn reqs_view(v: Seq<Request>) -> Seq<RequestView> {
    v.map_values(|r: Request| r@)
}

/// Variable names bound to storage-slot handles.
pub type Slots = Seq<(Seq<char>, nat)>;

pub open spec fn slots_view(v: Seq<(String, usize)>) -> Slots {
    v.map_values(|p: (String, usize)| (p.0@, p.1 as nat))
}

/// The slot of `name`; the latest binding counts.
pub open spec fn slot_of(slots: Slots, name: Seq<char>) -> Option<nat>
    decreases slots.len(),
{
    if slots.len() == 0 {
        None
    } else if slots.last().0 == name {
        Some(slots.last().1)
    } else {
        slot_of(slots.drop_last(), name)
    }
}

/// The type of an expression of a typed tree, read from its cells.
pub open spec fn typed(e: Expression, sigs: Env) -> TypeView {
    match e {
        Expression::BinExpr(_, _, _, t) => t@,
        Expression::UnaryExpr(_, _, t) => t@,
        Expression::Variable(_, t) => t@,
        Expression::Literal(Literal::Int(_)) => TypeView::Int,
        Expression::Literal(Literal::Float(_)) => TypeView::Float,
        Expression::Literal(Literal::String(_)) => TypeView::String,
        Expression::Literal(Literal::Bool(_)) => TypeView::Bool,
        Expression::Literal(Literal::Array(es, t)) => TypeView::Array(Box::new(t@), Some(es@.len() as u32)),
        Expression::FnCall(c) => match lookup(sigs, c.name@) {
            Some(TypeView::Func(_, Some(r))) => *r,
            Some(TypeView::Func(_, None)) => TypeView::Void,
            _ => TypeView::Unknown,
        },
    }
}

pub open spec fn num_kind(t: TypeView) -> Option<NumKind> {
    match t {
        TypeView::Int => Some(NumKind::Int),
        TypeView::Float => Some(NumKind::Float),
        TypeView::Bool => Some(NumKind::Bool),
        _ => None,
    }
}

/// The instruction family of a binary operation on operands of type `t`:
/// integers and floats have every operation, booleans only `==` and `!=`.
pub open spec fn binary_kind(op: BinOp, t: TypeView) -> Option<NumKind> {
    match num_kind(t) {
        Some(NumKind::Bool) => if op is Equal || op is NEqual {
            Some(NumKind::Bool)
        } else {
            None
        },
        k => k,
    }
}

/// The requests that evaluate an expression when `base` requests precede
/// them, and the handle of its value.
pub open spec fn lower_expr(e: Expression, slots: Slots, sigs: Env, base: nat) -> Result<(Seq<RequestView>, nat), LowerFault>
    decreases e, 0int,
{
    match e {
        Expression::Literal(Literal::Int(i)) => Ok((seq![RequestView::ConstInt(i)], base)),
        Expression::Literal(Literal::Float(s)) => Ok((seq![RequestView::ConstFloat(s@)], base)),
        Expression::Literal(Literal::String(s)) => Ok((seq![RequestView::ConstString(s@)], base)),
        Expression::Literal(Literal::Bool(b)) => Ok((seq![RequestView::ConstBool(b)], base)),
        Expression::Literal(Literal::Array(_, _)) => Err(LowerFault::UnsupportedFeature),
        Expression::Variable(name, t) => match slot_of(slots, name@) {
            Some(s) => Ok((seq![RequestView::Load(t@, s, name@)], base)),
            None => Err(LowerFault::UnknownVariable),
        },
        Expression::FnCall(c) => match lower_args(c.args@, 0, slots, sigs, base) {
            Ok((rs, vs)) => Ok((rs.push(RequestView::Call(c.name@, vs)), base + rs.len())),
            Err(f) => Err(f),
        },
        Expression::UnaryExpr(_, x, t) => match num_kind(t@) {
            Some(k) => if k is Bool {
                Err(LowerFault::UnsupportedFeature)
            } else {
                match lower_expr(*x, slots, sigs, base) {
                    Ok((rs, v)) => Ok((rs.push(RequestView::Neg(k, v)), base + rs.len())),
                    Err(f) => Err(f),
                }
            },
            None => Err(LowerFault::UnsupportedFeature),
        },
        Expression::BinExpr(op, l, r, _) => match binary_kind(op, typed(*l, sigs)) {
            Some(k) => match lower_expr(*l, slots, sigs, base) {
                Ok((rl, vl)) => match lower_expr(*r, slots, sigs, base + rl.len()) {
                    Ok((rr, vr)) => Ok(
                        (
                            (rl + rr).push(RequestView::Binary(k, op, vl, vr)),
                            base + rl.len() + rr.len(),
                        ),
                    ),
                    Err(f) => Err(f),
                },
                Err(f) => Err(f),
            },
            None => Err(LowerFault::UnsupportedFeature),
        },
    }
}

/// Arguments `i..` evaluated in order: their requests and their value handles.
pub open spec fn lower_args(args: Seq<Expression>, i: int, slots: Slots, sigs: Env, base: nat) -> Result<(Seq<RequestView>, Seq<nat>), LowerFault>
    decreases args, args.len() - i,
{
    if i < 0 || i >= args.len() {
        Ok((seq![], seq![]))
    } else {
        match lower_expr(args[i], slots, sigs, base) {
            Ok((rs, v)) => match lower_args(args, i + 1, slots, sigs, base + rs.len()) {
                Ok((rs2, vs)) => Ok((rs + rs2, seq![v] + vs)),
                Err(f) => Err(f),
            },
            Err(f) => Err(f),
        }
    }
}

/// The requests of a statement when `base` requests precede them, and the
/// slots bound after it.
pub open spec fn lower_stmt(s: Statement, slots: Slots, sigs: Env, base: nat) -> Result<(Seq<RequestView>, Slots), LowerFault>
    decreases s, 0int,
{
    match s {
        Statement::Assignment(name, t, init) => match lower_expr(init, slots, sigs, base + 1) {
            Ok((rs, v)) => Ok(
                (
                    seq![RequestView::Alloca(t@, name@)] + rs.push(RequestView::Store(base, v)),
                    slots.push((name@, base)),
                ),
            ),
            Err(f) => Err(f),
        },
        Statement::Mutate(name, x) => match slot_of(slots, name@) {
            Some(sl) => match lower_expr(x, slots, sigs, base) {
                Ok((rs, v)) => Ok((rs.push(RequestView::Store(sl, v)), slots)),
                Err(f) => Err(f),
            },
            None => Err(LowerFault::UnknownVariable),
        },
        Statement::FnCall(c) => match lower_expr(Expression::FnCall(c), slots, sigs, base) {
            Ok((rs, _)) => Ok((rs, slots)),
            Err(f) => Err(f),
        },
        Statement::Return(None) => Ok((seq![RequestView::Return(None)], slots)),
        Statement::Return(Some(x)) => match lower_expr(x, slots, sigs, base) {
            Ok((rs, v)) => Ok((rs.push(RequestView::Return(Some(v))), slots)),
            Err(f) => Err(f),
        },
        Statement::If(c, a, b) => match lower_expr(c, slots, sigs, base) {
            Ok((rc, v)) => {
                let head = rc + if_head(v, base + rc.len());
                match lower_block(a@, 0, slots, sigs, base + head.len()) {
                    Ok((ra, sa)) => {
                        let mid = if_mid(base + rc.len());
                        match lower_block(b@, 0, sa, sigs, base + head.len() + ra.len() + mid.len()) {
                            Ok((rb, sb)) => Ok((head + ra + mid + rb + if_tail(base + rc.len()), sb)),
                            Err(f) => Err(f),
                        }
                    },
                    Err(f) => Err(f),
                }
            },
            Err(f) => Err(f),
        },
        Statement::While(c, body) => match lower_expr(c, slots, sigs, base + 5) {
            Ok((rc, v)) => {
                let head = while_head(base) + rc + while_mid(v, base);
                match lower_block(body@, 0, slots, sigs, base + head.len()) {
                    Ok((rb, sb)) => Ok((head + rb + while_tail(base), sb)),
                    Err(f) => Err(f),
                }
            },
            Err(f) => Err(f),
        },
    }
}

/// After the condition of an `if` (value `v`), with `t` the index of the first
/// new block: the three blocks then, else and merge, the branch, and the cursor
/// moved into the then block.
pub open spec fn if_head(v: nat, t: nat) -> Seq<RequestView> {
    seq![
        RequestView::AppendBlock(BlockRole::Then),
        RequestView::AppendBlock(BlockRole::Else),
        RequestView::AppendBlock(BlockRole::Merge),
        RequestView::CondBranch(v, t, t + 1),
        RequestView::PositionAtEnd(t),
    ]
}

/// After the then statements: jump to merge, continue in the else block.
pub open spec fn if_mid(t: nat) -> Seq<RequestView> {
    seq![RequestView::Branch(t + 2), RequestView::PositionAtEnd(t + 1)]
}

/// After the else statements: jump to merge, continue there.
pub open spec fn if_tail(t: nat) -> Seq<RequestView> {
    seq![RequestView::Branch(t + 2), RequestView::PositionAtEnd(t + 2)]
}

/// The three blocks of a loop (condition, body, after) at `c`, `c + 1` and
/// `c + 2`, the jump into the condition block, and the cursor moved there.
pub open spec fn while_head(c: nat) -> Seq<RequestView> {
    seq![
        RequestView::AppendBlock(BlockRole::WhileCond),
        RequestView::AppendBlock(BlockRole::WhileLoop),
        RequestView::AppendBlock(BlockRole::AfterWhile),
        RequestView::Branch(c),
        RequestView::PositionAtEnd(c),
    ]
}

/// After the condition (value `v`): branch to the body or past the loop, and
/// continue in the body block.
pub open spec fn while_mid(v: nat, c: nat) -> Seq<RequestView> {
    seq![RequestView::CondBranch(v, c + 1, c + 2), RequestView::PositionAtEnd(c + 1)]
}

/// After the body: jump back to the condition, continue after the loop.
pub open spec fn while_tail(c: nat) -> Seq<RequestView> {
    seq![RequestView::Branch(c), RequestView::PositionAtEnd(c + 2)]
}

/// Statements `i..` of a block in order.
pub open spec fn lower_block(ss: Seq<Statement>, i: int, slots: Slots, sigs: Env, base: nat) -> Result<(Seq<RequestView>, Slots), LowerFault>
    decreases ss, ss.len() - i,
{
    if i < 0 || i >= ss.len() {
        Ok((seq![], slots))
    } else {
        match lower_stmt(ss[i], slots, sigs, base) {
            Ok((rs, s2)) => match lower_block(ss, i + 1, s2, sigs, base + rs.len()) {
                Ok((rs2, s3)) => Ok((rs + rs2, s3)),
                Err(f) => Err(f),
            },
            Err(f) => Err(f),
        }
    }
}

/// Parameters `i..`: a slot for each, the incoming value, and the store.
pub open spec fn lower_params(names: Seq<String>, types: Seq<TypeView>, i: int, slots: Slots, base: nat) -> (Seq<RequestView>, Slots)
    decreases names.len() - i,
{
    if i < 0 || i >= names.len() || i >= types.len() {
        (seq![], slots)
    } else {
        let here = seq![
            RequestView::Alloca(types[i], names[i]@),
            RequestView::Param(i as nat),
            RequestView::Store(base, base + 1),
        ];
        let rest = lower_params(names, types, i + 1, slots.push((names[i]@, base)), base + 3);
        (here + rest.0, rest.1)
    }
}

pub open spec fn ends_with_return(body: Seq<Statement>) -> bool {
    body.len() > 0 && body.last() is Return
}

/// The requests of a top-level item. A function gets an entry block, a slot
/// for each parameter, its body, and a closing void return when it returns
/// nothing and its body does not end in a `return`.
pub open spec fn lower_top(t: TopLevel, sigs: Env, base: nat) -> Result<Seq<RequestView>, LowerFault> {
    match t {
        TopLevel::FnDecl(name, ft, params, body) => {
            let head = seq![
                RequestView::DeclareFunction(name@, ft@),
                RequestView::AppendBlock(BlockRole::Entry),
                RequestView::PositionAtEnd(base + 1),
            ];
            let ps = lower_params(params@, params_view(ft.params@), 0, seq![], base + 3);
            match lower_block(body@, 0, ps.1, sigs, base + 3 + ps.0.len()) {
                Ok((rb, _)) => Ok(
                    head + ps.0 + rb + if ft.ret is None && !ends_with_return(body@) {
                        seq![RequestView::Return(None)]
                    } else {
                        seq![]
                    },
                ),
                Err(f) => Err(f),
            }
        },
        TopLevel::Extern(name, ft) => Ok(seq![RequestView::DeclareFunction(name@, ft@)]),
        TopLevel::StructDecl(_) => Err(LowerFault::UnsupportedFeature),
    }
}

/// Items `i..` in order.
pub open spec fn lower_tops(tree: Seq<TopLevel>, i: int, sigs: Env, base: nat) -> Result<Seq<RequestView>, LowerFault>
    decreases tree.len() - i,
{
    if i < 0 || i >= tree.len() {
        Ok(seq![])
    } else {
        match lower_top(tree[i], sigs, base) {
            Ok(rs) => match lower_tops(tree, i + 1, sigs, base + rs.len()) {
                Ok(rest) => Ok(rs + rest),
                Err(f) => Err(f),
            },
            Err(f) => Err(f),
        }
    }
}

/// Appends requests and hands out handles.
struct Emitter {
    requests: Vec<Request>,
    slots: Vec<(String, usize)>,
}

impl Emitter {
    fn emit(&mut self, r: Request) -> (h: usize)
        ensures
            h == old(self).requests.len(),
            reqs_view(final(self).requests@) == reqs_view(old(self).requests@).push(r@),
            reqs_view(final(self).requests@) == reqs_view(old(self).requests@) + seq![r@],
            final(self).requests@.len() == old(self).requests@.len() + 1,
            final(self).slots == old(self).slots,
    {
        let h = self.requests.len();
        let ghost prev = self.requests@;
        self.requests.push(r);
        assert(reqs_view(self.requests@) =~= reqs_view(prev).push(r@));
        assert(reqs_view(self.requests@) =~= reqs_view(prev) + seq![r@]);
        h
    }

    fn find_slot(&self, name: &String) -> (r: Option<usize>)
        ensures
            match r {
                Some(s) => slot_of(slots_view(self.slots@), name@) == Some(s as nat),
                None => slot_of(slots_view(self.slots@), name@) is None,
            },
    {
        let ghost sv = slots_view(self.slots@);
        let mut i: usize = self.slots.len();
        assert(sv.subrange(0, i as int) =~= sv);
        while i > 0
            invariant
                i <= self.slots.len(),
                sv == slots_view(self.slots@),
                slot_of(sv, name@) == slot_of(sv.subrange(0, i as int), name@),
            decreases i,
        {
            proof {
                assert(sv.subrange(0, i as int).drop_last() =~= sv.subrange(0, i - 1));
            }
            if self.slots[i - 1].0 == *name {
                return Some(self.slots[i - 1].1);
            }
            i = i - 1;
        }
        None
    }

    /// Lowers an expression; returns the handle of its value.
    fn gen_expression(&mut self, e: &Expression, sigs: &Vec<(String, FunctionType)>) -> (r: Result<usize, LowerFault>)
        ensures
            final(self).slots == old(self).slots,
            match lower_expr(*e, slots_view(old(self).slots@), entries_view(sigs@), old(self).requests@.len() as nat) {
                Ok((rs, v)) => r is Ok && r->Ok_0 as nat == v && reqs_view(final(self).requests@)
                    == reqs_view(old(self).requests@) + rs && final(self).requests@.len() == old(self).requests@.len() + rs.len(),
                Err(f) => r == Err::<usize, LowerFault>(f),
            },
        decreases *e, 0int,
    {
        match e {
            Expression::Literal(Literal::Int(i)) => Ok(self.emit(Request::ConstInt(*i))),
            Expression::Literal(Literal::Float(s)) => Ok(self.emit(Request::ConstFloat(s.clone()))),
            Expression::Literal(Literal::String(s)) => Ok(self.emit(Request::ConstString(s.clone()))),
            Expression::Literal(Literal::Bool(b)) => Ok(self.emit(Request::ConstBool(*b))),
            Expression::Literal(Literal::Array(_, _)) => Err(LowerFault::UnsupportedFeature),
            Expression::Variable(name, t) => match self.find_slot(name) {
                Some(s) => Ok(self.emit(Request::Load(clone_type(t), s, name.clone()))),
                None => Err(LowerFault::UnknownVariable),
            },
            Expression::FnCall(c) => self.gen_call(c, sigs),
            Expression::UnaryExpr(_, x, t) => {
                let k = match get_kind(t) {
                    Some(NumKind::Int) => NumKind::Int,
                    Some(NumKind::Float) => NumKind::Float,
                    _ => return Err(LowerFault::UnsupportedFeature),
                };
                let v = match self.gen_expression(x, sigs) {
                    Ok(v) => v,
                    Err(f) => return Err(f),
                };
                let ghost mid = reqs_view(self.requests@);
                let h = self.emit(Request::Neg(k, v));
                proof {
                    let rs = lower_expr(**x, slots_view(old(self).slots@), entries_view(sigs@), old(self).requests@.len() as nat)->Ok_0.0;
                    assert(reqs_view(self.requests@) =~= reqs_view(old(self).requests@) + rs.push(RequestView::Neg(k, v as nat)));
                }
                Ok(h)
            },
            Expression::BinExpr(op, l, r, _) => {
                let lt = get_expr_type(l, sigs);
                let k = match get_kind(&lt) {
                    Some(NumKind::Bool) => match op {
                        BinOp::Equal | BinOp::NEqual => NumKind::Bool,
                        _ => return Err(LowerFault::UnsupportedFeature),
                    },
                    Some(k) => k,
                    None => return Err(LowerFault::UnsupportedFeature),
                };
                let ghost sl = slots_view(old(self).slots@);
                let ghost sg = entries_view(sigs@);
                let ghost base = old(self).requests@.len() as nat;
                let vl = match self.gen_expression(l, sigs) {
                    Ok(v) => v,
                    Err(f) => return Err(f),
                };
                let ghost rl = lower_expr(**l, sl, sg, base)->Ok_0.0;
                assert(self.requests@.len() == base + rl.len()) by {
                    assert(reqs_view(self.requests@).len() == self.requests@.len());
                }
                let vr = match self.gen_expression(r, sigs) {
                    Ok(v) => v,
                    Err(f) => return Err(f),
                };
                let ghost rr = lower_expr(**r, sl, sg, base + rl.len())->Ok_0.0;
                let h = self.emit(Request::Binary(k, *op, vl, vr));
                proof {
                    assert(reqs_view(self.requests@) =~= reqs_view(old(self).requests@) + (rl + rr).push(RequestView::Binary(k, *op, vl as nat, vr as nat)));
                    assert(h == base + rl.len() + rr.len());
                }
                Ok(h)
            },
        }
    }

    /// Lowers a statement.
    fn gen_statement(&mut self, st: &Statement, sigs: &Vec<(String, FunctionType)>) -> (r: Result<(), LowerFault>)
        ensures
            match lower_stmt(*st, slots_view(old(self).slots@), entries_view(sigs@), old(self).requests@.len() as nat) {
                Ok((rs, sl)) => r is Ok && reqs_view(final(self).requests@) == reqs_view(old(self).requests@) + rs
                    && final(self).requests@.len() == old(self).requests@.len() + rs.len()
                    && slots_view(final(self).slots@) == sl,
                Err(f) => r == Err::<(), LowerFault>(f),
            },
        decreases *st, 2int,
    {
        let ghost r0 = reqs_view(self.requests@);
        let ghost sl0 = slots_view(self.slots@);
        let ghost sg = entries_view(sigs@);
        let ghost base = self.requests@.len() as nat;
        match st {
            Statement::Assignment(name, t, init) => {
                let slot = self.emit(Request::Alloca(clone_type(t), name.clone()));
                let v = match self.gen_expression(init, sigs) {
                    Ok(v) => v,
                    Err(f) => return Err(f),
                };
                let ghost rs = lower_expr(*init, sl0, sg, base + 1)->Ok_0.0;
                self.emit(Request::Store(slot, v));
                assert(reqs_view(self.requests@) =~= r0 + (seq![RequestView::Alloca(t@, name@)] + rs.push(RequestView::Store(base, v as nat))));
                let ghost prev = self.slots@;
                self.slots.push((name.clone(), slot));
                assert(slots_view(self.slots@) =~= slots_view(prev).push((name@, base)));
                Ok(())
            },
            Statement::Mutate(name, x) => {
                let sl = match self.find_slot(name) {
                    Some(sl) => sl,
                    None => return Err(LowerFault::UnknownVariable),
                };
                let v = match self.gen_expression(x, sigs) {
                    Ok(v) => v,
                    Err(f) => return Err(f),
                };
                let ghost rs = lower_expr(*x, sl0, sg, base)->Ok_0.0;
                self.emit(Request::Store(sl, v));
                assert(reqs_view(self.requests@) =~= r0 + rs.push(RequestView::Store(sl as nat, v as nat)));
                Ok(())
            },
            Statement::FnCall(c) => match self.gen_call(c, sigs) {
                Ok(_) => Ok(()),
                Err(f) => Err(f),
            },
            Statement::Return(None) => {
                self.emit(Request::Return(None));
                Ok(())
            },
            Statement::Return(Some(x)) => {
                let v = match self.gen_expression(x, sigs) {
                    Ok(v) => v,
                    Err(f) => return Err(f),
                };
                let ghost rs = lower_expr(*x, sl0, sg, base)->Ok_0.0;
                self.emit(Request::Return(Some(v)));
                assert(reqs_view(self.requests@) =~= r0 + rs.push(RequestView::Return(Some(v as nat))));
                Ok(())
            },
            Statement::If(c, a, b) => self.gen_if(c, a, b, sigs),
            Statement::While(c, body) => self.gen_while(c, body, sigs),
        }
    }

    /// Lowers `if c { a } else { b }` into three new blocks: then, else and merge.
    fn gen_if(&mut self, c: &Expression, a: &Vec<Statement>, b: &Vec<Statement>, sigs: &Vec<(String, FunctionType)>) -> (r: Result<(), LowerFault>)
        ensures
            match lower_stmt(Statement::If(*c, *a, *b), slots_view(old(self).slots@), entries_view(sigs@), old(self).requests@.len() as nat) {
                Ok((rs, sl)) => r is Ok && reqs_view(final(self).requests@) == reqs_view(old(self).requests@) + rs
                    && final(self).requests@.len() == old(self).requests@.len() + rs.len()
                    && slots_view(final(self).slots@) == sl,
                Err(f) => r == Err::<(), LowerFault>(f),
            },
        decreases Statement::If(*c, *a, *b), 1int,
    {
        let ghost r0 = reqs_view(self.requests@);
        let ghost sl0 = slots_view(self.slots@);
        let ghost sg = entries_view(sigs@);
        let ghost base = self.requests@.len() as nat;
        let v = match self.gen_expression(c, sigs) {
            Ok(v) => v,
            Err(f) => return Err(f),
        };
        let ghost rc = lower_expr(*c, sl0, sg, base)->Ok_0.0;
        let t = self.emit(Request::AppendBlock(BlockRole::Then));
        let e = self.emit(Request::AppendBlock(BlockRole::Else));
        let m = self.emit(Request::AppendBlock(BlockRole::Merge));
        self.emit(Request::CondBranch(v, t, e));
        self.emit(Request::PositionAtEnd(t));
        let ghost head = rc + if_head(v as nat, t as nat);
        assert(reqs_view(self.requests@) =~= r0 + head);
        match self.gen_block(a, 0, sigs) {
            Ok(_) => {},
            Err(f) => return Err(f),
        }
        let ghost ra = lower_block(a@, 0, sl0, sg, base + head.len())->Ok_0.0;
        self.emit(Request::Branch(m));
        self.emit(Request::PositionAtEnd(e));
        assert(reqs_view(self.requests@) =~= r0 + head + ra + if_mid(t as nat));
        match self.gen_block(b, 0, sigs) {
            Ok(_) => {},
            Err(f) => return Err(f),
        }
        let ghost rb = lower_block(b@, 0, lower_block(a@, 0, sl0, sg, base + head.len())->Ok_0.1, sg, base + head.len() + ra.len() + 2)->Ok_0.0;
        self.emit(Request::Branch(m));
        self.emit(Request::PositionAtEnd(m));
        assert(reqs_view(self.requests@) =~= r0 + (head + ra + if_mid(t as nat) + rb + if_tail(t as nat)));
        Ok(())
    }

    /// Lowers `while c { body }` into three new blocks: condition, body and after.
    fn gen_while(&mut self, c: &Expression, body: &Vec<Statement>, sigs: &Vec<(String, FunctionType)>) -> (r: Result<(), LowerFault>)
        ensures
            match lower_stmt(Statement::While(*c, *body), slots_view(old(self).slots@), entries_view(sigs@), old(self).requests@.len() as nat) {
                Ok((rs, sl)) => r is Ok && reqs_view(final(self).requests@) == reqs_view(old(self).requests@) + rs
                    && final(self).requests@.len() == old(self).requests@.len() + rs.len()
                    && slots_view(final(self).slots@) == sl,
                Err(f) => r == Err::<(), LowerFault>(f),
            },
        decreases Statement::While(*c, *body), 1int,
    {
        let ghost r0 = reqs_view(self.requests@);
        let ghost sl0 = slots_view(self.slots@);
        let ghost sg = entries_view(sigs@);
        let ghost base = self.requests@.len() as nat;
        let cb = self.emit(Request::AppendBlock(BlockRole::WhileCond));
        let lb = self.emit(Request::AppendBlock(BlockRole::WhileLoop));
        let ab = self.emit(Request::AppendBlock(BlockRole::AfterWhile));
        self.emit(Request::Branch(cb));
        self.emit(Request::PositionAtEnd(cb));
        assert(reqs_view(self.requests@) =~= r0 + while_head(base));
        let v = match self.gen_expression(c, sigs) {
            Ok(v) => v,
            Err(f) => return Err(f),
        };
        let ghost rc = lower_expr(*c, sl0, sg, base + 5)->Ok_0.0;
        self.emit(Request::CondBranch(v, lb, ab));
        self.emit(Request::PositionAtEnd(lb));
        let ghost head = while_head(base) + rc + while_mid(v as nat, base);
        assert(reqs_view(self.requests@) =~= r0 + head);
        match self.gen_block(body, 0, sigs) {
            Ok(_) => {},
            Err(f) => return Err(f),
        }
        let ghost rb = lower_block(body@, 0, sl0, sg, base + head.len())->Ok_0.0;
        self.emit(Request::Branch(cb));
        self.emit(Request::PositionAtEnd(ab));
        assert(reqs_view(self.requests@) =~= r0 + (head + rb + while_tail(base)));
        Ok(())
    }

    /// Lowers statements `i..` of a block.
    fn gen_block(&mut self, ss: &Vec<Statement>, i: usize, sigs: &Vec<(String, FunctionType)>) -> (r: Result<(), LowerFault>)
        requires
            i <= ss.len(),
        ensures
            match lower_block(ss@, i as int, slots_view(old(self).slots@), entries_view(sigs@), old(self).requests@.len() as nat) {
                Ok((rs, sl)) => r is Ok && reqs_view(final(self).requests@) == reqs_view(old(self).requests@) + rs
                    && final(self).requests@.len() == old(self).requests@.len() + rs.len()
                    && slots_view(final(self).slots@) == sl,
                Err(f) => r == Err::<(), LowerFault>(f),
            },
        decreases *ss, ss.len() - i,
    {
        let ghost r0 = reqs_view(self.requests@);
        if i >= ss.len() {
            assert(r0 + seq![] =~= r0);
            return Ok(());
        }
        match self.gen_statement(&ss[i], sigs) {
            Ok(_) => {},
            Err(f) => return Err(f),
        }
        let ghost r1 = reqs_view(self.requests@);
        let res = self.gen_block(ss, i + 1, sigs);
        proof {
            if res is Ok {
                let rs1 = lower_stmt(ss@[i as int], slots_view(old(self).slots@), entries_view(sigs@), old(self).requests@.len() as nat)->Ok_0.0;
                let rs2 = lower_block(ss@, i + 1, lower_stmt(ss@[i as int], slots_view(old(self).slots@), entries_view(sigs@), old(self).requests@.len() as nat)->Ok_0.1, entries_view(sigs@), old(self).requests@.len() + rs1.len())->Ok_0.0;
                assert(r0 + rs1 + rs2 =~= r0 + (rs1 + rs2));
            }
        }
        res
    }

    /// Lowers a call: its arguments in order, then the call itself.
    fn gen_call(&mut self, c: &FunctionCall, sigs: &Vec<(String, FunctionType)>) -> (r: Result<usize, LowerFault>)
        ensures
            final(self).slots == old(self).slots,
            match lower_expr(Expression::FnCall(*c), slots_view(old(self).slots@), entries_view(sigs@), old(self).requests@.len() as nat) {
                Ok((rs, v)) => r is Ok && r->Ok_0 as nat == v && reqs_view(final(self).requests@)
                    == reqs_view(old(self).requests@) + rs && final(self).requests@.len() == old(self).requests@.len() + rs.len(),
                Err(f) => r == Err::<usize, LowerFault>(f),
            },
        decreases *c, 0int,
    {
        let mut handles: Vec<usize> = Vec::new();
        match self.gen_args(&c.args, 0, &mut handles, sigs) {
            Ok(_) => {},
            Err(f) => return Err(f),
        }
        let ghost la = lower_args(c.args@, 0, slots_view(old(self).slots@), entries_view(sigs@), old(self).requests@.len() as nat)->Ok_0;
        assert(handles@.map_values(|a: usize| a as nat) =~= la.1);
        assert(self.requests@.len() == old(self).requests@.len() + la.0.len()) by {
            assert(reqs_view(self.requests@).len() == self.requests@.len());
        }
        let name = c.name.clone();
        let h = self.emit(Request::Call(name, handles));
        assert(reqs_view(self.requests@) =~= reqs_view(old(self).requests@) + la.0.push(RequestView::Call(c.name@, la.1)));
        Ok(h)
    }

    fn gen_args(&mut self, args: &Vec<Expression>, i: usize, handles: &mut Vec<usize>, sigs: &Vec<(String, FunctionType)>) -> (r: Result<(), LowerFault>)
        requires
            i <= args.len(),
        ensures
            final(self).slots == old(self).slots,
            match lower_args(args@, i as int, slots_view(old(self).slots@), entries_view(sigs@), old(self).requests@.len() as nat) {
                Ok((rs, vs)) => r is Ok && reqs_view(final(self).requests@) == reqs_view(old(self).requests@) + rs
                    && final(handles)@.map_values(|a: usize| a as nat) == old(handles)@.map_values(|a: usize| a as nat) + vs,
                Err(f) => r == Err::<(), LowerFault>(f),
            },
        decreases args, args.len() - i,
    {
        if i >= args.len() {
            assert(old(handles)@.map_values(|a: usize| a as nat) + seq![] =~= old(handles)@.map_values(|a: usize| a as nat));
            assert(reqs_view(old(self).requests@) + seq![] =~= reqs_view(old(self).requests@));
            return Ok(());
        }
        let v = match self.gen_expression(&args[i], sigs) {
            Ok(v) => v,
            Err(f) => return Err(f),
        };
        let ghost rs1 = lower_expr(args@[i as int], slots_view(old(self).slots@), entries_view(sigs@), old(self).requests@.len() as nat)->Ok_0.0;
        assert(self.requests@.len() == old(self).requests@.len() + rs1.len()) by {
            assert(reqs_view(self.requests@).len() == self.requests@.len());
        }
        let ghost mid_handles = handles@;
        handles.push(v);
        let ghost mid_reqs = reqs_view(self.requests@);
        assert(handles@.map_values(|a: usize| a as nat) =~= mid_handles.map_values(|a: usize| a as nat).push(v as nat));
        let res = self.gen_args(args, i + 1, handles, sigs);
        proof {
            match lower_args(args@, i as int, slots_view(old(self).slots@), entries_view(sigs@), old(self).requests@.len() as nat) {
                Ok((rs, vs)) => {
                    let (rs1, v1) = lower_expr(args@[i as int], slots_view(old(self).slots@), entries_view(sigs@), old(self).requests@.len() as nat)->Ok_0;
                    let (rs2, vs2) = lower_args(args@, i + 1, slots_view(old(self).slots@), entries_view(sigs@), old(self).requests@.len() + rs1.len())->Ok_0;
                    assert(reqs_view(old(self).requests@) + rs1 + rs2 =~= reqs_view(old(self).requests@) + (rs1 + rs2));
                    assert(mid_handles.map_values(|a: usize| a as nat).push(v as nat) + vs2 =~= mid_handles.map_values(|a: usize| a as nat) + (seq![v1] + vs2));
                },
                Err(_) => {},
            }
        }
        res
    }
    /// A slot for each parameter `i..`, with the incoming value stored in it.
    fn gen_params(&mut self, names: &Vec<String>, types: &Vec<Box<Type>>, i: usize) -> (r: ())
        requires
            i <= names.len(),
        ensures
            reqs_view(final(self).requests@) == reqs_view(old(self).requests@) + lower_params(
                names@,
                params_view(types@),
                i as int,
                slots_view(old(self).slots@),
                old(self).requests@.len() as nat,
            ).0,
            final(self).requests@.len() == old(self).requests@.len() + lower_params(
                names@,
                params_view(types@),
                i as int,
                slots_view(old(self).slots@),
                old(self).requests@.len() as nat,
            ).0.len(),
            slots_view(final(self).slots@) == lower_params(
                names@,
                params_view(types@),
                i as int,
                slots_view(old(self).slots@),
                old(self).requests@.len() as nat,
            ).1,
        decreases names.len() - i,
    {
        proof {
            lemma_params_view(types@);
        }
        let ghost r0 = reqs_view(self.requests@);
        if i >= names.len() || i >= types.len() {
            assert(r0 + seq![] =~= r0);
            return;
        }
        let slot = self.emit(Request::Alloca(clone_type(&types[i]), names[i].clone()));
        let v = self.emit(Request::Param(i));
        self.emit(Request::Store(slot, v));
        let ghost here = seq![
            RequestView::Alloca(params_view(types@)[i as int], names@[i as int]@),
            RequestView::Param(i as nat),
            RequestView::Store(slot as nat, (slot + 1) as nat),
        ];
        assert(reqs_view(self.requests@) =~= r0 + here);
        let ghost prev = self.slots@;
        self.slots.push((names[i].clone(), slot));
        assert(slots_view(self.slots@) =~= slots_view(prev).push((names@[i as int]@, slot as nat)));
        let ghost r1 = reqs_view(self.requests@);
        self.gen_params(names, types, i + 1);
        proof {
            let rest = lower_params(names@, params_view(types@), i + 1, slots_view(prev).push((names@[i as int]@, slot as nat)), (slot + 3) as nat);
            assert(r0 + here + rest.0 =~= r0 + (here + rest.0));
        }
    }

    /// Lowers a function: its declaration, entry block, parameter slots and body.
    fn gen_fn_decl(
        &mut self,
        name: &String,
        ft: &FunctionType,
        params: &Vec<String>,
        body: &Vec<Statement>,
        sigs: &Vec<(String, FunctionType)>,
    ) -> (r: Result<(), LowerFault>)
        ensures
            match lower_top(TopLevel::FnDecl(*name, *ft, *params, *body), entries_view(sigs@), old(self).requests@.len() as nat) {
                Ok(rs) => r is Ok && reqs_view(final(self).requests@) == reqs_view(old(self).requests@) + rs
                    && final(self).requests@.len() == old(self).requests@.len() + rs.len(),
                Err(f) => r == Err::<(), LowerFault>(f),
            },
    {
        let ghost r0 = reqs_view(self.requests@);
        let ghost base = self.requests@.len() as nat;
        self.emit(Request::DeclareFunction(name.clone(), ft.clone()));
        let entry = self.emit(Request::AppendBlock(BlockRole::Entry));
        self.emit(Request::PositionAtEnd(entry));
        let ghost head = seq![
            RequestView::DeclareFunction(name@, ft@),
            RequestView::AppendBlock(BlockRole::Entry),
            RequestView::PositionAtEnd(base + 1),
        ];
        assert(reqs_view(self.requests@) =~= r0 + head);
        self.slots = Vec::new();
        assert(slots_view(self.slots@) =~= seq![]);
        self.gen_params(params, &ft.params, 0);
        let ghost ps = lower_params(params@, params_view(ft.params@), 0, seq![], base + 3);
        match self.gen_block(body, 0, sigs) {
            Ok(_) => {},
            Err(f) => return Err(f),
        }
        let ghost rb = lower_block(body@, 0, ps.1, entries_view(sigs@), base + 3 + ps.0.len())->Ok_0.0;
        let trailing_return = body.len() > 0 && matches!(body[body.len() - 1], Statement::Return(_));
        if ft.ret.is_none() && !trailing_return {
            self.emit(Request::Return(None));
            assert(reqs_view(self.requests@) =~= r0 + (head + ps.0 + rb + seq![RequestView::Return(None)]));
        } else {
            assert(reqs_view(self.requests@) =~= r0 + (head + ps.0 + rb + seq![]));
        }
        Ok(())
    }
}

/// Lowers a typed program, given the signature table that the type pass built.
pub struct CodeGenerator {
    pub nodes: Vec<TopLevel>,
    pub functions: Vec<(String, FunctionType)>,
}

impl CodeGenerator {
    pub fn new(nodes: Vec<TopLevel>, functions: Vec<(String, FunctionType)>) -> (r: CodeGenerator)
        ensures
            r.nodes == nodes,
            r.functions == functions,
    {
        CodeGenerator { nodes, functions }
    }

    /// The lowering requests of the whole program, in order.
    pub fn generate(self) -> (r: Result<Vec<Request>, LowerFault>)
        ensures
            match lower_tops(self.nodes@, 0, entries_view(self.functions@), 0) {
                Ok(rs) => r is Ok && reqs_view(r->Ok_0@) == rs,
                Err(f) => r == Err::<Vec<Request>, LowerFault>(f),
            },
    {
        let mut em = Emitter { requests: Vec::new(), slots: Vec::new() };
        let ghost sg = entries_view(self.functions@);
        let ghost nodes = self.nodes@;
        assert(reqs_view(em.requests@) =~= seq![]);
        let mut i: usize = 0;
        while i < self.nodes.len()
            invariant
                i <= self.nodes.len(),
                nodes == self.nodes@,
                sg == entries_view(self.functions@),
                lower_tops(nodes, 0, sg, 0) == match lower_tops(nodes, i as int, sg, em.requests@.len() as nat) {
                    Ok(rest) => Ok::<Seq<RequestView>, LowerFault>(reqs_view(em.requests@) + rest),
                    Err(f) => Err(f),
                },
            decreases self.nodes.len() - i,
        {
            let ghost r0 = reqs_view(em.requests@);
            let res = em.gen_top(&self.nodes[i], &self.functions);
            match res {
                Ok(_) => {},
                Err(f) => return Err(f),
            }
            proof {
                let rs = lower_top(nodes[i as int], sg, r0.len())->Ok_0;
                assert(r0.len() == em.requests@.len() - rs.len());
                match lower_tops(nodes, i + 1, sg, em.requests@.len() as nat) {
                    Ok(rest) => {
                        assert(r0 + (rs + rest) =~= reqs_view(em.requests@) + rest);
                    },
                    Err(_) => {},
                }
            }
            i = i + 1;
        }
        assert(reqs_view(em.requests@) + seq![] =~= reqs_view(em.requests@));
        Ok(em.requests)
    }
}

impl Emitter {
    /// Lowers a top-level item.
    fn gen_top(&mut self, top: &TopLevel, sigs: &Vec<(String, FunctionType)>) -> (r: Result<(), LowerFault>)
        ensures
            match lower_top(*top, entries_view(sigs@), old(self).requests@.len() as nat) {
                Ok(rs) => r is Ok && reqs_view(final(self).requests@) == reqs_view(old(self).requests@) + rs
                    && final(self).requests@.len() == old(self).requests@.len() + rs.len(),
                Err(f) => r == Err::<(), LowerFault>(f),
            },
    {
        match top {
            TopLevel::FnDecl(name, ft, params, body) => self.gen_fn_decl(name, ft, params, body, sigs),
            TopLevel::Extern(name, ft) => {
                self.gen_extern(name, ft);
                Ok(())
            },
            TopLevel::StructDecl(_) => Err(LowerFault::UnsupportedFeature),
        }
    }

    /// Declares a function defined elsewhere.
    fn gen_extern(&mut self, name: &String, ft: &FunctionType)
        ensures
            reqs_view(final(self).requests@) == reqs_view(old(self).requests@) + seq![RequestView::DeclareFunction(name@, ft@)],
            final(self).requests@.len() == old(self).requests@.len() + 1,
    {
        self.emit(Request::DeclareFunction(name.clone(), ft.clone()));
    }
}

/// The kind of a numeric operation on values of type `t`.
fn get_kind(t: &Type) -> (r: Option<NumKind>)
    ensures
        r == num_kind(t@),
{
    match t {
        Type::Primitive(PrimitiveType::Int) => Some(NumKind::Int),
        Type::Primitive(PrimitiveType::Float) => Some(NumKind::Float),
        Type::Primitive(PrimitiveType::Bool) => Some(NumKind::Bool),
        Type::Primitive(PrimitiveType::String) => None,
        Type::Primitive(PrimitiveType::Array(_, _)) => None,
        _ => None,
    }
}

/// The type of an expression of a typed tree.
pub fn get_expr_type(e: &Expression, sigs: &Vec<(String, FunctionType)>) -> (r: Type)
    ensures
        r@ == typed(*e, entries_view(sigs@)),
{
    match e {
        Expression::BinExpr(_, _, _, t) => clone_type(t),
        Expression::UnaryExpr(_, _, t) => clone_type(t),
        Expression::Variable(_, t) => clone_type(t),
        Expression::Literal(Literal::Int(_)) => Type::Primitive(PrimitiveType::Int),
        Expression::Literal(Literal::Float(_)) => Type::Primitive(PrimitiveType::Float),
        Expression::Literal(Literal::String(_)) => Type::Primitive(PrimitiveType::String),
        Expression::Literal(Literal::Bool(_)) => Type::Primitive(PrimitiveType::Bool),
        Expression::Literal(Literal::Array(es, t)) => {
            let n = es.len() as u32;
            Type::Primitive(PrimitiveType::Array(Box::new(clone_type(t)), Some(n)))
        },
        Expression::FnCall(c) => match find_entry(sigs, &c.name) {
            Some(k) => match &sigs[k].1.ret {
                Some(t) => clone_type(t),
                None => Type::Void,
            },
            None => Type::Unknown,
        },
    }
}


/// The number of blocks that a sequence of requests appends.
pub open spec fn new_blocks(rs: Seq<RequestView>) -> nat
    decreases rs.len(),
{
    if rs.len() == 0 {
        0
    } else {
        new_blocks(rs.drop_last()) + if rs.last() is AppendBlock {
            1nat
        } else {
            0nat
        }
    }
}

/// An `if` lowers to the requests of its condition, then three new blocks
/// (then, else and merge, whose handles are `t`, `t + 1` and `t + 2`) with a
/// branch on the condition to the first two; then the then statements and a
/// jump to merge; the else statements and a jump to merge; and lowering goes on
/// at merge. Besides the requests of the condition and of the two branches,
/// that makes exactly three blocks, whether or not a branch is empty.
pub proof fn lemma_if_lowering(c: Expression, a: Vec<Statement>, b: Vec<Statement>, slots: Slots, sigs: Env, base: nat)
    requires
        lower_stmt(Statement::If(c, a, b), slots, sigs, base) is Ok,
    ensures
        ({
            let (rc, v) = lower_expr(c, slots, sigs, base)->Ok_0;
            let t = base + rc.len();
            let (ra, sa) = lower_block(a@, 0, slots, sigs, t + 5)->Ok_0;
            let rb = lower_block(b@, 0, sa, sigs, t + 5 + ra.len() + 2)->Ok_0.0;
            &&& lower_stmt(Statement::If(c, a, b), slots, sigs, base)->Ok_0.0 == rc + if_head(v, t) + ra + if_mid(t) + rb
                + if_tail(t)
            &&& if_head(v, t) == seq![
                RequestView::AppendBlock(BlockRole::Then),
                RequestView::AppendBlock(BlockRole::Else),
                RequestView::AppendBlock(BlockRole::Merge),
                RequestView::CondBranch(v, t, t + 1),
                RequestView::PositionAtEnd(t),
            ]
            &&& if_mid(t) == seq![RequestView::Branch(t + 2), RequestView::PositionAtEnd(t + 1)]
            &&& if_tail(t) == seq![RequestView::Branch(t + 2), RequestView::PositionAtEnd(t + 2)]
            &&& new_blocks(if_head(v, t) + if_mid(t) + if_tail(t)) == 3
            &&& (a@.len() == 0 ==> ra.len() == 0)
            &&& (b@.len() == 0 ==> rb.len() == 0)
        }),
{
    let (rc, v) = lower_expr(c, slots, sigs, base)->Ok_0;
    let t = base + rc.len();
    let own = if_head(v, t) + if_mid(t) + if_tail(t);
    assert(own =~= seq![
        RequestView::AppendBlock(BlockRole::Then),
        RequestView::AppendBlock(BlockRole::Else),
        RequestView::AppendBlock(BlockRole::Merge),
        RequestView::CondBranch(v, t, t + 1),
        RequestView::PositionAtEnd(t),
        RequestView::Branch(t + 2),
        RequestView::PositionAtEnd(t + 1),
        RequestView::Branch(t + 2),
        RequestView::PositionAtEnd(t + 2),
    ]);
    reveal_with_fuel(new_blocks, 10);
    assert(new_blocks(own) == 3);
}

/// A `while` lowers to three new blocks (condition, body and after, whose
/// handles are `c`, `c + 1` and `c + 2`) and a jump into the condition block;
/// there the condition and a branch to the body or past the loop; then the
/// body and a jump back to the condition; and lowering goes on after the loop.
/// Besides the requests of the condition and of the body, that makes exactly
/// three blocks, whether or not the body is empty.
pub proof fn lemma_while_lowering(cond: Expression, body: Vec<Statement>, slots: Slots, sigs: Env, base: nat)
    requires
        lower_stmt(Statement::While(cond, body), slots, sigs, base) is Ok,
    ensures
        ({
            let (rc, v) = lower_expr(cond, slots, sigs, base + 5)->Ok_0;
            let rb = lower_block(body@, 0, slots, sigs, base + 5 + rc.len() + 2)->Ok_0.0;
            &&& lower_stmt(Statement::While(cond, body), slots, sigs, base)->Ok_0.0 == while_head(base) + rc + while_mid(v, base)
                + rb + while_tail(base)
            &&& while_head(base) == seq![
                RequestView::AppendBlock(BlockRole::WhileCond),
                RequestView::AppendBlock(BlockRole::WhileLoop),
                RequestView::AppendBlock(BlockRole::AfterWhile),
                RequestView::Branch(base),
                RequestView::PositionAtEnd(base),
            ]
            &&& while_mid(v, base) == seq![RequestView::CondBranch(v, base + 1, base + 2), RequestView::PositionAtEnd(base + 1)]
            &&& while_tail(base) == seq![RequestView::Branch(base), RequestView::PositionAtEnd(base + 2)]
            &&& new_blocks(while_head(base) + while_mid(v, base) + while_tail(base)) == 3
            &&& (body@.len() == 0 ==> rb.len() == 0)
        }),
{
    let (rc, v) = lower_expr(cond, slots, sigs, base + 5)->Ok_0;
    let own = while_head(base) + while_mid(v, base) + while_tail(base);
    assert(own =~= seq![
        RequestView::AppendBlock(BlockRole::WhileCond),
        RequestView::AppendBlock(BlockRole::WhileLoop),
        RequestView::AppendBlock(BlockRole::AfterWhile),
        RequestView::Branch(base),
        RequestView::PositionAtEnd(base),
        RequestView::CondBranch(v, base + 1, base + 2),
        RequestView::PositionAtEnd(base + 1),
        RequestView::Branch(base),
        RequestView::PositionAtEnd(base + 2),
    ]);
    reveal_with_fuel(new_blocks, 10);
    assert(new_blocks(own) == 3);
}


/// Every call in `e` names a function of the table and passes exactly as many
/// arguments as it has parameters, each of the parameter's type.
pub open spec fn calls_match(e: Expression, sigs: Env) -> bool
    decreases e, 0int,
{
    match e {
        Expression::FnCall(c) => match lookup(sigs, c.name@) {
            Some(TypeView::Func(params, _)) => c.args@.len() == params.len() && args_match(c.args@, params, 0, sigs),
            _ => false,
        },
        Expression::BinExpr(_, l, r, _) => calls_match(*l, sigs) && calls_match(*r, sigs),
        Expression::UnaryExpr(_, x, _) => calls_match(*x, sigs),
        Expression::Literal(Literal::Array(es, _)) => all_calls_match(es@, 0, sigs),
        _ => true,
    }
}

pub open spec fn args_match(args: Seq<Expression>, params: Seq<TypeView>, i: int, sigs: Env) -> bool
    decreases args, args.len() - i,
{
    if i < 0 || i >= args.len() {
        true
    } else {
        i < params.len() && typed(args[i], sigs) == params[i] && calls_match(args[i], sigs) && args_match(args, params, i + 1, sigs)
    }
}

pub open spec fn all_calls_match(es: Seq<Expression>, i: int, sigs: Env) -> bool
    decreases es, es.len() - i,
{
    if i < 0 || i >= es.len() {
        true
    } else {
        calls_match(es[i], sigs) && all_calls_match(es, i + 1, sigs)
    }
}

pub open spec fn stmt_calls_match(s: Statement, sigs: Env) -> bool
    decreases s, 0int,
{
    match s {
        Statement::While(c, b) => calls_match(c, sigs) && block_calls_match(b@, 0, sigs),
        Statement::If(c, a, b) => calls_match(c, sigs) && block_calls_match(a@, 0, sigs) && block_calls_match(b@, 0, sigs),
        Statement::Assignment(_, _, e) => calls_match(e, sigs),
        Statement::Mutate(_, e) => calls_match(e, sigs),
        Statement::FnCall(c) => calls_match(Expression::FnCall(c), sigs),
        Statement::Return(Some(e)) => calls_match(e, sigs),
        Statement::Return(None) => true,
    }
}

pub open spec fn block_calls_match(ss: Seq<Statement>, i: int, sigs: Env) -> bool
    decreases ss, ss.len() - i,
{
    if i < 0 || i >= ss.len() {
        true
    } else {
        stmt_calls_match(ss[i], sigs) && block_calls_match(ss, i + 1, sigs)
    }
}

/// A typed expression carries the type the pass found for it, and its calls match.
proof fn lemma_filled_typed(o: Expression, n: Expression, env: Env, sigs: Env)
    requires
        expr_type(o, env, sigs) is Ok,
        filled(o, n, env, sigs),
    ensures
        typed(n, sigs) == expr_type(o, env, sigs)->Ok_0,
        calls_match(n, sigs),
    decreases o, 0int,
{
    match o {
        Expression::BinExpr(_, l, r, _) => {
            match n {
                Expression::BinExpr(_, l2, r2, _) => {
                    lemma_filled_typed(*l, *l2, env, sigs);
                    lemma_filled_typed(*r, *r2, env, sigs);
                },
                _ => {},
            }
        },
        Expression::UnaryExpr(_, x, _) => {
            match n {
                Expression::UnaryExpr(_, x2, _) => {
                    lemma_filled_typed(*x, *x2, env, sigs);
                },
                _ => {},
            }
        },
        Expression::Literal(Literal::Array(es, _)) => {
            match n {
                Expression::Literal(Literal::Array(es2, _)) => {
                    lemma_elems_calls(es@, es2@, 0, TypeView::Unknown, env, sigs);
                },
                _ => {},
            }
        },
        Expression::FnCall(c) => {
            match n {
                Expression::FnCall(c2) => {
                    let params = lookup(sigs, c.name@)->Some_0->Func_0;
                    lemma_args_calls(c.args@, c2.args@, params, 0, env, sigs);
                },
                _ => {},
            }
        },
        _ => {},
    }
}

proof fn lemma_args_calls(os: Seq<Expression>, ns: Seq<Expression>, params: Seq<TypeView>, i: int, env: Env, sigs: Env)
    requires
        args_check(os, params, i, env, sigs) is Ok,
        all_filled(os, ns, i, env, sigs),
        ns.len() == os.len(),
    ensures
        args_match(ns, params, i, sigs),
    decreases os, os.len() - i,
{
    if 0 <= i < os.len() {
        lemma_filled_typed(os[i], ns[i], env, sigs);
        lemma_args_calls(os, ns, params, i + 1, env, sigs);
    }
}

proof fn lemma_elems_calls(os: Seq<Expression>, ns: Seq<Expression>, i: int, first: TypeView, env: Env, sigs: Env)
    requires
        elems_type(os, i, first, env, sigs) is Ok,
        all_filled(os, ns, i, env, sigs),
        ns.len() == os.len(),
    ensures
        all_calls_match(ns, i, sigs),
    decreases os, os.len() - i,
{
    if 0 <= i < os.len() {
        lemma_filled_typed(os[i], ns[i], env, sigs);
        let t = expr_type(os[i], env, sigs)->Ok_0;
        if i == 0 {
            lemma_elems_calls(os, ns, i + 1, t, env, sigs);
        } else {
            lemma_elems_calls(os, ns, i + 1, first, env, sigs);
        }
    }
}

proof fn lemma_stmt_calls(o: Statement, n: Statement, env: Env, sigs: Env, ret: Option<TypeView>)
    requires
        stmt_outcome(o, env, sigs, ret) is Ok,
        stmt_filled(o, n, env, sigs, ret),
    ensures
        stmt_calls_match(n, sigs),
    decreases o, 0int,
{
    match o {
        Statement::While(c, b) => {
            match n {
                Statement::While(c2, b2) => {
                    lemma_filled_typed(c, c2, env, sigs);
                    lemma_block_calls(b@, b2@, 0, env, sigs, ret);
                },
                _ => {},
            }
        },
        Statement::If(c, a, b) => {
            match n {
                Statement::If(c2, a2, b2) => {
                    lemma_filled_typed(c, c2, env, sigs);
                    lemma_block_calls(a@, a2@, 0, env, sigs, ret);
                    lemma_block_calls(b@, b2@, 0, block_outcome(a@, 0, env, sigs, ret)->Ok_0, sigs, ret);
                },
                _ => {},
            }
        },
        Statement::Assignment(_, _, x) => {
            match n {
                Statement::Assignment(_, _, x2) => {
                    lemma_filled_typed(x, x2, env, sigs);
                },
                _ => {},
            }
        },
        Statement::Mutate(_, x) => {
            match n {
                Statement::Mutate(_, x2) => {
                    lemma_filled_typed(x, x2, env, sigs);
                },
                _ => {},
            }
        },
        Statement::FnCall(c) => {
            match n {
                Statement::FnCall(c2) => {
                    lemma_filled_typed(Expression::FnCall(c), Expression::FnCall(c2), env, sigs);
                },
                _ => {},
            }
        },
        Statement::Return(Some(x)) => {
            match n {
                Statement::Return(Some(x2)) => {
                    lemma_filled_typed(x, x2, env, sigs);
                },
                _ => {},
            }
        },
        Statement::Return(None) => {},
    }
}

proof fn lemma_block_calls(os: Seq<Statement>, ns: Seq<Statement>, i: int, env: Env, sigs: Env, ret: Option<TypeView>)
    requires
        block_outcome(os, i, env, sigs, ret) is Ok,
        block_filled(os, ns, i, env, sigs, ret),
        ns.len() == os.len(),
    ensures
        block_calls_match(ns, i, sigs),
    decreases os, os.len() - i,
{
    if 0 <= i < os.len() {
        lemma_stmt_calls(os[i], ns[i], env, sigs, ret);
        lemma_block_calls(os, ns, i + 1, stmt_outcome(os[i], env, sigs, ret)->Ok_0, sigs, ret);
    }
}

/// After a successful pass over a block, every call in the typed block passes
/// exactly as many arguments as its callee's recorded signature has
/// parameters, each of the parameter's type: a call that does not fit its
/// signature is a fault of the type pass and never reaches lowering.
pub proof fn lemma_calls_match(os: Seq<Statement>, ns: Seq<Statement>, env: Env, sigs: Env, ret: Option<TypeView>)
    requires
        block_outcome(os, 0, env, sigs, ret) is Ok,
        block_filled(os, ns, 0, env, sigs, ret),
        ns.len() == os.len(),
    ensures
        block_calls_match(ns, 0, sigs),
{
    lemma_block_calls(os, ns, 0, env, sigs, ret);
}

proof fn lemma_lower_args_len(args: Seq<Expression>, i: int, slots: Slots, sigs: Env, base: nat)
    requires
        0 <= i <= args.len(),
        lower_args(args, i, slots, sigs, base) is Ok,
    ensures
        lower_args(args, i, slots, sigs, base)->Ok_0.1.len() == args.len() - i,
    decreases args.len() - i,
{
    if i < args.len() {
        let rs = lower_expr(args[i], slots, sigs, base)->Ok_0.0;
        lemma_lower_args_len(args, i + 1, slots, sigs, base + rs.len());
    }
}

/// A call lowers to the requests of its arguments and a last `Call` request
/// that passes one value for each argument; in a typed tree (see
/// `lemma_calls_match`) that is one for each parameter of the callee.
pub proof fn lemma_call_lowering(c: FunctionCall, slots: Slots, sigs: Env, base: nat)
    requires
        lower_expr(Expression::FnCall(c), slots, sigs, base) is Ok,
    ensures
        ({
            let rs = lower_expr(Expression::FnCall(c), slots, sigs, base)->Ok_0.0;
            &&& rs.len() > 0
            &&& rs.last() matches RequestView::Call(name, vs)
            &&& name == c.name@
            &&& vs.len() == c.args@.len()
            &&& (calls_match(Expression::FnCall(c), sigs) ==> vs.len() == lookup(sigs, c.name@)->Some_0->Func_0.len())
        }),
{
    lemma_lower_args_len(c.args@, 0, slots, sigs, base);
}


/// Every call in the typed function `n` fits its callee's signature.
pub open spec fn fn_calls_match(n: TopLevel, sigs: Env) -> bool {
    match n {
        TopLevel::FnDecl(_, _, _, body) => block_calls_match(body@, 0, sigs),
        _ => true,
    }
}

/// After a successful pass over a whole program (what `TypeFiller::fill`
/// returns), every call in the typed program passes exactly as many arguments
/// as its callee's recorded signature has parameters, each of the parameter's
/// type.
pub proof fn lemma_program_calls_match(tree: Seq<TopLevel>, typed: Seq<TopLevel>)
    requires
        program_outcome(tree) is Ok,
        typed.len() == tree.len(),
        forall|k: int| 0 <= k < tree.len() ==> #[trigger] top_filled(tree[k], typed[k], program_outcome(tree)->Ok_0),
    ensures
        forall|k: int| 0 <= k < typed.len() ==> #[trigger] fn_calls_match(typed[k], program_outcome(tree)->Ok_0),
{
    let sigs = program_outcome(tree)->Ok_0;
    assert forall|k: int| 0 <= k < typed.len() implies #[trigger] fn_calls_match(typed[k], sigs) by {
        assert(top_filled(tree[k], typed[k], sigs));
        match (tree[k], typed[k]) {
            (TopLevel::FnDecl(_, ft, params, body), TopLevel::FnDecl(_, _, _, body2)) => {
                lemma_tops_ok(tree, 0, sigs, k);
                let env = seed(params@, params_view(ft.params@), 0, seq![])->Ok_0;
                lemma_calls_match(body@, body2@, env, sigs, ret_view(ft.ret));
            },
            _ => {},
        }
    }
}

} // verus!
