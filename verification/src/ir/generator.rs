//! Generation of the intermediate representation from a program: the
//! declarations of the standard library's functions, and a `main` function
//! whose entry block computes the program's top-level `let` bindings.
//!
//! Each binding gets a stack slot (a register holding its address); reading
//! a bound name loads from its slot. Registers are named `%0`, `%1`, ... in
//! the order in which they are made.
use vstd::prelude::*;
use crate::ast::{Expression, BinaryOperator, LetBinding, Item, Program};
use crate::ir::{IrModule, IrFunction, IrParam, BasicBlock, IrInstruction, IrTerminator, IrValue, IrConstant, IrType, IrPredicate};
use crate::text::{decimal, push_decimal, push_str_chars, string_from_chars, chars_of, same_chars};

verus! {

// ---------------------------------------------------------------------
// Mathematical view of the representation
// ---------------------------------------------------------------------

pub enum SpecIrType {
    Void,
    Boolean,
    Integer(u32),
    Float(u32),
    String,
    Vector(Box<SpecIrType>, u32),
    Matrix(Box<SpecIrType>, u32, u32),
    Pointer(Box<SpecIrType>),
    Function { params: Seq<SpecIrType>, return_type: Box<SpecIrType> },
}

pub enum SpecIrConstant {
    Null,
    Boolean(bool),
    Integer(i64),
    Float(Seq<char>),
    String(Seq<char>),
    Vector(Seq<SpecIrConstant>),
    Matrix { rows: u32, cols: u32, data: Seq<SpecIrConstant> },
}

pub enum SpecIrValue {
    Constant(SpecIrConstant),
    Register(Seq<char>),
    Global(Seq<char>),
}

pub enum SpecIrInstruction {
    Add { result: SpecIrValue, left: SpecIrValue, right: SpecIrValue },
    Sub { result: SpecIrValue, left: SpecIrValue, right: SpecIrValue },
    Mul { result: SpecIrValue, left: SpecIrValue, right: SpecIrValue },
    Div { result: SpecIrValue, left: SpecIrValue, right: SpecIrValue },
    Pow { result: SpecIrValue, base: SpecIrValue, exp: SpecIrValue },
    Load { result: SpecIrValue, address: SpecIrValue },
    Store { value: SpecIrValue, address: SpecIrValue },
    Alloca { result: SpecIrValue, alloc_type: SpecIrType },
    VectorCreate { result: SpecIrValue, elements: Seq<SpecIrValue> },
    MatrixCreate { result: SpecIrValue, rows: u32, cols: u32, elements: Seq<SpecIrValue> },
    VectorIndex { result: SpecIrValue, vector: SpecIrValue, index: SpecIrValue },
    MatrixIndex { result: SpecIrValue, matrix: SpecIrValue, row: SpecIrValue, col: SpecIrValue },
    PhysicsStep { timestep: SpecIrValue },
    ApplyForce { object: SpecIrValue, force: SpecIrValue },
    GetPosition { result: SpecIrValue, object: SpecIrValue },
    SetPosition { object: SpecIrValue, position: SpecIrValue },
    Call { result: Option<SpecIrValue>, function: Seq<char>, args: Seq<SpecIrValue> },
    Cast { result: SpecIrValue, value: SpecIrValue, target_type: SpecIrType },
    ICmp { result: SpecIrValue, predicate: IrPredicate, left: SpecIrValue, right: SpecIrValue },
    FCmp { result: SpecIrValue, predicate: IrPredicate, left: SpecIrValue, right: SpecIrValue },
}

pub open spec fn view_ir_type(t: IrType) -> SpecIrType
    decreases t,
{
    match t {
        IrType::Void => SpecIrType::Void,
        IrType::Boolean => SpecIrType::Boolean,
        IrType::Integer(b) => SpecIrType::Integer(b),
        IrType::Float(b) => SpecIrType::Float(b),
        IrType::String => SpecIrType::String,
        IrType::Vector(e, n) => SpecIrType::Vector(Box::new(view_ir_type(*e)), n),
        IrType::Matrix(e, r, c) => SpecIrType::Matrix(Box::new(view_ir_type(*e)), r, c),
        IrType::Pointer(p) => SpecIrType::Pointer(Box::new(view_ir_type(*p))),
        IrType::Function { params, return_type } => SpecIrType::Function {
            params: view_ir_types(params@),
            return_type: Box::new(view_ir_type(*return_type)),
        },
    }
}

pub open spec fn view_ir_types(s: Seq<IrType>) -> Seq<SpecIrType>
    decreases s,
{
    if s.len() == 0 {
        Seq::empty()
    } else {
        seq![view_ir_type(s[0])] + view_ir_types(s.subrange(1, s.len() as int))
    }
}

pub open spec fn view_constant(c: IrConstant) -> SpecIrConstant
    decreases c,
{
    match c {
        IrConstant::Null => SpecIrConstant::Null,
        IrConstant::Boolean(b) => SpecIrConstant::Boolean(b),
        IrConstant::Integer(n) => SpecIrConstant::Integer(n),
        IrConstant::Float(t) => SpecIrConstant::Float(t@),
        IrConstant::String(s) => SpecIrConstant::String(s@),
        IrConstant::Vector(cs) => SpecIrConstant::Vector(view_constants(cs@)),
        IrConstant::Matrix { rows, cols, data } => SpecIrConstant::Matrix { rows, cols, data: view_constants(data@) },
    }
}

pub open spec fn view_constants(s: Seq<IrConstant>) -> Seq<SpecIrConstant>
    decreases s,
{
    if s.len() == 0 {
        Seq::empty()
    } else {
        seq![view_constant(s[0])] + view_constants(s.subrange(1, s.len() as int))
    }
}

pub open spec fn view_value(v: IrValue) -> SpecIrValue {
    match v {
        IrValue::Constant(c) => SpecIrValue::Constant(view_constant(c)),
        IrValue::Register(r) => SpecIrValue::Register(r@),
        IrValue::Global(g) => SpecIrValue::Global(g@),
    }
}

pub open spec fn view_values(s: Seq<IrValue>) -> Seq<SpecIrValue> {
    s.map_values(|v: IrValue| view_value(v))
}

pub open spec fn view_instruction(i: IrInstruction) -> SpecIrInstruction {
    match i {
        IrInstruction::Add { result, left, right } => SpecIrInstruction::Add {
            result: view_value(result),
            left: view_value(left),
            right: view_value(right),
        },
        IrInstruction::Sub { result, left, right } => SpecIrInstruction::Sub {
            result: view_value(result),
            left: view_value(left),
            right: view_value(right),
        },
        IrInstruction::Mul { result, left, right } => SpecIrInstruction::Mul {
            result: view_value(result),
            left: view_value(left),
            right: view_value(right),
        },
        IrInstruction::Div { result, left, right } => SpecIrInstruction::Div {
            result: view_value(result),
            left: view_value(left),
            right: view_value(right),
        },
        IrInstruction::Pow { result, base, exp } => SpecIrInstruction::Pow {
            result: view_value(result),
            base: view_value(base),
            exp: view_value(exp),
        },
        IrInstruction::Load { result, address } => SpecIrInstruction::Load {
            result: view_value(result),
            address: view_value(address),
        },
        IrInstruction::Store { value, address } => SpecIrInstruction::Store {
            value: view_value(value),
            address: view_value(address),
        },
        IrInstruction::Alloca { result, alloc_type } => SpecIrInstruction::Alloca {
            result: view_value(result),
            alloc_type: view_ir_type(alloc_type),
        },
        IrInstruction::VectorCreate { result, elements } => SpecIrInstruction::VectorCreate {
            result: view_value(result),
            elements: view_values(elements@),
        },
        IrInstruction::MatrixCreate { result, rows, cols, elements } => SpecIrInstruction::MatrixCreate {
            result: view_value(result),
            rows,
            cols,
            elements: view_values(elements@),
        },
        IrInstruction::VectorIndex { result, vector, index } => SpecIrInstruction::VectorIndex {
            result: view_value(result),
            vector: view_value(vector),
            index: view_value(index),
        },
        IrInstruction::MatrixIndex { result, matrix, row, col } => SpecIrInstruction::MatrixIndex {
            result: view_value(result),
            matrix: view_value(matrix),
            row: view_value(row),
            col: view_value(col),
        },
        IrInstruction::PhysicsStep { timestep } => SpecIrInstruction::PhysicsStep { timestep: view_value(timestep) },
        IrInstruction::ApplyForce { object, force } => SpecIrInstruction::ApplyForce {
            object: view_value(object),
            force: view_value(force),
        },
        IrInstruction::GetPosition { result, object } => SpecIrInstruction::GetPosition {
            result: view_value(result),
            object: view_value(object),
        },
        IrInstruction::SetPosition { object, position } => SpecIrInstruction::SetPosition {
            object: view_value(object),
            position: view_value(position),
        },
        IrInstruction::Call { result, function, args } => SpecIrInstruction::Call {
            result: match result {
                Some(r) => Some(view_value(r)),
                None => None,
            },
            function: function@,
            args: view_values(args@),
        },
        IrInstruction::Cast { result, value, target_type } => SpecIrInstruction::Cast {
            result: view_value(result),
            value: view_value(value),
            target_type: view_ir_type(target_type),
        },
        IrInstruction::ICmp { result, predicate, left, right } => SpecIrInstruction::ICmp {
            result: view_value(result),
            predicate,
            left: view_value(left),
            right: view_value(right),
        },
        IrInstruction::FCmp { result, predicate, left, right } => SpecIrInstruction::FCmp {
            result: view_value(result),
            predicate,
            left: view_value(left),
            right: view_value(right),
        },
    }
}

pub open spec fn view_instructions(s: Seq<IrInstruction>) -> Seq<SpecIrInstruction> {
    s.map_values(|i: IrInstruction| view_instruction(i))
}

// ---------------------------------------------------------------------
// What the generator makes
// ---------------------------------------------------------------------

/// The name of register number `n`.
pub open spec fn register_name(n: nat) -> Seq<char> {
    "%"@ + decimal(n)
}

/// Register number `n`.
pub open spec fn reg(n: nat) -> SpecIrValue {
    SpecIrValue::Register(register_name(n))
}

/// The slot register of the latest binding of `name`.
pub open spec fn lookup_symbol(syms: Seq<(Seq<char>, Seq<char>)>, name: Seq<char>) -> Option<Seq<char>>
    decreases syms.len(),
{
    if syms.len() == 0 {
        None
    } else if syms.last().0 == name {
        Some(syms.last().1)
    } else {
        lookup_symbol(syms.drop_last(), name)
    }
}

/// The instruction of a binary operator: arithmetic, or a float comparison
/// for `==` and `<`; the other operators are given an addition.
pub open spec fn binary_instruction(op: BinaryOperator, result: SpecIrValue, l: SpecIrValue, r: SpecIrValue) -> SpecIrInstruction {
    match op {
        BinaryOperator::Sub => SpecIrInstruction::Sub { result, left: l, right: r },
        BinaryOperator::Mul => SpecIrInstruction::Mul { result, left: l, right: r },
        BinaryOperator::Div => SpecIrInstruction::Div { result, left: l, right: r },
        BinaryOperator::Pow => SpecIrInstruction::Pow { result, base: l, exp: r },
        BinaryOperator::Eq => SpecIrInstruction::FCmp { result, predicate: IrPredicate::Equal, left: l, right: r },
        BinaryOperator::Lt => SpecIrInstruction::FCmp { result, predicate: IrPredicate::Less, left: l, right: r },
        _ => SpecIrInstruction::Add { result, left: l, right: r },
    }
}

/// The two operands an arithmetic or comparison instruction reads, in
/// order: left then right (base then exponent).
pub open spec fn instruction_operands(i: SpecIrInstruction) -> Option<(SpecIrValue, SpecIrValue)> {
    match i {
        SpecIrInstruction::Add { left, right, .. } => Some((left, right)),
        SpecIrInstruction::Sub { left, right, .. } => Some((left, right)),
        SpecIrInstruction::Mul { left, right, .. } => Some((left, right)),
        SpecIrInstruction::Div { left, right, .. } => Some((left, right)),
        SpecIrInstruction::Pow { base, exp, .. } => Some((base, exp)),
        SpecIrInstruction::FCmp { left, right, .. } => Some((left, right)),
        SpecIrInstruction::ICmp { left, right, .. } => Some((left, right)),
        _ => None,
    }
}

/// The register an instruction writes, if it writes one.
pub open spec fn instruction_result(i: SpecIrInstruction) -> Option<SpecIrValue> {
    match i {
        SpecIrInstruction::Add { result, .. } => Some(result),
        SpecIrInstruction::Sub { result, .. } => Some(result),
        SpecIrInstruction::Mul { result, .. } => Some(result),
        SpecIrInstruction::Div { result, .. } => Some(result),
        SpecIrInstruction::Pow { result, .. } => Some(result),
        SpecIrInstruction::FCmp { result, .. } => Some(result),
        SpecIrInstruction::ICmp { result, .. } => Some(result),
        _ => None,
    }
}

/// The operator an instruction computes: the four arithmetic operators,
/// the power, and the comparisons for equality and order.
pub open spec fn instruction_operator(i: SpecIrInstruction) -> Option<BinaryOperator> {
    match i {
        SpecIrInstruction::Add { .. } => Some(BinaryOperator::Add),
        SpecIrInstruction::Sub { .. } => Some(BinaryOperator::Sub),
        SpecIrInstruction::Mul { .. } => Some(BinaryOperator::Mul),
        SpecIrInstruction::Div { .. } => Some(BinaryOperator::Div),
        SpecIrInstruction::Pow { .. } => Some(BinaryOperator::Pow),
        SpecIrInstruction::FCmp { predicate: IrPredicate::Equal, .. } => Some(BinaryOperator::Eq),
        SpecIrInstruction::FCmp { predicate: IrPredicate::Less, .. } => Some(BinaryOperator::Lt),
        _ => None,
    }
}

/// The name called by a call expression: the callee's name when it is an
/// identifier, `unknown` otherwise.
pub open spec fn callee_name(f: Expression) -> Seq<char> {
    match f {
        Expression::Identifier(n) => n@,
        _ => "unknown"@,
    }
}

/// What generating an expression gives: the next free register number, the
/// instructions, and the value of the expression.
pub struct GenExpr {
    pub next: nat,
    pub code: Seq<SpecIrInstruction>,
    pub value: SpecIrValue,
}

/// What generating a list of expressions gives: their values in order.
pub struct GenList {
    pub next: nat,
    pub code: Seq<SpecIrInstruction>,
    pub values: Seq<SpecIrValue>,
}

pub open spec fn constant_of(c: SpecIrConstant, next: nat) -> GenExpr {
    GenExpr { next, code: Seq::empty(), value: SpecIrValue::Constant(c) }
}

/// The code of an expression, with registers numbered from `c` and the
/// variables of `syms`. Literals are constants; a bound name is loaded from
/// its slot and an unbound one is `null`; operators, calls, arrays and
/// matrices compute their operands from left to right (matrices row by
/// row) and put their result in a new register; every other expression is
/// `null`.
pub open spec fn gen_expr(c: nat, syms: Seq<(Seq<char>, Seq<char>)>, e: Expression) -> GenExpr
    decreases e,
{
    match e {
        Expression::IntLiteral(n) => constant_of(SpecIrConstant::Integer(n), c),
        Expression::FloatLiteral(t) => constant_of(SpecIrConstant::Float(t@), c),
        Expression::StringLiteral(s) => constant_of(SpecIrConstant::String(s@), c),
        Expression::BoolLiteral(b) => constant_of(SpecIrConstant::Boolean(b), c),
        Expression::Identifier(n) => match lookup_symbol(syms, n@) {
            Some(a) => GenExpr {
                next: c + 1,
                code: seq![SpecIrInstruction::Load { result: reg(c), address: SpecIrValue::Register(a) }],
                value: reg(c),
            },
            None => constant_of(SpecIrConstant::Null, c),
        },
        Expression::BinaryOp { left, operator, right } => {
            let l = gen_expr(c, syms, *left);
            let r = gen_expr(l.next, syms, *right);
            GenExpr {
                next: r.next + 1,
                code: l.code + r.code + seq![binary_instruction(operator, reg(r.next), l.value, r.value)],
                value: reg(r.next),
            }
        },
        Expression::FunctionCall { function, args } => {
            let a = gen_exprs(c, syms, args@);
            GenExpr {
                next: a.next + 1,
                code: a.code.push(
                    SpecIrInstruction::Call { result: Some(reg(a.next)), function: callee_name(*function), args: a.values },
                ),
                value: reg(a.next),
            }
        },
        Expression::ArrayLiteral(es) => {
            let a = gen_exprs(c, syms, es@);
            GenExpr {
                next: a.next + 1,
                code: a.code.push(SpecIrInstruction::VectorCreate { result: reg(a.next), elements: a.values }),
                value: reg(a.next),
            }
        },
        Expression::MatrixLiteral(rows) => {
            let a = gen_rows(c, syms, rows@);
            GenExpr {
                next: a.next + 1,
                code: a.code.push(
                    SpecIrInstruction::MatrixCreate {
                        result: reg(a.next),
                        rows: rows.len() as u32,
                        cols: if rows.len() > 0 { rows@[0].len() as u32 } else { 0 },
                        elements: a.values,
                    },
                ),
                value: reg(a.next),
            }
        },
        _ => constant_of(SpecIrConstant::Null, c),
    }
}

/// The code of expressions one after the other.
pub open spec fn gen_exprs(c: nat, syms: Seq<(Seq<char>, Seq<char>)>, s: Seq<Expression>) -> GenList
    decreases s,
{
    if s.len() == 0 {
        GenList { next: c, code: Seq::empty(), values: Seq::empty() }
    } else {
        let p = gen_exprs(c, syms, s.subrange(0, s.len() - 1));
        let x = gen_expr(p.next, syms, s[s.len() - 1]);
        GenList { next: x.next, code: p.code + x.code, values: p.values.push(x.value) }
    }
}

/// The code of the rows of a matrix one after the other, their values
/// flattened row by row.
pub open spec fn gen_rows(c: nat, syms: Seq<(Seq<char>, Seq<char>)>, rows: Seq<Vec<Expression>>) -> GenList
    decreases rows,
{
    if rows.len() == 0 {
        GenList { next: c, code: Seq::empty(), values: Seq::empty() }
    } else {
        let p = gen_rows(c, syms, rows.subrange(0, rows.len() - 1));
        let x = gen_exprs(p.next, syms, rows[rows.len() - 1]@);
        GenList { next: x.next, code: p.code + x.code, values: p.values + x.values }
    }
}

/// What generating bindings gives: the next free register number, the
/// instructions, and the variables bound afterwards.
pub struct GenBindings {
    pub next: nat,
    pub code: Seq<SpecIrInstruction>,
    pub symbols: Seq<(Seq<char>, Seq<char>)>,
}

/// The code of `let name = value`: a float slot in a new register, the code
/// of the value, a store of the value into the slot; the name is bound to
/// the slot afterwards.
pub open spec fn gen_let(c: nat, syms: Seq<(Seq<char>, Seq<char>)>, b: LetBinding) -> GenBindings {
    let x = gen_expr(c + 1, syms, b.value);
    GenBindings {
        next: x.next,
        code: seq![SpecIrInstruction::Alloca { result: reg(c), alloc_type: SpecIrType::Float(64) }] + x.code
            + seq![SpecIrInstruction::Store { value: x.value, address: reg(c) }],
        symbols: syms.push((b.name@, register_name(c))),
    }
}

/// The code of the top-level items in order: their `let` bindings; the
/// other items give no code.
pub open spec fn gen_items(c: nat, syms: Seq<(Seq<char>, Seq<char>)>, items: Seq<Item>) -> GenBindings
    decreases items.len(),
{
    if items.len() == 0 {
        GenBindings { next: c, code: Seq::empty(), symbols: syms }
    } else {
        let p = gen_items(c, syms, items.drop_last());
        match items.last() {
            Item::LetBinding(b) => {
                let x = gen_let(p.next, p.symbols, b);
                GenBindings { next: x.next, code: p.code + x.code, symbols: x.symbols }
            },
            _ => p,
        }
    }
}

proof fn lemma_gen_grows(c: nat, syms: Seq<(Seq<char>, Seq<char>)>, e: Expression)
    ensures
        gen_expr(c, syms, e).next >= c,
    decreases e,
{
    match e {
        Expression::BinaryOp { left, operator, right } => {
            lemma_gen_grows(c, syms, *left);
            lemma_gen_grows(gen_expr(c, syms, *left).next, syms, *right);
        },
        Expression::FunctionCall { function, args } => {
            lemma_gen_list_grows(c, syms, args@);
        },
        Expression::ArrayLiteral(es) => {
            lemma_gen_list_grows(c, syms, es@);
        },
        Expression::MatrixLiteral(rows) => {
            lemma_gen_rows_grows(c, syms, rows@);
        },
        _ => {},
    }
}

proof fn lemma_gen_list_grows(c: nat, syms: Seq<(Seq<char>, Seq<char>)>, s: Seq<Expression>)
    ensures
        gen_exprs(c, syms, s).next >= c,
    decreases s,
{
    if s.len() > 0 {
        let q = s.subrange(0, s.len() - 1);
        lemma_gen_list_grows(c, syms, q);
        lemma_gen_grows(gen_exprs(c, syms, q).next, syms, s[s.len() - 1]);
    }
}

proof fn lemma_gen_rows_grows(c: nat, syms: Seq<(Seq<char>, Seq<char>)>, rows: Seq<Vec<Expression>>)
    ensures
        gen_rows(c, syms, rows).next >= c,
    decreases rows,
{
    if rows.len() > 0 {
        let q = rows.subrange(0, rows.len() - 1);
        lemma_gen_rows_grows(c, syms, q);
        lemma_gen_list_grows(gen_rows(c, syms, q).next, syms, rows[rows.len() - 1]@);
    }
}

/// Generation never goes back to a register number: the next free number
/// after an expression, and after top-level items, is at least the one
/// before.
pub proof fn law_registers_only_advance(c: nat, syms: Seq<(Seq<char>, Seq<char>)>, e: Expression, items: Seq<Item>)
    ensures
        gen_expr(c, syms, e).next >= c,
        gen_items(c, syms, items).next >= c,
{
    lemma_gen_grows(c, syms, e);
    lemma_gen_items_grows(c, syms, items);
}

proof fn lemma_gen_items_grows(c: nat, syms: Seq<(Seq<char>, Seq<char>)>, items: Seq<Item>)
    ensures
        gen_items(c, syms, items).next >= c,
    decreases items.len(),
{
    if items.len() > 0 {
        lemma_gen_items_grows(c, syms, items.drop_last());
        let p = gen_items(c, syms, items.drop_last());
        if let Item::LetBinding(b) = items.last() {
            lemma_gen_grows(p.next + 1, p.symbols, b.value);
        }
    }
}

/// Generating a prefix of a list reaches no further register than the list.
proof fn lemma_gen_list_prefix(c: nat, syms: Seq<(Seq<char>, Seq<char>)>, s: Seq<Expression>, k: int)
    requires
        0 <= k <= s.len(),
    ensures
        gen_exprs(c, syms, s.take(k)).next <= gen_exprs(c, syms, s).next,
    decreases s.len(),
{
    if k < s.len() {
        let q = s.subrange(0, s.len() - 1);
        assert(q.take(k) =~= s.take(k));
        lemma_gen_list_prefix(c, syms, q, k);
        lemma_gen_grows(gen_exprs(c, syms, q).next, syms, s[s.len() - 1]);
    } else {
        assert(s.take(k) =~= s);
    }
}

proof fn lemma_gen_rows_prefix(c: nat, syms: Seq<(Seq<char>, Seq<char>)>, rows: Seq<Vec<Expression>>, k: int)
    requires
        0 <= k <= rows.len(),
    ensures
        gen_rows(c, syms, rows.take(k)).next <= gen_rows(c, syms, rows).next,
    decreases rows.len(),
{
    if k < rows.len() {
        let q = rows.subrange(0, rows.len() - 1);
        assert(q.take(k) =~= rows.take(k));
        lemma_gen_rows_prefix(c, syms, q, k);
        lemma_gen_list_grows(gen_rows(c, syms, q).next, syms, rows[rows.len() - 1]@);
    } else {
        assert(rows.take(k) =~= rows);
    }
}

proof fn lemma_gen_items_prefix(c: nat, syms: Seq<(Seq<char>, Seq<char>)>, items: Seq<Item>, k: int)
    requires
        0 <= k <= items.len(),
    ensures
        gen_items(c, syms, items.take(k)).next <= gen_items(c, syms, items).next,
    decreases items.len(),
{
    if k < items.len() {
        let q = items.drop_last();
        assert(q.take(k) =~= items.take(k));
        lemma_gen_items_prefix(c, syms, q, k);
        let p = gen_items(c, syms, q);
        if let Item::LetBinding(b) = items.last() {
            lemma_gen_grows(p.next + 1, p.symbols, b.value);
        }
    } else {
        assert(items.take(k) =~= items);
    }
}

/// The float type of 64 bits.
pub open spec fn f64_type() -> SpecIrType {
    SpecIrType::Float(64)
}

/// The name of parameter number `i` of a declared function.
pub open spec fn arg_name(i: nat) -> Seq<char> {
    "arg"@ + decimal(i)
}

/// `f` declares the external function `name` with these parameter types,
/// named `arg0`, `arg1`, ..., and this return type.
pub open spec fn declares(f: IrFunction, name: Seq<char>, ret: SpecIrType, params: Seq<SpecIrType>) -> bool {
    &&& f.name@ == name
    &&& view_ir_type(f.return_type) == ret
    &&& f.params@.len() == params.len()
    &&& forall|i: int| 0 <= i < params.len() ==> (#[trigger] f.params@[i]).name@ == arg_name(i as nat)
        && view_ir_type(f.params@[i].param_type) == params[i]
    &&& f.basic_blocks@.len() == 0
    &&& f.is_external
}

/// Whether a block ends by returning nothing.
pub open spec fn returns_nothing(b: BasicBlock) -> bool {
    b.terminator matches IrTerminator::Return(None)
}

/// `f` is the `main` function of a program of `n_items` items whose
/// bindings gave `g`: an `entry` block with their code, and, when there is
/// more than one item, an empty block `additional_<block>`.
pub open spec fn main_function_of(f: IrFunction, g: GenBindings, n_items: nat, block: nat) -> bool {
    &&& f.name@ == "main"@
    &&& f.params@.len() == 0
    &&& view_ir_type(f.return_type) == SpecIrType::Void
    &&& !f.is_external
    &&& f.basic_blocks@.len() == (if n_items > 1 { 2nat } else { 1nat })
    &&& f.basic_blocks@[0].label@ == "entry"@
    &&& view_instructions(f.basic_blocks@[0].instructions@) == g.code
    &&& returns_nothing(f.basic_blocks@[0])
    &&& n_items > 1 ==> {
        &&& f.basic_blocks@[1].label@ == "additional_"@ + decimal(block)
        &&& f.basic_blocks@[1].instructions@.len() == 0
        &&& returns_nothing(f.basic_blocks@[1])
    }
}

/// The module generated for a program: the declarations of `sin`, `cos`,
/// `sqrt`, `pow` and `print`, then `main`.
pub open spec fn module_of(m: IrModule, g: GenBindings, n_items: nat, block: nat) -> bool {
    &&& m.functions@.len() == 6
    &&& declares(m.functions@[0], "sin"@, f64_type(), seq![f64_type()])
    &&& declares(m.functions@[1], "cos"@, f64_type(), seq![f64_type()])
    &&& declares(m.functions@[2], "sqrt"@, f64_type(), seq![f64_type()])
    &&& declares(m.functions@[3], "pow"@, f64_type(), seq![f64_type(), f64_type()])
    &&& declares(m.functions@[4], "print"@, SpecIrType::Void, seq![SpecIrType::String])
    &&& main_function_of(m.functions@[5], g, n_items, block)
    &&& m.globals@.len() == 0
    &&& m.types@.len() == 0
}

/// The declaration of an external function.
fn external_function(name: &str, return_type: IrType, param_types: Vec<IrType>) -> (f: IrFunction)
    ensures
        f.name@ == name@,
        view_ir_type(f.return_type) == view_ir_type(return_type),
        f.params@.len() == param_types@.len(),
        forall|i: int| 0 <= i < param_types@.len() ==> (#[trigger] f.params@[i]).name@ == arg_name(i as nat)
            && view_ir_type(f.params@[i].param_type) == view_ir_type(param_types@[i]),
        f.basic_blocks@.len() == 0,
        f.is_external,
{
    let mut params: Vec<IrParam> = Vec::new();
    let mut types = param_types;
    let n = types.len();
    let mut i: usize = 0;
    while i < n
        invariant
            n == param_types@.len(),
            i <= n,
            types@ == param_types@.subrange(i as int, n as int),
            params@.len() == i,
            forall|k: int| 0 <= k < i ==> (#[trigger] params@[k]).name@ == arg_name(k as nat)
                && view_ir_type(params@[k].param_type) == view_ir_type(param_types@[k]),
        decreases n - i,
    {
        let t = types.remove(0);
        let mut v: Vec<char> = Vec::new();
        push_str_chars(&mut v, "arg");
        push_decimal(&mut v, i as u64);
        params.push(IrParam { name: string_from_chars(v.as_slice()), param_type: t });
        proof {
            assert(types@ =~= param_types@.subrange(i + 1, n as int));
        }
        i = i + 1;
    }
    IrFunction { name: name.to_owned(), params, return_type, basic_blocks: Vec::new(), is_external: true }
}

/// Float parameters, as many as asked.
fn float_params(n: usize) -> (v: Vec<IrType>)
    ensures
        v@.len() == n,
        forall|i: int| 0 <= i < n ==> view_ir_type(#[trigger] v@[i]) == f64_type(),
{
    let mut v: Vec<IrType> = Vec::new();
    for i in 0..n
        invariant
            v@.len() == i,
            forall|k: int| 0 <= k < i ==> view_ir_type(#[trigger] v@[k]) == f64_type(),
    {
        v.push(IrType::Float(64));
    }
    v
}

// ---------------------------------------------------------------------
// The generator
// ---------------------------------------------------------------------

/// The characters of an optional string.
pub open spec fn opt_text(s: Option<String>) -> Option<Seq<char>> {
    match s {
        Some(t) => Some(t@),
        None => None,
    }
}

/// Generates the representation of programs. It numbers registers and
/// extra blocks across the programs it is given, and keeps the variables
/// bound so far.
pub struct IrGenerator {
    current_function: Option<String>,
    current_block: Option<String>,
    register_counter: u32,
    block_counter: u32,
    symbol_table: Vec<(String, String)>,
}

impl IrGenerator {
    /// The number of the next register.
    pub closed spec fn counter(&self) -> nat {
        self.register_counter as nat
    }

    /// The number of the next extra block.
    pub closed spec fn blocks_made(&self) -> nat {
        self.block_counter as nat
    }

    /// The variables bound, oldest first, each with its slot register.
    pub closed spec fn symbols(&self) -> Seq<(Seq<char>, Seq<char>)> {
        self.symbol_table@.map_values(|p: (String, String)| (p.0@, p.1@))
    }

    /// The function and block being generated, if any.
    pub closed spec fn position(&self) -> (Option<Seq<char>>, Option<Seq<char>>) {
        (opt_text(self.current_function), opt_text(self.current_block))
    }

    /// A generator that has made nothing yet.
    pub fn new() -> (g: Self)
        ensures
            g.counter() == 0,
            g.blocks_made() == 0,
            g.symbols() == Seq::<(Seq<char>, Seq<char>)>::empty(),
            g.position() == (None::<Seq<char>>, None::<Seq<char>>),
    {
        let g = IrGenerator {
            current_function: None,
            current_block: None,
            register_counter: 0,
            block_counter: 0,
            symbol_table: Vec::new(),
        };
        proof {
            assert(g.symbols() =~= Seq::<(Seq<char>, Seq<char>)>::empty());
        }
        g
    }

    /// A new register name.
    fn next_register(&mut self) -> (r: String)
        requires
            old(self).counter() < u32::MAX,
        ensures
            r@ == register_name(old(self).counter()),
            final(self).counter() == old(self).counter() + 1,
            final(self).symbol_table == old(self).symbol_table,
            final(self).block_counter == old(self).block_counter,
            final(self).current_function == old(self).current_function,
            final(self).current_block == old(self).current_block,
    {
        let mut v: Vec<char> = Vec::new();
        push_str_chars(&mut v, "%");
        push_decimal(&mut v, self.register_counter as u64);
        self.register_counter = self.register_counter + 1;
        string_from_chars(v.as_slice())
    }

    /// The slot register of the latest binding of `name`.
    fn lookup(&self, name: &str) -> (r: Option<String>)
        ensures
            opt_text(r) == lookup_symbol(self.symbols(), name@),
    {
        let target = chars_of(name);
        let ghost syms = self.symbols();
        let mut i: usize = self.symbol_table.len();
        proof {
            assert(syms.take(i as int) =~= syms);
        }
        while i > 0
            invariant
                i <= self.symbol_table@.len(),
                syms == self.symbols(),
                target@ == name@,
                lookup_symbol(syms, name@) == lookup_symbol(syms.take(i as int), name@),
            decreases i,
        {
            let ghost t = syms.take(i as int);
            proof {
                assert(t.drop_last() =~= syms.take(i - 1));
                assert(t.last() == syms[i - 1]);
            }
            let cand = chars_of(self.symbol_table[i - 1].0.as_str());
            if same_chars(cand.as_slice(), target.as_slice()) {
                return Some(self.symbol_table[i - 1].1.clone());
            }
            i = i - 1;
        }
        None
    }

    /// Generates the code of `expr` onto `instructions` and gives its value.
    fn generate_expression(&mut self, expr: &Expression, instructions: &mut Vec<IrInstruction>) -> (v: IrValue)
        requires
            gen_expr(old(self).counter(), old(self).symbols(), *expr).next <= u32::MAX,
        ensures
            view_value(v) == gen_expr(old(self).counter(), old(self).symbols(), *expr).value,
            view_instructions(final(instructions)@) == view_instructions(old(instructions)@) + gen_expr(
                old(self).counter(),
                old(self).symbols(),
                *expr,
            ).code,
            final(self).counter() == gen_expr(old(self).counter(), old(self).symbols(), *expr).next,
            final(self).symbol_table == old(self).symbol_table,
            final(self).block_counter == old(self).block_counter,
            final(self).current_function == old(self).current_function,
            final(self).current_block == old(self).current_block,
        decreases *expr,
    {
        let ghost c = self.counter();
        let ghost syms = self.symbols();
        let ghost before = view_instructions(instructions@);
        match expr {
            Expression::IntLiteral(n) => IrValue::Constant(IrConstant::Integer(*n)),
            Expression::FloatLiteral(t) => IrValue::Constant(IrConstant::Float(t.clone())),
            Expression::StringLiteral(t) => IrValue::Constant(IrConstant::String(t.clone())),
            Expression::BoolLiteral(b) => IrValue::Constant(IrConstant::Boolean(*b)),
            Expression::Identifier(name) => {
                match self.lookup(name.as_str()) {
                    Some(address) => {
                        let r = self.next_register();
                        let r2 = r.clone();
                        instructions.push(IrInstruction::Load { result: IrValue::Register(r), address: IrValue::Register(address) });
                        proof {
                            assert(view_instructions(instructions@) =~= before + gen_expr(c, syms, *expr).code);
                        }
                        IrValue::Register(r2)
                    },
                    None => IrValue::Constant(IrConstant::Null),
                }
            },
            Expression::BinaryOp { left, operator, right } => {
                proof {
                    lemma_gen_grows(gen_expr(c, syms, **left).next, syms, **right);
                }
                let lv = self.generate_expression(left, instructions);
                let rv = self.generate_expression(right, instructions);
                let r = self.next_register();
                let r2 = r.clone();
                let ins = match operator {
                    BinaryOperator::Sub => IrInstruction::Sub { result: IrValue::Register(r), left: lv, right: rv },
                    BinaryOperator::Mul => IrInstruction::Mul { result: IrValue::Register(r), left: lv, right: rv },
                    BinaryOperator::Div => IrInstruction::Div { result: IrValue::Register(r), left: lv, right: rv },
                    BinaryOperator::Pow => IrInstruction::Pow { result: IrValue::Register(r), base: lv, exp: rv },
                    BinaryOperator::Eq => IrInstruction::FCmp {
                        result: IrValue::Register(r),
                        predicate: IrPredicate::Equal,
                        left: lv,
                        right: rv,
                    },
                    BinaryOperator::Lt => IrInstruction::FCmp {
                        result: IrValue::Register(r),
                        predicate: IrPredicate::Less,
                        left: lv,
                        right: rv,
                    },
                    _ => IrInstruction::Add { result: IrValue::Register(r), left: lv, right: rv },
                };
                let ghost gi = ins;
                let ghost mid = instructions@;
                instructions.push(ins);
                proof {
                    let l = gen_expr(c, syms, **left);
                    let rr = gen_expr(l.next, syms, **right);
                    assert(view_instruction(gi) == binary_instruction(*operator, reg(rr.next), l.value, rr.value));
                    assert(view_instructions(instructions@) =~= view_instructions(mid).push(view_instruction(gi)));
                    assert(view_instructions(instructions@) =~= before + gen_expr(c, syms, *expr).code);
                }
                IrValue::Register(r2)
            },
            Expression::FunctionCall { function, args } => {
                let vals = self.generate_list(args, instructions);
                let name = match &**function {
                    Expression::Identifier(n) => n.clone(),
                    _ => "unknown".to_owned(),
                };
                let r = self.next_register();
                let r2 = r.clone();
                let ins = IrInstruction::Call { result: Some(IrValue::Register(r)), function: name, args: vals };
                let ghost gi = ins;
                let ghost mid = instructions@;
                instructions.push(ins);
                proof {
                    let a = gen_exprs(c, syms, args@);
                    assert(view_instruction(gi) == SpecIrInstruction::Call {
                        result: Some(reg(a.next)),
                        function: callee_name(**function),
                        args: a.values,
                    });
                    assert(view_instructions(instructions@) =~= view_instructions(mid).push(view_instruction(gi)));
                    assert(view_instructions(instructions@) =~= before + gen_expr(c, syms, *expr).code);
                }
                IrValue::Register(r2)
            },
            Expression::ArrayLiteral(es) => {
                let vals = self.generate_list(es, instructions);
                let r = self.next_register();
                let r2 = r.clone();
                let ins = IrInstruction::VectorCreate { result: IrValue::Register(r), elements: vals };
                let ghost gi = ins;
                let ghost mid = instructions@;
                instructions.push(ins);
                proof {
                    let a = gen_exprs(c, syms, es@);
                    assert(view_instruction(gi) == SpecIrInstruction::VectorCreate { result: reg(a.next), elements: a.values });
                    assert(view_instructions(instructions@) =~= view_instructions(mid).push(view_instruction(gi)));
                    assert(view_instructions(instructions@) =~= before + gen_expr(c, syms, *expr).code);
                }
                IrValue::Register(r2)
            },
            Expression::MatrixLiteral(rows) => {
                let num_rows = #[verifier::truncate] (rows.len() as u32);
                let num_cols = if rows.len() > 0 { #[verifier::truncate] (rows[0].len() as u32) } else { 0 };
                let vals = self.generate_rows(rows, instructions);
                let r = self.next_register();
                let r2 = r.clone();
                let ins = IrInstruction::MatrixCreate { result: IrValue::Register(r), rows: num_rows, cols: num_cols, elements: vals };
                let ghost gi = ins;
                let ghost mid = instructions@;
                instructions.push(ins);
                proof {
                    let a = gen_rows(c, syms, rows@);
                    assert(view_instruction(gi) == SpecIrInstruction::MatrixCreate {
                        result: reg(a.next),
                        rows: rows.len() as u32,
                        cols: if rows.len() > 0 { rows@[0].len() as u32 } else { 0 },
                        elements: a.values,
                    });
                    assert(view_instructions(instructions@) =~= view_instructions(mid).push(view_instruction(gi)));
                    assert(view_instructions(instructions@) =~= before + gen_expr(c, syms, *expr).code);
                }
                IrValue::Register(r2)
            },
            _ => IrValue::Constant(IrConstant::Null),
        }
    }

    /// Generates the code of expressions one after the other and gives their
    /// values.
    fn generate_list(&mut self, es: &Vec<Expression>, instructions: &mut Vec<IrInstruction>) -> (vals: Vec<IrValue>)
        requires
            gen_exprs(old(self).counter(), old(self).symbols(), es@).next < u32::MAX,
        ensures
            view_values(vals@) == gen_exprs(old(self).counter(), old(self).symbols(), es@).values,
            view_instructions(final(instructions)@) == view_instructions(old(instructions)@) + gen_exprs(
                old(self).counter(),
                old(self).symbols(),
                es@,
            ).code,
            final(self).counter() == gen_exprs(old(self).counter(), old(self).symbols(), es@).next,
            final(self).symbol_table == old(self).symbol_table,
            final(self).block_counter == old(self).block_counter,
            final(self).current_function == old(self).current_function,
            final(self).current_block == old(self).current_block,
        decreases es@,
    {
        let ghost c = self.counter();
        let ghost syms = self.symbols();
        let ghost before = view_instructions(instructions@);
        let mut vals: Vec<IrValue> = Vec::new();
        let mut k: usize = 0;
        proof {
            assert(es@.take(0) =~= Seq::<Expression>::empty());
            assert(view_instructions(instructions@) =~= before + Seq::<SpecIrInstruction>::empty());
            assert(view_values(vals@) =~= Seq::<SpecIrValue>::empty());
        }
        while k < es.len()
            invariant
                k <= es@.len(),
                syms == self.symbols(),
                gen_exprs(c, syms, es@).next < u32::MAX,
                view_values(vals@) == gen_exprs(c, syms, es@.take(k as int)).values,
                view_instructions(instructions@) == before + gen_exprs(c, syms, es@.take(k as int)).code,
                self.counter() == gen_exprs(c, syms, es@.take(k as int)).next,
                self.symbol_table == old(self).symbol_table,
                self.block_counter == old(self).block_counter,
                self.current_function == old(self).current_function,
                self.current_block == old(self).current_block,
            decreases es@.len() - k,
        {
            let ghost p = es@.take(k as int);
            let ghost q = es@.take(k + 1);
            proof {
                assert(q.subrange(0, q.len() - 1) =~= p);
                assert(q[q.len() - 1] == es@[k as int]);
                lemma_gen_list_prefix(c, syms, es@, k + 1);
            }
            let v = self.generate_expression(&es[k], instructions);
            let ghost gv = v;
            let ghost vals_before = vals@;
            vals.push(v);
            proof {
                assert(vals@ =~= vals_before.push(gv));
                assert(view_values(vals@) =~= view_values(vals_before).push(view_value(gv)));
                assert(view_instructions(instructions@) =~= before + gen_exprs(c, syms, q).code);
            }
            k = k + 1;
        }
        proof {
            assert(es@.take(es@.len() as int) =~= es@);
        }
        vals
    }
    /// Generates the code of the rows of a matrix one after the other and
    /// gives their values, row by row.
    fn generate_rows(&mut self, rows: &Vec<Vec<Expression>>, instructions: &mut Vec<IrInstruction>) -> (vals: Vec<IrValue>)
        requires
            gen_rows(old(self).counter(), old(self).symbols(), rows@).next < u32::MAX,
        ensures
            view_values(vals@) == gen_rows(old(self).counter(), old(self).symbols(), rows@).values,
            view_instructions(final(instructions)@) == view_instructions(old(instructions)@) + gen_rows(
                old(self).counter(),
                old(self).symbols(),
                rows@,
            ).code,
            final(self).counter() == gen_rows(old(self).counter(), old(self).symbols(), rows@).next,
            final(self).symbol_table == old(self).symbol_table,
            final(self).block_counter == old(self).block_counter,
            final(self).current_function == old(self).current_function,
            final(self).current_block == old(self).current_block,
        decreases rows@,
    {
        let ghost c = self.counter();
        let ghost syms = self.symbols();
        let ghost before = view_instructions(instructions@);
        let mut vals: Vec<IrValue> = Vec::new();
        let mut i: usize = 0;
        proof {
            assert(rows@.take(0) =~= Seq::<Vec<Expression>>::empty());
            assert(view_instructions(instructions@) =~= before + Seq::<SpecIrInstruction>::empty());
            assert(view_values(vals@) =~= Seq::<SpecIrValue>::empty());
        }
        while i < rows.len()
            invariant
                i <= rows@.len(),
                syms == self.symbols(),
                gen_rows(c, syms, rows@).next < u32::MAX,
                view_values(vals@) == gen_rows(c, syms, rows@.take(i as int)).values,
                view_instructions(instructions@) == before + gen_rows(c, syms, rows@.take(i as int)).code,
                self.counter() == gen_rows(c, syms, rows@.take(i as int)).next,
                self.symbol_table == old(self).symbol_table,
                self.block_counter == old(self).block_counter,
                self.current_function == old(self).current_function,
                self.current_block == old(self).current_block,
            decreases rows@.len() - i,
        {
            let ghost p = rows@.take(i as int);
            let ghost q = rows@.take(i + 1);
            proof {
                assert(q.subrange(0, q.len() - 1) =~= p);
                assert(q[q.len() - 1] == rows@[i as int]);
                lemma_gen_rows_prefix(c, syms, rows@, i + 1);
            }
            let mut row_vals = self.generate_list(&rows[i], instructions);
            let ghost vals_before = vals@;
            let ghost row_before = row_vals@;
            vals.append(&mut row_vals);
            proof {
                assert(vals@ =~= vals_before + row_before);
                assert(view_values(vals@) =~= view_values(vals_before) + view_values(row_before));
                assert(view_instructions(instructions@) =~= before + gen_rows(c, syms, q).code);
            }
            i = i + 1;
        }
        proof {
            assert(rows@.take(rows@.len() as int) =~= rows@);
        }
        vals
    }
    /// Generates `let name = value` onto `instructions`.
    fn generate_let_binding(&mut self, binding: &LetBinding, instructions: &mut Vec<IrInstruction>)
        requires
            gen_let(old(self).counter(), old(self).symbols(), *binding).next <= u32::MAX,
        ensures
            view_instructions(final(instructions)@) == view_instructions(old(instructions)@) + gen_let(
                old(self).counter(),
                old(self).symbols(),
                *binding,
            ).code,
            final(self).counter() == gen_let(old(self).counter(), old(self).symbols(), *binding).next,
            final(self).symbols() == gen_let(old(self).counter(), old(self).symbols(), *binding).symbols,
            final(self).block_counter == old(self).block_counter,
            final(self).current_function == old(self).current_function,
            final(self).current_block == old(self).current_block,
    {
        let ghost c = self.counter();
        let ghost syms = self.symbols();
        let ghost before = view_instructions(instructions@);
        proof {
            lemma_gen_grows(c + 1, syms, binding.value);
        }
        let slot = self.next_register();
        let slot2 = slot.clone();
        let slot3 = slot.clone();
        let alloca = IrInstruction::Alloca { result: IrValue::Register(slot), alloc_type: IrType::Float(64) };
        let ghost ga = alloca;
        instructions.push(alloca);
        proof {
            assert(self.symbols() == syms);
            assert(view_instructions(instructions@) =~= before + seq![view_instruction(ga)]);
        }
        let v = self.generate_expression(&binding.value, instructions);
        let ghost mid = instructions@;
        let store = IrInstruction::Store { value: v, address: IrValue::Register(slot2) };
        let ghost gs = store;
        instructions.push(store);
        let ghost table = self.symbol_table@;
        self.symbol_table.push((binding.name.clone(), slot3));
        proof {
            let x = gen_expr(c + 1, syms, binding.value);
            assert(view_instructions(instructions@) =~= view_instructions(mid).push(view_instruction(gs)));
            assert(view_instructions(instructions@) =~= before + gen_let(c, syms, *binding).code);
            assert(self.symbol_table@ =~= table.push((binding.name, slot3)));
            assert(self.symbols() =~= syms.push((binding.name@, register_name(c))));
        }
    }

    /// A new empty block `<prefix>_<n>` that returns nothing.
    fn create_new_block(&mut self, prefix: &str) -> (b: BasicBlock)
        requires
            old(self).blocks_made() < u32::MAX,
        ensures
            b.label@ == prefix@ + "_"@ + decimal(old(self).blocks_made()),
            b.instructions@.len() == 0,
            returns_nothing(b),
            final(self).blocks_made() == old(self).blocks_made() + 1,
            final(self).register_counter == old(self).register_counter,
            final(self).symbol_table == old(self).symbol_table,
            final(self).current_function == old(self).current_function,
            final(self).current_block == old(self).current_block,
    {
        let id = self.block_counter;
        self.block_counter = self.block_counter + 1;
        let mut v: Vec<char> = Vec::new();
        push_str_chars(&mut v, prefix);
        push_str_chars(&mut v, "_");
        push_decimal(&mut v, id as u64);
        BasicBlock { label: string_from_chars(v.as_slice()), instructions: Vec::new(), terminator: IrTerminator::Return(None) }
    }

    /// The `main` function of a program with these items.
    fn generate_main_function(&mut self, items: &Vec<Item>) -> (f: IrFunction)
        requires
            gen_items(old(self).counter(), old(self).symbols(), items@).next <= u32::MAX,
            items@.len() > 1 ==> old(self).blocks_made() < u32::MAX,
        ensures
            main_function_of(
                f,
                gen_items(old(self).counter(), old(self).symbols(), items@),
                items@.len(),
                old(self).blocks_made(),
            ),
            final(self).counter() == gen_items(old(self).counter(), old(self).symbols(), items@).next,
            final(self).symbols() == gen_items(old(self).counter(), old(self).symbols(), items@).symbols,
            final(self).blocks_made() == old(self).blocks_made() + (if items@.len() > 1 { 1nat } else { 0nat }),
            final(self).position() == (Some("main"@), Some("entry"@)),
    {
        let ghost c = self.counter();
        let ghost syms = self.symbols();
        self.current_function = Some("main".to_owned());
        self.current_block = Some("entry".to_owned());
        let mut instructions: Vec<IrInstruction> = Vec::new();
        proof {
            assert(items@.take(0) =~= Seq::<Item>::empty());
            assert(view_instructions(instructions@) =~= Seq::<SpecIrInstruction>::empty());
        }
        for k in 0..items.len()
            invariant
                gen_items(c, syms, items@).next <= u32::MAX,
                view_instructions(instructions@) == gen_items(c, syms, items@.take(k as int)).code,
                self.counter() == gen_items(c, syms, items@.take(k as int)).next,
                self.symbols() == gen_items(c, syms, items@.take(k as int)).symbols,
                self.block_counter == old(self).block_counter,
                self.position() == (Some("main"@), Some("entry"@)),
        {
            let ghost q = items@.take(k + 1);
            proof {
                assert(q.drop_last() =~= items@.take(k as int));
                assert(q.last() == items@[k as int]);
                lemma_gen_items_prefix(c, syms, items@, k + 1);
            }
            match &items[k] {
                Item::LetBinding(b) => {
                    self.generate_let_binding(b, &mut instructions);
                },
                _ => {},
            }
        }
        proof {
            assert(items@.take(items@.len() as int) =~= items@);
        }
        let entry = BasicBlock { label: "entry".to_owned(), instructions, terminator: IrTerminator::Return(None) };
        let mut blocks: Vec<BasicBlock> = Vec::new();
        blocks.push(entry);
        if items.len() > 1 {
            let extra = self.create_new_block("additional");
            blocks.push(extra);
            proof {
                reveal_strlit("additional");
                reveal_strlit("_");
                reveal_strlit("additional_");
                assert("additional"@ + "_"@ =~= "additional_"@);
            }
        }
        IrFunction { name: "main".to_owned(), params: Vec::new(), return_type: IrType::Void, basic_blocks: blocks, is_external: false }
    }

    /// Declares the standard library's functions in `module`.
    fn add_stdlib_functions(module: &mut IrModule)
        ensures
            final(module).functions@.len() == old(module).functions@.len() + 5,
            forall|i: int| 0 <= i < old(module).functions@.len() ==> final(module).functions@[i] == old(module).functions@[i],
            declares(final(module).functions@[old(module).functions@.len() as int], "sin"@, f64_type(), seq![f64_type()]),
            declares(final(module).functions@[old(module).functions@.len() + 1int], "cos"@, f64_type(), seq![f64_type()]),
            declares(final(module).functions@[old(module).functions@.len() + 2int], "sqrt"@, f64_type(), seq![f64_type()]),
            declares(
                final(module).functions@[old(module).functions@.len() + 3int],
                "pow"@,
                f64_type(),
                seq![f64_type(), f64_type()],
            ),
            declares(
                final(module).functions@[old(module).functions@.len() + 4int],
                "print"@,
                SpecIrType::Void,
                seq![SpecIrType::String],
            ),
            final(module).globals == old(module).globals,
            final(module).types == old(module).types,
    {
        let ghost n = module.functions@.len();
        let sin = external_function("sin", IrType::Float(64), float_params(1));
        let cos = external_function("cos", IrType::Float(64), float_params(1));
        let sqrt = external_function("sqrt", IrType::Float(64), float_params(1));
        let pow = external_function("pow", IrType::Float(64), float_params(2));
        let mut text: Vec<IrType> = Vec::new();
        text.push(IrType::String);
        let print = external_function("print", IrType::Void, text);
        module.functions.push(sin);
        module.functions.push(cos);
        module.functions.push(sqrt);
        module.functions.push(pow);
        module.functions.push(print);
        proof {
            assert(seq![f64_type()][0] == f64_type());
            assert(seq![f64_type(), f64_type()][1] == f64_type());
            assert(seq![SpecIrType::String][0] == SpecIrType::String);
        }
    }

    /// The representation of a program: the standard library's
    /// declarations, then `main`, which computes the program's top-level
    /// bindings.
    pub fn generate(&mut self, program: &Program) -> (m: IrModule)
        requires
            gen_items(old(self).counter(), old(self).symbols(), program.items@).next <= u32::MAX,
            program.items@.len() > 1 ==> old(self).blocks_made() < u32::MAX,
        ensures
            module_of(
                m,
                gen_items(old(self).counter(), old(self).symbols(), program.items@),
                program.items@.len(),
                old(self).blocks_made(),
            ),
            final(self).counter() == gen_items(old(self).counter(), old(self).symbols(), program.items@).next,
            final(self).symbols() == gen_items(old(self).counter(), old(self).symbols(), program.items@).symbols,
            final(self).blocks_made() == old(self).blocks_made() + (if program.items@.len() > 1 { 1nat } else { 0nat }),
            final(self).position() == (Some("main"@), Some("entry"@)),
    {
        let mut module = IrModule { functions: Vec::new(), globals: Vec::new(), types: Vec::new() };
        Self::add_stdlib_functions(&mut module);
        let main = self.generate_main_function(&program.items);
        module.functions.push(main);
        module
    }
}

/// A binary operation is generated in order: the code of the left operand,
/// then that of the right operand (numbered from where the left one
/// stopped), then one instruction that reads the left operand's value as
/// its left operand and the right operand's value as its right one, and
/// writes the expression's value. That instruction computes the operator
/// written for `+ - * /`, power, `==` and `<`, and an addition for the
/// others.
pub proof fn law_binary_operands(c: nat, syms: Seq<(Seq<char>, Seq<char>)>, left: Expression, op: BinaryOperator, right: Expression)
    ensures
        ({
            let g = gen_expr(c, syms, Expression::BinaryOp { left: Box::new(left), operator: op, right: Box::new(right) });
            let l = gen_expr(c, syms, left);
            let r = gen_expr(l.next, syms, right);
            &&& g.code.len() == l.code.len() + r.code.len() + 1
            &&& g.code.take((l.code.len() + r.code.len()) as int) == l.code + r.code
            &&& instruction_operands(g.code.last()) == Some((l.value, r.value))
            &&& instruction_result(g.code.last()) == Some(g.value)
            &&& instruction_operator(g.code.last()) == Some(
                match op {
                    BinaryOperator::Sub => BinaryOperator::Sub,
                    BinaryOperator::Mul => BinaryOperator::Mul,
                    BinaryOperator::Div => BinaryOperator::Div,
                    BinaryOperator::Pow => BinaryOperator::Pow,
                    BinaryOperator::Eq => BinaryOperator::Eq,
                    BinaryOperator::Lt => BinaryOperator::Lt,
                    _ => BinaryOperator::Add,
                },
            )
        }),
{
    let g = gen_expr(c, syms, Expression::BinaryOp { left: Box::new(left), operator: op, right: Box::new(right) });
    let l = gen_expr(c, syms, left);
    let r = gen_expr(l.next, syms, right);
    assert(g.code.take((l.code.len() + r.code.len()) as int) =~= l.code + r.code);
}

} // verus!
