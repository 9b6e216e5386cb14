//! The intermediate representation of the Matrix Language: modules of
//! functions made of basic blocks, an optimizer and a printer in an
//! LLVM-like text form.
//!
//! Float constants hold the decimal text of their value.
use vstd::prelude::*;
use crate::text::{decimal, signed_decimal};

pub mod generator;
pub use generator::IrGenerator;


verus! {

/// A module: functions, globals and named types.
#[derive(Debug)]
pub struct IrModule {
    pub functions: Vec<IrFunction>,
    pub globals: Vec<IrGlobal>,
    pub types: Vec<IrType>,
}

#[derive(Debug)]
pub struct IrFunction {
    pub name: String,
    pub params: Vec<IrParam>,
    pub return_type: IrType,
    pub basic_blocks: Vec<BasicBlock>,
    pub is_external: bool,
}

#[derive(Debug)]
pub struct IrParam {
    pub name: String,
    pub param_type: IrType,
}

#[derive(Debug)]
pub struct IrGlobal {
    pub name: String,
    pub global_type: IrType,
    pub initial_value: Option<IrConstant>,
}

/// A straight run of instructions ended by a terminator.
#[derive(Debug)]
pub struct BasicBlock {
    pub label: String,
    pub instructions: Vec<IrInstruction>,
    pub terminator: IrTerminator,
}

#[derive(Debug)]
pub enum IrInstruction {
    Add { result: IrValue, left: IrValue, right: IrValue },
    Sub { result: IrValue, left: IrValue, right: IrValue },
    Mul { result: IrValue, left: IrValue, right: IrValue },
    Div { result: IrValue, left: IrValue, right: IrValue },
    Pow { result: IrValue, base: IrValue, exp: IrValue },
    Load { result: IrValue, address: IrValue },
    Store { value: IrValue, address: IrValue },
    Alloca { result: IrValue, alloc_type: IrType },
    VectorCreate { result: IrValue, elements: Vec<IrValue> },
    MatrixCreate { result: IrValue, rows: u32, cols: u32, elements: Vec<IrValue> },
    VectorIndex { result: IrValue, vector: IrValue, index: IrValue },
    MatrixIndex { result: IrValue, matrix: IrValue, row: IrValue, col: IrValue },
    PhysicsStep { timestep: IrValue },
    ApplyForce { object: IrValue, force: IrValue },
    GetPosition { result: IrValue, object: IrValue },
    SetPosition { object: IrValue, position: IrValue },
    Call { result: Option<IrValue>, function: String, args: Vec<IrValue> },
    Cast { result: IrValue, value: IrValue, target_type: IrType },
    ICmp { result: IrValue, predicate: IrPredicate, left: IrValue, right: IrValue },
    FCmp { result: IrValue, predicate: IrPredicate, left: IrValue, right: IrValue },
}

/// What ends a basic block.
#[derive(Debug)]
pub enum IrTerminator {
    Return(Option<IrValue>),
    Branch { condition: IrValue, true_block: String, false_block: String },
    Jump(String),
    Unreachable,
}

#[derive(Debug)]
pub enum IrValue {
    Constant(IrConstant),
    Register(String),
    Global(String),
}

#[derive(Debug)]
pub enum IrConstant {
    Null,
    Boolean(bool),
    Integer(i64),
    /// The decimal text of a float.
    Float(String),
    String(String),
    Vector(Vec<IrConstant>),
    Matrix { rows: u32, cols: u32, data: Vec<IrConstant> },
}

#[derive(Debug)]
pub enum IrType {
    Void,
    Boolean,
    /// An integer of this many bits.
    Integer(u32),
    /// A float of this many bits.
    Float(u32),
    String,
    /// Element type and length.
    Vector(Box<IrType>, u32),
    /// Element type, rows and columns.
    Matrix(Box<IrType>, u32, u32),
    Pointer(Box<IrType>),
    Function { params: Vec<IrType>, return_type: Box<IrType> },
}

#[derive(Debug, Clone, Copy, PartialEq, Eq, Structural)]
pub enum IrPredicate {
    Equal,
    NotEqual,
    Less,
    LessEqual,
    Greater,
    GreaterEqual,
}

/// The text of a type.
pub open spec fn type_text(t: IrType) -> Seq<char>
    decreases t,
{
    match t {
        IrType::Void => "void"@,
        IrType::Boolean => "i1"@,
        IrType::Integer(b) => "i"@ + decimal(b as nat),
        IrType::Float(b) => "f"@ + decimal(b as nat),
        IrType::String => "i8*"@,
        IrType::Vector(e, n) => type_text(*e) + "["@ + decimal(n as nat) + "]"@,
        IrType::Matrix(e, r, c) => type_text(*e) + "["@ + decimal(r as nat) + "]["@ + decimal(c as nat) + "]"@,
        IrType::Pointer(p) => type_text(*p) + "*"@,
        IrType::Function { params, return_type } => "("@ + types_text(params@) + ") -> "@ + type_text(*return_type),
    }
}

/// The texts of some types, separated by `, `.
pub open spec fn types_text(ts: Seq<IrType>) -> Seq<char>
    decreases ts,
{
    if ts.len() == 0 {
        Seq::empty()
    } else if ts.len() == 1 {
        type_text(ts[0])
    } else {
        types_text(ts.subrange(0, ts.len() - 1)) + ", "@ + type_text(ts[ts.len() - 1])
    }
}

/// The text of a constant.
pub open spec fn constant_text(c: IrConstant) -> Seq<char>
    decreases c,
{
    match c {
        IrConstant::Null => "null"@,
        IrConstant::Boolean(b) => if b { "true"@ } else { "false"@ },
        IrConstant::Integer(i) => signed_decimal(i as int),
        IrConstant::Float(s) => s@,
        IrConstant::String(s) => "\""@ + s@ + "\""@,
        IrConstant::Vector(es) => "["@ + constants_text(es@) + "]"@,
        IrConstant::Matrix { rows, cols, data } => "matrix<"@ + decimal(rows as nat) + "x"@ + decimal(cols as nat)
            + "> ["@ + constants_text(data@) + "]"@,
    }
}

/// The texts of some constants, separated by `, `.
pub open spec fn constants_text(cs: Seq<IrConstant>) -> Seq<char>
    decreases cs,
{
    if cs.len() == 0 {
        Seq::empty()
    } else if cs.len() == 1 {
        constant_text(cs[0])
    } else {
        constants_text(cs.subrange(0, cs.len() - 1)) + ", "@ + constant_text(cs[cs.len() - 1])
    }
}

/// The text of a value: a constant, a register's name, or `@` and a
/// global's name.
pub open spec fn value_text(v: IrValue) -> Seq<char> {
    match v {
        IrValue::Constant(c) => constant_text(c),
        IrValue::Register(n) => n@,
        IrValue::Global(n) => "@"@ + n@,
    }
}

/// The texts of some values, separated by `, `.
pub open spec fn values_text(vs: Seq<IrValue>) -> Seq<char>
    decreases vs.len(),
{
    if vs.len() == 0 {
        Seq::empty()
    } else if vs.len() == 1 {
        value_text(vs[0])
    } else {
        values_text(vs.subrange(0, vs.len() - 1)) + ", "@ + value_text(vs[vs.len() - 1])
    }
}

/// `<result> = <op> <a>, <b>`.
pub open spec fn binary_text(result: IrValue, op: Seq<char>, a: IrValue, b: IrValue) -> Seq<char> {
    value_text(result) + " = "@ + op + " "@ + value_text(a) + ", "@ + value_text(b)
}

pub open spec fn int_predicate_text(p: IrPredicate) -> Seq<char> {
    match p {
        IrPredicate::Equal => "eq"@,
        IrPredicate::NotEqual => "ne"@,
        IrPredicate::Less => "slt"@,
        IrPredicate::LessEqual => "sle"@,
        IrPredicate::Greater => "sgt"@,
        IrPredicate::GreaterEqual => "sge"@,
    }
}

pub open spec fn float_predicate_text(p: IrPredicate) -> Seq<char> {
    match p {
        IrPredicate::Equal => "oeq"@,
        IrPredicate::NotEqual => "one"@,
        IrPredicate::Less => "olt"@,
        IrPredicate::LessEqual => "ole"@,
        IrPredicate::Greater => "ogt"@,
        IrPredicate::GreaterEqual => "oge"@,
    }
}

/// The text of an instruction.
pub open spec fn instruction_text(i: IrInstruction) -> Seq<char> {
    match i {
        IrInstruction::Add { result, left, right } => binary_text(result, "fadd"@, left, right),
        IrInstruction::Sub { result, left, right } => binary_text(result, "fsub"@, left, right),
        IrInstruction::Mul { result, left, right } => binary_text(result, "fmul"@, left, right),
        IrInstruction::Div { result, left, right } => binary_text(result, "fdiv"@, left, right),
        IrInstruction::Pow { result, base, exp } => binary_text(result, "fpow"@, base, exp),
        IrInstruction::Load { result, address } => value_text(result) + " = load "@ + value_text(address),
        IrInstruction::Store { value, address } => "store "@ + value_text(value) + ", "@ + value_text(address),
        IrInstruction::Alloca { result, alloc_type } => value_text(result) + " = alloca "@ + type_text(alloc_type),
        IrInstruction::VectorCreate { result, elements } => value_text(result) + " = vector_create ["@
            + values_text(elements@) + "]"@,
        IrInstruction::MatrixCreate { result, rows, cols, elements } => value_text(result) + " = matrix_create "@
            + decimal(rows as nat) + "x"@ + decimal(cols as nat) + " ["@ + values_text(elements@) + "]"@,
        IrInstruction::VectorIndex { result, vector, index } => binary_text(result, "vector_index"@, vector, index),
        IrInstruction::MatrixIndex { result, matrix, row, col } => binary_text(result, "matrix_index"@, matrix, row)
            + ", "@ + value_text(col),
        IrInstruction::PhysicsStep { timestep } => "physics_step "@ + value_text(timestep),
        IrInstruction::ApplyForce { object, force } => "apply_force "@ + value_text(object) + ", "@ + value_text(force),
        IrInstruction::GetPosition { result, object } => value_text(result) + " = get_position "@ + value_text(object),
        IrInstruction::SetPosition { object, position } => "set_position "@ + value_text(object) + ", "@
            + value_text(position),
        IrInstruction::Call { result, function, args } => (match result {
            Some(r) => value_text(r) + " = "@,
            None => Seq::empty(),
        }) + "call @"@ + function@ + "("@ + values_text(args@) + ")"@,
        IrInstruction::Cast { result, value, target_type } => value_text(result) + " = cast "@ + value_text(value)
            + " to "@ + type_text(target_type),
        IrInstruction::ICmp { result, predicate, left, right } => binary_text(result, "icmp "@ + int_predicate_text(predicate), left, right),
        IrInstruction::FCmp { result, predicate, left, right } => binary_text(result, "fcmp "@ + float_predicate_text(predicate), left, right),
    }
}

/// The text of a terminator.
pub open spec fn terminator_text(t: IrTerminator) -> Seq<char> {
    match t {
        IrTerminator::Return(Some(v)) => "ret "@ + value_text(v),
        IrTerminator::Return(None) => "ret void"@,
        IrTerminator::Branch { condition, true_block, false_block } => "br "@ + value_text(condition) + ", label %"@
            + true_block@ + ", label %"@ + false_block@,
        IrTerminator::Jump(target) => "br label %"@ + target@,
        IrTerminator::Unreachable => "unreachable"@,
    }
}

} // verus!

verus! {

pub open spec fn param_text(p: IrParam) -> Seq<char> {
    type_text(p.param_type) + " %"@ + p.name@
}

/// The parameters of a function, separated by `, `.
pub open spec fn params_text(ps: Seq<IrParam>) -> Seq<char>
    decreases ps.len(),
{
    if ps.len() == 0 {
        Seq::empty()
    } else if ps.len() == 1 {
        param_text(ps[0])
    } else {
        params_text(ps.subrange(0, ps.len() - 1)) + ", "@ + param_text(ps[ps.len() - 1])
    }
}

/// Each instruction indented by two spaces, on a line of its own.
pub open spec fn instructions_text(is: Seq<IrInstruction>) -> Seq<char>
    decreases is.len(),
{
    if is.len() == 0 {
        Seq::empty()
    } else {
        instructions_text(is.subrange(0, is.len() - 1)) + "  "@ + instruction_text(is[is.len() - 1]) + "\n"@
    }
}

/// A block: its label and a colon, its instructions, its terminator.
pub open spec fn block_text(b: BasicBlock) -> Seq<char> {
    b.label@ + ":\n"@ + instructions_text(b.instructions@) + "  "@ + terminator_text(b.terminator) + "\n"@
}

pub open spec fn blocks_text(bs: Seq<BasicBlock>) -> Seq<char>
    decreases bs.len(),
{
    if bs.len() == 0 {
        Seq::empty()
    } else {
        blocks_text(bs.subrange(0, bs.len() - 1)) + block_text(bs[bs.len() - 1])
    }
}

/// A function: `declare` (external) or `define`, its return type, name
/// and parameters, and, unless it is external, its blocks in braces.
pub open spec fn function_text(f: IrFunction) -> Seq<char> {
    (if f.is_external { "declare "@ } else { "define "@ }) + type_text(f.return_type) + " @"@ + f.name@ + "("@
        + params_text(f.params@) + ")"@ + if f.is_external {
        "\n"@
    } else {
        " {\n"@ + blocks_text(f.basic_blocks@) + "}\n"@
    }
}

pub open spec fn global_text(g: IrGlobal) -> Seq<char> {
    "@"@ + g.name@ + " = global "@ + type_text(g.global_type) + " "@ + match g.initial_value {
        Some(c) => constant_text(c),
        None => "undef"@,
    } + "\n"@
}

pub open spec fn globals_text(gs: Seq<IrGlobal>) -> Seq<char>
    decreases gs.len(),
{
    if gs.len() == 0 {
        Seq::empty()
    } else {
        globals_text(gs.subrange(0, gs.len() - 1)) + global_text(gs[gs.len() - 1])
    }
}

/// Each function followed by an empty line.
pub open spec fn functions_text(fs: Seq<IrFunction>) -> Seq<char>
    decreases fs.len(),
{
    if fs.len() == 0 {
        Seq::empty()
    } else {
        functions_text(fs.subrange(0, fs.len() - 1)) + function_text(fs[fs.len() - 1]) + "\n"@
    }
}

/// A module: a header comment, the globals (then an empty line if there
/// are any), and the functions.
pub open spec fn module_text(m: IrModule) -> Seq<char> {
    "; Matrix Language IR Module\n\n"@ + globals_text(m.globals@) + (if m.globals@.len() > 0 { "\n"@ } else { Seq::empty() })
        + functions_text(m.functions@)
}

use crate::text::{push_str_chars, push_chars, push_decimal, push_signed_decimal, string_from_chars};

fn push_string(out: &mut Vec<char>, s: &String)
    ensures
        final(out)@ == old(out)@ + s@,
{
    push_str_chars(out, s.as_str());
}

fn push_type(out: &mut Vec<char>, t: &IrType)
    ensures
        final(out)@ == old(out)@ + type_text(*t),
    decreases t,
{
    match t {
        IrType::Void => push_str_chars(out, "void"),
        IrType::Boolean => push_str_chars(out, "i1"),
        IrType::Integer(b) => {
            push_str_chars(out, "i");
            push_decimal(out, *b as u64);
        },
        IrType::Float(b) => {
            push_str_chars(out, "f");
            push_decimal(out, *b as u64);
        },
        IrType::String => push_str_chars(out, "i8*"),
        IrType::Vector(e, n) => {
            push_type(out, e);
            push_str_chars(out, "[");
            push_decimal(out, *n as u64);
            push_str_chars(out, "]");
        },
        IrType::Matrix(e, r, c) => {
            push_type(out, e);
            push_str_chars(out, "[");
            push_decimal(out, *r as u64);
            push_str_chars(out, "][");
            push_decimal(out, *c as u64);
            push_str_chars(out, "]");
        },
        IrType::Pointer(p) => {
            push_type(out, p);
            push_str_chars(out, "*");
        },
        IrType::Function { params, return_type } => {
            push_str_chars(out, "(");
            push_type_list(out, params);
            push_str_chars(out, ") -> ");
            push_type(out, return_type);
        },
    }
}

fn push_type_list(out: &mut Vec<char>, ts: &Vec<IrType>)
    ensures
        final(out)@ == old(out)@ + types_text(ts@),
    decreases ts,
{
    let ghost start = out@;
    for i in 0..ts.len()
        invariant
            out@ == start + types_text(ts@.subrange(0, i as int)),
    {
        if i > 0 {
            push_str_chars(out, ", ");
        }
        push_type(out, &ts[i]);
        proof {
            let s = ts@.subrange(0, i + 1);
            assert(s.subrange(0, s.len() - 1) =~= ts@.subrange(0, i as int));
            assert(s[s.len() - 1] == ts@[i as int]);
            if i == 0 {
                assert(ts@.subrange(0, 0) =~= Seq::<IrType>::empty());
            }
        }
        assert(out@ =~= start + types_text(ts@.subrange(0, i + 1)));
    }
    assert(ts@.subrange(0, ts.len() as int) =~= ts@);
}

fn push_constant(out: &mut Vec<char>, c: &IrConstant)
    ensures
        final(out)@ == old(out)@ + constant_text(*c),
    decreases c,
{
    match c {
        IrConstant::Null => push_str_chars(out, "null"),
        IrConstant::Boolean(b) => if *b {
            push_str_chars(out, "true")
        } else {
            push_str_chars(out, "false")
        },
        IrConstant::Integer(i) => push_signed_decimal(out, *i),
        IrConstant::Float(s) => push_string(out, s),
        IrConstant::String(s) => {
            push_str_chars(out, "\"");
            push_string(out, s);
            push_str_chars(out, "\"");
        },
        IrConstant::Vector(es) => {
            push_str_chars(out, "[");
            push_constant_list(out, es);
            push_str_chars(out, "]");
        },
        IrConstant::Matrix { rows, cols, data } => {
            push_str_chars(out, "matrix<");
            push_decimal(out, *rows as u64);
            push_str_chars(out, "x");
            push_decimal(out, *cols as u64);
            push_str_chars(out, "> [");
            push_constant_list(out, data);
            push_str_chars(out, "]");
        },
    }
}

fn push_constant_list(out: &mut Vec<char>, cs: &Vec<IrConstant>)
    ensures
        final(out)@ == old(out)@ + constants_text(cs@),
    decreases cs,
{
    let ghost start = out@;
    for i in 0..cs.len()
        invariant
            out@ == start + constants_text(cs@.subrange(0, i as int)),
    {
        if i > 0 {
            push_str_chars(out, ", ");
        }
        push_constant(out, &cs[i]);
        proof {
            let s = cs@.subrange(0, i + 1);
            assert(s.subrange(0, s.len() - 1) =~= cs@.subrange(0, i as int));
            assert(s[s.len() - 1] == cs@[i as int]);
            if i == 0 {
                assert(cs@.subrange(0, 0) =~= Seq::<IrConstant>::empty());
            }
        }
        assert(out@ =~= start + constants_text(cs@.subrange(0, i + 1)));
    }
    assert(cs@.subrange(0, cs.len() as int) =~= cs@);
}

} // verus!

verus! {

fn push_value(out: &mut Vec<char>, v: &IrValue)
    ensures
        final(out)@ == old(out)@ + value_text(*v),
{
    match v {
        IrValue::Constant(c) => push_constant(out, c),
        IrValue::Register(n) => push_string(out, n),
        IrValue::Global(n) => {
            push_str_chars(out, "@");
            push_string(out, n);
        },
    }
}

fn push_value_list(out: &mut Vec<char>, vs: &Vec<IrValue>)
    ensures
        final(out)@ == old(out)@ + values_text(vs@),
{
    let ghost start = out@;
    for i in 0..vs.len()
        invariant
            out@ == start + values_text(vs@.subrange(0, i as int)),
    {
        if i > 0 {
            push_str_chars(out, ", ");
        }
        push_value(out, &vs[i]);
        proof {
            let s = vs@.subrange(0, i + 1);
            assert(s.subrange(0, s.len() - 1) =~= vs@.subrange(0, i as int));
            assert(s[s.len() - 1] == vs@[i as int]);
            if i == 0 {
                assert(vs@.subrange(0, 0) =~= Seq::<IrValue>::empty());
            }
        }
        assert(out@ =~= start + values_text(vs@.subrange(0, i + 1)));
    }
    assert(vs@.subrange(0, vs.len() as int) =~= vs@);
}

fn push_binary(out: &mut Vec<char>, result: &IrValue, op: &str, a: &IrValue, b: &IrValue)
    ensures
        final(out)@ == old(out)@ + binary_text(*result, op@, *a, *b),
{
    push_value(out, result);
    push_str_chars(out, " = ");
    push_str_chars(out, op);
    push_str_chars(out, " ");
    push_value(out, a);
    push_str_chars(out, ", ");
    push_value(out, b);
}

} // verus!

verus! {

fn push_int_predicate(out: &mut Vec<char>, p: IrPredicate)
    ensures
        final(out)@ == old(out)@ + int_predicate_text(p),
{
    match p {
        IrPredicate::Equal => push_str_chars(out, "eq"),
        IrPredicate::NotEqual => push_str_chars(out, "ne"),
        IrPredicate::Less => push_str_chars(out, "slt"),
        IrPredicate::LessEqual => push_str_chars(out, "sle"),
        IrPredicate::Greater => push_str_chars(out, "sgt"),
        IrPredicate::GreaterEqual => push_str_chars(out, "sge"),
    }
}

fn push_float_predicate(out: &mut Vec<char>, p: IrPredicate)
    ensures
        final(out)@ == old(out)@ + float_predicate_text(p),
{
    match p {
        IrPredicate::Equal => push_str_chars(out, "oeq"),
        IrPredicate::NotEqual => push_str_chars(out, "one"),
        IrPredicate::Less => push_str_chars(out, "olt"),
        IrPredicate::LessEqual => push_str_chars(out, "ole"),
        IrPredicate::Greater => push_str_chars(out, "ogt"),
        IrPredicate::GreaterEqual => push_str_chars(out, "oge"),
    }
}

#[verifier::spinoff_prover]
#[verifier::rlimit(80)]
fn push_instruction(out: &mut Vec<char>, i: &IrInstruction)
    ensures
        final(out)@ == old(out)@ + instruction_text(*i),
{
    let ghost start = out@;
    match i {
        IrInstruction::Add { result, left, right } => push_binary(out, result, "fadd", left, right),
        IrInstruction::Sub { result, left, right } => push_binary(out, result, "fsub", left, right),
        IrInstruction::Mul { result, left, right } => push_binary(out, result, "fmul", left, right),
        IrInstruction::Div { result, left, right } => push_binary(out, result, "fdiv", left, right),
        IrInstruction::Pow { result, base, exp } => push_binary(out, result, "fpow", base, exp),
        IrInstruction::Load { result, address } => {
            push_value(out, result);
            push_str_chars(out, " = load ");
            push_value(out, address);
            assert(out@ =~= start + instruction_text(*i));
        },
        IrInstruction::Store { value, address } => {
            push_str_chars(out, "store ");
            push_value(out, value);
            push_str_chars(out, ", ");
            push_value(out, address);
            assert(out@ =~= start + instruction_text(*i));
        },
        IrInstruction::Alloca { result, alloc_type } => {
            push_value(out, result);
            push_str_chars(out, " = alloca ");
            push_type(out, alloc_type);
            assert(out@ =~= start + instruction_text(*i));
        },
        IrInstruction::VectorCreate { result, elements } => {
            push_value(out, result);
            push_str_chars(out, " = vector_create [");
            push_value_list(out, elements);
            push_str_chars(out, "]");
            assert(out@ =~= start + instruction_text(*i));
        },
        IrInstruction::MatrixCreate { result, rows, cols, elements } => {
            push_value(out, result);
            push_str_chars(out, " = matrix_create ");
            push_decimal(out, *rows as u64);
            push_str_chars(out, "x");
            push_decimal(out, *cols as u64);
            push_str_chars(out, " [");
            push_value_list(out, elements);
            push_str_chars(out, "]");
            assert(out@ =~= start + instruction_text(*i));
        },
        IrInstruction::VectorIndex { result, vector, index } => push_binary(out, result, "vector_index", vector, index),
        IrInstruction::MatrixIndex { result, matrix, row, col } => {
            push_binary(out, result, "matrix_index", matrix, row);
            push_str_chars(out, ", ");
            push_value(out, col);
            assert(out@ =~= start + instruction_text(*i));
        },
        IrInstruction::PhysicsStep { timestep } => {
            push_str_chars(out, "physics_step ");
            push_value(out, timestep);
        },
        IrInstruction::ApplyForce { object, force } => {
            push_str_chars(out, "apply_force ");
            push_value(out, object);
            push_str_chars(out, ", ");
            push_value(out, force);
            assert(out@ =~= start + instruction_text(*i));
        },
        IrInstruction::GetPosition { result, object } => {
            push_value(out, result);
            push_str_chars(out, " = get_position ");
            push_value(out, object);
            assert(out@ =~= start + instruction_text(*i));
        },
        IrInstruction::SetPosition { object, position } => {
            push_str_chars(out, "set_position ");
            push_value(out, object);
            push_str_chars(out, ", ");
            push_value(out, position);
            assert(out@ =~= start + instruction_text(*i));
        },
        IrInstruction::Call { result, function, args } => {
            match result {
                Some(r) => {
                    push_value(out, r);
                    push_str_chars(out, " = ");
                },
                None => {},
            }
            push_str_chars(out, "call @");
            push_string(out, function);
            push_str_chars(out, "(");
            push_value_list(out, args);
            push_str_chars(out, ")");
            assert(out@ =~= start + instruction_text(*i));
        },
        IrInstruction::Cast { result, value, target_type } => {
            push_value(out, result);
            push_str_chars(out, " = cast ");
            push_value(out, value);
            push_str_chars(out, " to ");
            push_type(out, target_type);
            assert(out@ =~= start + instruction_text(*i));
        },
        IrInstruction::ICmp { result, predicate, left, right } => {
            push_value(out, result);
            push_str_chars(out, " = ");
            push_str_chars(out, "icmp ");
            push_int_predicate(out, *predicate);
            push_str_chars(out, " ");
            push_value(out, left);
            push_str_chars(out, ", ");
            push_value(out, right);
            assert(out@ =~= start + instruction_text(*i));
        },
        IrInstruction::FCmp { result, predicate, left, right } => {
            push_value(out, result);
            push_str_chars(out, " = ");
            push_str_chars(out, "fcmp ");
            push_float_predicate(out, *predicate);
            push_str_chars(out, " ");
            push_value(out, left);
            push_str_chars(out, ", ");
            push_value(out, right);
            assert(out@ =~= start + instruction_text(*i));
        },
    }
}

fn push_terminator(out: &mut Vec<char>, t: &IrTerminator)
    ensures
        final(out)@ == old(out)@ + terminator_text(*t),
{
    let ghost start = out@;
    match t {
        IrTerminator::Return(Some(v)) => {
            push_str_chars(out, "ret ");
            push_value(out, v);
        },
        IrTerminator::Return(None) => push_str_chars(out, "ret void"),
        IrTerminator::Branch { condition, true_block, false_block } => {
            push_str_chars(out, "br ");
            push_value(out, condition);
            push_str_chars(out, ", label %");
            push_string(out, true_block);
            push_str_chars(out, ", label %");
            push_string(out, false_block);
            assert(out@ =~= start + terminator_text(*t));
        },
        IrTerminator::Jump(target) => {
            push_str_chars(out, "br label %");
            push_string(out, target);
        },
        IrTerminator::Unreachable => push_str_chars(out, "unreachable"),
    }
}

} // verus!

verus! {

fn push_function(out: &mut Vec<char>, f: &IrFunction)
    ensures
        final(out)@ == old(out)@ + function_text(*f),
{
    let ghost start = out@;
    if f.is_external {
        push_str_chars(out, "declare ");
    } else {
        push_str_chars(out, "define ");
    }
    push_type(out, &f.return_type);
    push_str_chars(out, " @");
    push_string(out, &f.name);
    push_str_chars(out, "(");
    let ghost before_params = out@;
    for i in 0..f.params.len()
        invariant
            out@ == before_params + params_text(f.params@.subrange(0, i as int)),
    {
        if i > 0 {
            push_str_chars(out, ", ");
        }
        push_type(out, &f.params[i].param_type);
        push_str_chars(out, " %");
        push_string(out, &f.params[i].name);
        proof {
            let s = f.params@.subrange(0, i + 1);
            assert(s.subrange(0, s.len() - 1) =~= f.params@.subrange(0, i as int));
            assert(s[s.len() - 1] == f.params@[i as int]);
            if i == 0 {
                assert(f.params@.subrange(0, 0) =~= Seq::<IrParam>::empty());
            }
        }
        assert(out@ =~= before_params + params_text(f.params@.subrange(0, i + 1)));
    }
    assert(f.params@.subrange(0, f.params.len() as int) =~= f.params@);
    push_str_chars(out, ")");
    if f.is_external {
        push_str_chars(out, "\n");
        assert(out@ =~= start + function_text(*f));
        return;
    }
    push_str_chars(out, " {\n");
    let ghost before_blocks = out@;
    for b in 0..f.basic_blocks.len()
        invariant
            out@ == before_blocks + blocks_text(f.basic_blocks@.subrange(0, b as int)),
    {
        let block = &f.basic_blocks[b];
        push_string(out, &block.label);
        push_str_chars(out, ":\n");
        let ghost before_instrs = out@;
        for k in 0..block.instructions.len()
            invariant
                out@ == before_instrs + instructions_text(block.instructions@.subrange(0, k as int)),
        {
            push_str_chars(out, "  ");
            push_instruction(out, &block.instructions[k]);
            push_str_chars(out, "\n");
            proof {
                let s = block.instructions@.subrange(0, k + 1);
                assert(s.subrange(0, s.len() - 1) =~= block.instructions@.subrange(0, k as int));
            }
            assert(out@ =~= before_instrs + instructions_text(block.instructions@.subrange(0, k + 1)));
        }
        assert(block.instructions@.subrange(0, block.instructions.len() as int) =~= block.instructions@);
        push_str_chars(out, "  ");
        push_terminator(out, &block.terminator);
        push_str_chars(out, "\n");
        proof {
            let s = f.basic_blocks@.subrange(0, b + 1);
            assert(s.subrange(0, s.len() - 1) =~= f.basic_blocks@.subrange(0, b as int));
        }
        assert(out@ =~= before_blocks + blocks_text(f.basic_blocks@.subrange(0, b + 1)));
    }
    assert(f.basic_blocks@.subrange(0, f.basic_blocks.len() as int) =~= f.basic_blocks@);
    push_str_chars(out, "}\n");
    assert(out@ =~= start + function_text(*f));
}

/// Prints the intermediate representation.
#[derive(Debug, Clone, Copy, PartialEq, Eq, Structural)]
pub struct IrPrinter;

impl IrPrinter {
    pub fn print_module(&self, module: &IrModule) -> (s: String)
        ensures
            s@ == module_text(*module),
    {
        let mut out: Vec<char> = Vec::new();
        push_str_chars(&mut out, "; Matrix Language IR Module\n\n");
        let ghost base = out@;
        for g in 0..module.globals.len()
            invariant
                out@ == base + globals_text(module.globals@.subrange(0, g as int)),
        {
            let global = &module.globals[g];
            push_str_chars(&mut out, "@");
            push_string(&mut out, &global.name);
            push_str_chars(&mut out, " = global ");
            push_type(&mut out, &global.global_type);
            push_str_chars(&mut out, " ");
            match &global.initial_value {
                Some(c) => push_constant(&mut out, c),
                None => push_str_chars(&mut out, "undef"),
            }
            push_str_chars(&mut out, "\n");
            proof {
                let s = module.globals@.subrange(0, g + 1);
                assert(s.subrange(0, s.len() - 1) =~= module.globals@.subrange(0, g as int));
            }
            assert(out@ =~= base + globals_text(module.globals@.subrange(0, g + 1)));
        }
        assert(module.globals@.subrange(0, module.globals.len() as int) =~= module.globals@);
        if module.globals.len() > 0 {
            push_str_chars(&mut out, "\n");
        }
        let ghost before_fns = out@;
        for k in 0..module.functions.len()
            invariant
                out@ == before_fns + functions_text(module.functions@.subrange(0, k as int)),
        {
            push_function(&mut out, &module.functions[k]);
            push_str_chars(&mut out, "\n");
            proof {
                let s = module.functions@.subrange(0, k + 1);
                assert(s.subrange(0, s.len() - 1) =~= module.functions@.subrange(0, k as int));
            }
            assert(out@ =~= before_fns + functions_text(module.functions@.subrange(0, k + 1)));
        }
        assert(module.functions@.subrange(0, module.functions.len() as int) =~= module.functions@);
        assert(out@ =~= module_text(*module));
        string_from_chars(out.as_slice())
    }

    pub fn print_function(&self, function: &IrFunction) -> (s: String)
        ensures
            s@ == function_text(*function),
    {
        let mut out: Vec<char> = Vec::new();
        push_function(&mut out, function);
        assert(out@ =~= function_text(*function));
        string_from_chars(out.as_slice())
    }

    pub fn instruction_to_string(&self, instruction: &IrInstruction) -> (s: String)
        ensures
            s@ == instruction_text(*instruction),
    {
        let mut out: Vec<char> = Vec::new();
        push_instruction(&mut out, instruction);
        assert(out@ =~= instruction_text(*instruction));
        string_from_chars(out.as_slice())
    }

    pub fn terminator_to_string(&self, terminator: &IrTerminator) -> (s: String)
        ensures
            s@ == terminator_text(*terminator),
    {
        let mut out: Vec<char> = Vec::new();
        push_terminator(&mut out, terminator);
        assert(out@ =~= terminator_text(*terminator));
        string_from_chars(out.as_slice())
    }

    pub fn value_to_string(&self, value: &IrValue) -> (s: String)
        ensures
            s@ == value_text(*value),
    {
        let mut out: Vec<char> = Vec::new();
        push_value(&mut out, value);
        assert(out@ =~= value_text(*value));
        string_from_chars(out.as_slice())
    }

    pub fn constant_to_string(&self, constant: &IrConstant) -> (s: String)
        ensures
            s@ == constant_text(*constant),
    {
        let mut out: Vec<char> = Vec::new();
        push_constant(&mut out, constant);
        assert(out@ =~= constant_text(*constant));
        string_from_chars(out.as_slice())
    }

    pub fn type_to_string(&self, ir_type: &IrType) -> (s: String)
        ensures
            s@ == type_text(*ir_type),
    {
        let mut out: Vec<char> = Vec::new();
        push_type(&mut out, ir_type);
        assert(out@ =~= type_text(*ir_type));
        string_from_chars(out.as_slice())
    }
}

} // verus!

verus! {

/// The items of `v` in reverse order.
fn reversed<T>(v: Vec<T>) -> (r: Vec<T>)
    ensures
        r@ == v@.reverse(),
{
    let ghost orig = v@;
    let mut v = v;
    let mut r: Vec<T> = Vec::new();
    while v.len() > 0
        invariant
            v@ + r@.reverse() == orig,
        decreases v.len(),
    {
        let x = v.pop().unwrap();
        let ghost prev = r@;
        r.push(x);
        assert(v@ + r@.reverse() =~= orig) by {
            assert(r@.reverse() =~= seq![x] + prev.reverse());
        }
    }
    assert(r@.reverse() =~= orig);
    assert(r@ =~= r@.reverse().reverse());
    r
}

/// Whether a block has instructions.
pub open spec fn has_instructions(b: BasicBlock) -> bool {
    b.instructions@.len() > 0
}

/// A function without its blocks that have no instruction.
pub open spec fn without_empty_blocks(f: IrFunction, g: IrFunction) -> bool {
    &&& f.name@ == g.name@
    &&& f.params@ == g.params@
    &&& f.return_type == g.return_type
    &&& f.is_external == g.is_external
    &&& f.basic_blocks@ == g.basic_blocks@.filter(|b: BasicBlock| has_instructions(b))
}

/// The blocks that have instructions, in order.
fn keep_nonempty_blocks(blocks: Vec<BasicBlock>) -> (r: Vec<BasicBlock>)
    ensures
        r@ == blocks@.filter(|b: BasicBlock| has_instructions(b)),
{
    let ghost orig = blocks@;
    let ghost p = |b: BasicBlock| has_instructions(b);
    let total = blocks.len();
    let mut rest = reversed(blocks);
    let mut out: Vec<BasicBlock> = Vec::new();
    let mut k: usize = 0;
    assert(orig.subrange(0, 0).filter(p) =~= Seq::<BasicBlock>::empty()) by {
        reveal(Seq::filter);
    }
    while rest.len() > 0
        invariant
            k + rest@.len() == orig.len(),
            orig.len() == total,
            rest@.reverse() == orig.subrange(k as int, orig.len() as int),
            p == (|b: BasicBlock| has_instructions(b)),
            out@ == orig.subrange(0, k as int).filter(p),
        decreases rest.len(),
    {
        let ghost before = rest@;
        let b = rest.pop().unwrap();
        assert(rest@.reverse() =~= before.reverse().subrange(1, before.len() as int));
        assert(b == orig[k as int]) by {
            assert(orig.subrange(k as int, orig.len() as int)[0] == b);
        }
        assert(orig.subrange(0, k + 1).filter(p) == if p(b) {
            orig.subrange(0, k as int).filter(p).push(b)
        } else {
            orig.subrange(0, k as int).filter(p)
        }) by {
            reveal(Seq::filter);
            assert(orig.subrange(0, k + 1).drop_last() =~= orig.subrange(0, k as int));
        }
        if b.instructions.len() > 0 {
            out.push(b);
        }
        k = k + 1;
        assert(rest@.reverse() =~= orig.subrange(k as int, orig.len() as int));
    }
    assert(orig.subrange(0, k as int) =~= orig);
    out
}

/// Eliminating dead code twice removes nothing more than once: the blocks
/// kept all have instructions.
pub proof fn law_dead_code_elimination_idempotent(blocks: Seq<BasicBlock>)
    ensures
        blocks.filter(|b: BasicBlock| has_instructions(b)).filter(|b: BasicBlock| has_instructions(b))
            == blocks.filter(|b: BasicBlock| has_instructions(b)),
{
    let p = |b: BasicBlock| has_instructions(b);
    let f = blocks.filter(p);
    assert forall|i: int| 0 <= i < f.len() implies p(#[trigger] f[i]) by {
        blocks.lemma_filter_pred(p, i);
    }
    crate::quantum::circuit::lemma_filter_all(f, p);
}

/// Optimization passes over the intermediate representation.
#[derive(Debug, Clone, Copy, PartialEq, Eq, Structural)]
pub struct IrOptimizer;

impl IrOptimizer {
    pub fn new() -> (r: IrOptimizer)
        ensures
            r == IrOptimizer,
    {
        IrOptimizer
    }

    /// Removes the basic blocks without instructions from every function.
    pub fn dead_code_elimination(&self, module: IrModule) -> (r: IrModule)
        ensures
            r.globals@ == module.globals@,
            r.types@ == module.types@,
            r.functions@.len() == module.functions@.len(),
            forall|k: int| 0 <= k < r.functions@.len() ==> without_empty_blocks(
                #[trigger] r.functions@[k],
                module.functions@[k],
            ),
    {
        let IrModule { functions, globals, types } = module;
        let ghost orig = functions@;
        let mut rest = reversed(functions);
        let mut out: Vec<IrFunction> = Vec::new();
        while rest.len() > 0
            invariant
                out@.len() + rest@.len() == orig.len(),
                rest@.reverse() == orig.subrange(out@.len() as int, orig.len() as int),
                forall|k: int| 0 <= k < out@.len() ==> without_empty_blocks(#[trigger] out@[k], orig[k]),
            decreases rest.len(),
        {
            let ghost before = rest@;
            let f = rest.pop().unwrap();
            assert(rest@.reverse() =~= before.reverse().subrange(1, before.len() as int));
            let ghost k = out@.len() as int;
            assert(f == orig[k]) by {
                assert(orig.subrange(k, orig.len() as int)[0] == f);
            }
            let IrFunction { name, params, return_type, basic_blocks, is_external } = f;
            let kept = keep_nonempty_blocks(basic_blocks);
            out.push(IrFunction { name, params, return_type, basic_blocks: kept, is_external });
            assert(rest@.reverse() =~= orig.subrange(out@.len() as int, orig.len() as int));
        }
        IrModule { functions: out, globals, types }
    }

    /// Leaves the module as it is: no common subexpression is merged yet.
    pub fn common_subexpression_elimination(&self, module: IrModule) -> (r: IrModule)
        ensures
            r == module,
    {
        module
    }
}

} // verus!
