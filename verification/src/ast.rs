//! The syntax tree of the Matrix Language, and its mathematical view.
use vstd::prelude::*;

verus! {

/// A type written in the source.
#[derive(Debug, Clone)]
pub enum Type {
    Int,
    Float,
    Bool,
    String,
    /// Any other type name, such as a struct's.
    Named(String),
}

/// A parameter of a lambda.
#[derive(Debug, Clone)]
pub struct Parameter {
    pub name: String,
    pub type_annotation: Option<Type>,
}

#[derive(Debug, Clone, Copy, PartialEq, Eq, Structural)]
pub enum BinaryOperator {
    Add,
    Sub,
    Mul,
    Div,
    Mod,
    Pow,
    Eq,
    Ne,
    Lt,
    Le,
    Gt,
    Ge,
    And,
    Or,
}

#[derive(Debug, Clone, Copy, PartialEq, Eq, Structural)]
pub enum UnaryOperator {
    Neg,
    Not,
}

/// `name: value` in a struct creation.
#[derive(Debug)]
pub struct FieldInit {
    pub name: String,
    pub value: Expression,
}

#[derive(Debug)]
pub enum Expression {
    IntLiteral(i64),
    /// A float literal, as written in the source.
    FloatLiteral(String),
    BoolLiteral(bool),
    StringLiteral(String),
    Identifier(String),
    BinaryOp { left: Box<Expression>, operator: BinaryOperator, right: Box<Expression> },
    UnaryOp { operator: UnaryOperator, operand: Box<Expression> },
    FunctionCall { function: Box<Expression>, args: Vec<Expression> },
    FieldAccess { object: Box<Expression>, field: String },
    StructCreation { name: String, fields: Vec<FieldInit> },
    ArrayLiteral(Vec<Expression>),
    MatrixLiteral(Vec<Vec<Expression>>),
    IfExpression {
        condition: Box<Expression>,
        then_branch: Box<Expression>,
        else_branch: Option<Box<Expression>>,
    },
    Lambda { params: Vec<Parameter>, return_type: Option<Type>, body: Box<Expression> },
    Block { statements: Vec<Statement>, result: Option<Box<Expression>> },
    Range { start: Box<Expression>, end: Box<Expression> },
    SimDirective { expression: Box<Expression> },
    PlotDirective { expression: Box<Expression> },
}

/// `let name (: type)? = value`.
#[derive(Debug)]
pub struct LetBinding {
    pub name: String,
    pub type_annotation: Option<Type>,
    pub value: Expression,
}

#[derive(Debug)]
pub enum Statement {
    Expression(Expression),
    LetBinding(LetBinding),
}

/// A field of a struct definition.
#[derive(Debug, Clone)]
pub struct StructField {
    pub name: String,
    pub field_type: Type,
}

#[derive(Debug)]
pub struct StructDef {
    pub name: String,
    pub fields: Vec<StructField>,
}

/// A top-level item of a program.
#[derive(Debug)]
pub enum Item {
    LetBinding(LetBinding),
    StructDef(StructDef),
    Expression(Expression),
}

#[derive(Debug)]
pub struct Program {
    pub items: Vec<Item>,
}

// ---------------------------------------------------------------------
// Mathematical view
// ---------------------------------------------------------------------

pub enum SpecType {
    Int,
    Float,
    Bool,
    String,
    Named(Seq<char>),
}

pub struct SpecParameter {
    pub name: Seq<char>,
    pub type_annotation: Option<SpecType>,
}

pub struct SpecFieldInit {
    pub name: Seq<char>,
    pub value: SpecExpr,
}

pub enum SpecExpr {
    IntLiteral(i64),
    FloatLiteral(Seq<char>),
    BoolLiteral(bool),
    StringLiteral(Seq<char>),
    Identifier(Seq<char>),
    BinaryOp { left: Box<SpecExpr>, operator: BinaryOperator, right: Box<SpecExpr> },
    UnaryOp { operator: UnaryOperator, operand: Box<SpecExpr> },
    FunctionCall { function: Box<SpecExpr>, args: Seq<SpecExpr> },
    FieldAccess { object: Box<SpecExpr>, field: Seq<char> },
    StructCreation { name: Seq<char>, fields: Seq<SpecFieldInit> },
    ArrayLiteral(Seq<SpecExpr>),
    MatrixLiteral(Seq<Seq<SpecExpr>>),
    IfExpression {
        condition: Box<SpecExpr>,
        then_branch: Box<SpecExpr>,
        else_branch: Option<Box<SpecExpr>>,
    },
    Lambda { params: Seq<SpecParameter>, return_type: Option<SpecType>, body: Box<SpecExpr> },
    Block { statements: Seq<SpecStatement>, result: Option<Box<SpecExpr>> },
    Range { start: Box<SpecExpr>, end: Box<SpecExpr> },
    SimDirective { expression: Box<SpecExpr> },
    PlotDirective { expression: Box<SpecExpr> },
}

pub struct SpecLetBinding {
    pub name: Seq<char>,
    pub type_annotation: Option<SpecType>,
    pub value: SpecExpr,
}

pub enum SpecStatement {
    Expression(SpecExpr),
    LetBinding(SpecLetBinding),
}

pub struct SpecStructField {
    pub name: Seq<char>,
    pub field_type: SpecType,
}

pub struct SpecStructDef {
    pub name: Seq<char>,
    pub fields: Seq<SpecStructField>,
}

pub enum SpecItem {
    LetBinding(SpecLetBinding),
    StructDef(SpecStructDef),
    Expression(SpecExpr),
}

pub struct SpecProgram {
    pub items: Seq<SpecItem>,
}

pub open spec fn view_type(t: Type) -> SpecType {
    match t {
        Type::Int => SpecType::Int,
        Type::Float => SpecType::Float,
        Type::Bool => SpecType::Bool,
        Type::String => SpecType::String,
        Type::Named(n) => SpecType::Named(n@),
    }
}

pub open spec fn view_opt_type(t: Option<Type>) -> Option<SpecType> {
    match t {
        Some(t) => Some(view_type(t)),
        None => None,
    }
}

pub open spec fn view_param(p: Parameter) -> SpecParameter {
    SpecParameter { name: p.name@, type_annotation: view_opt_type(p.type_annotation) }
}

pub open spec fn view_params(s: Seq<Parameter>) -> Seq<SpecParameter> {
    s.map_values(|p: Parameter| view_param(p))
}

pub open spec fn view_expr(e: Expression) -> SpecExpr
    decreases e,
{
    match e {
        Expression::IntLiteral(v) => SpecExpr::IntLiteral(v),
        Expression::FloatLiteral(s) => SpecExpr::FloatLiteral(s@),
        Expression::BoolLiteral(b) => SpecExpr::BoolLiteral(b),
        Expression::StringLiteral(s) => SpecExpr::StringLiteral(s@),
        Expression::Identifier(s) => SpecExpr::Identifier(s@),
        Expression::BinaryOp { left, operator, right } => SpecExpr::BinaryOp {
            left: Box::new(view_expr(*left)),
            operator,
            right: Box::new(view_expr(*right)),
        },
        Expression::UnaryOp { operator, operand } => SpecExpr::UnaryOp {
            operator,
            operand: Box::new(view_expr(*operand)),
        },
        Expression::FunctionCall { function, args } => SpecExpr::FunctionCall {
            function: Box::new(view_expr(*function)),
            args: view_exprs(args@),
        },
        Expression::FieldAccess { object, field } => SpecExpr::FieldAccess {
            object: Box::new(view_expr(*object)),
            field: field@,
        },
        Expression::StructCreation { name, fields } => SpecExpr::StructCreation {
            name: name@,
            fields: view_field_inits(fields@),
        },
        Expression::ArrayLiteral(es) => SpecExpr::ArrayLiteral(view_exprs(es@)),
        Expression::MatrixLiteral(rows) => SpecExpr::MatrixLiteral(view_rows(rows@)),
        Expression::IfExpression { condition, then_branch, else_branch } => SpecExpr::IfExpression {
            condition: Box::new(view_expr(*condition)),
            then_branch: Box::new(view_expr(*then_branch)),
            else_branch: match else_branch {
                Some(e) => Some(Box::new(view_expr(*e))),
                None => None,
            },
        },
        Expression::Lambda { params, return_type, body } => SpecExpr::Lambda {
            params: view_params(params@),
            return_type: view_opt_type(return_type),
            body: Box::new(view_expr(*body)),
        },
        Expression::Block { statements, result } => SpecExpr::Block {
            statements: view_stmts(statements@),
            result: match result {
                Some(e) => Some(Box::new(view_expr(*e))),
                None => None,
            },
        },
        Expression::Range { start, end } => SpecExpr::Range {
            start: Box::new(view_expr(*start)),
            end: Box::new(view_expr(*end)),
        },
        Expression::SimDirective { expression } => SpecExpr::SimDirective {
            expression: Box::new(view_expr(*expression)),
        },
        Expression::PlotDirective { expression } => SpecExpr::PlotDirective {
            expression: Box::new(view_expr(*expression)),
        },
    }
}

pub open spec fn view_exprs(s: Seq<Expression>) -> Seq<SpecExpr>
    decreases s,
{
    if s.len() == 0 {
        Seq::empty()
    } else {
        seq![view_expr(s[0])] + view_exprs(s.subrange(1, s.len() as int))
    }
}

pub open spec fn view_rows(s: Seq<Vec<Expression>>) -> Seq<Seq<SpecExpr>>
    decreases s,
{
    if s.len() == 0 {
        Seq::empty()
    } else {
        seq![view_exprs(s[0]@)] + view_rows(s.subrange(1, s.len() as int))
    }
}

pub open spec fn view_field_inits(s: Seq<FieldInit>) -> Seq<SpecFieldInit>
    decreases s,
{
    if s.len() == 0 {
        Seq::empty()
    } else {
        seq![SpecFieldInit { name: s[0].name@, value: view_expr(s[0].value) }] + view_field_inits(
            s.subrange(1, s.len() as int),
        )
    }
}

pub open spec fn view_let(b: LetBinding) -> SpecLetBinding
    decreases b,
{
    SpecLetBinding {
        name: b.name@,
        type_annotation: view_opt_type(b.type_annotation),
        value: view_expr(b.value),
    }
}

pub open spec fn view_stmt(st: Statement) -> SpecStatement
    decreases st,
{
    match st {
        Statement::Expression(e) => SpecStatement::Expression(view_expr(e)),
        Statement::LetBinding(b) => SpecStatement::LetBinding(view_let(b)),
    }
}

pub open spec fn view_stmts(s: Seq<Statement>) -> Seq<SpecStatement>
    decreases s,
{
    if s.len() == 0 {
        Seq::empty()
    } else {
        seq![view_stmt(s[0])] + view_stmts(s.subrange(1, s.len() as int))
    }
}

pub open spec fn view_struct_def(d: StructDef) -> SpecStructDef {
    SpecStructDef {
        name: d.name@,
        fields: d.fields@.map_values(|f: StructField| SpecStructField { name: f.name@, field_type: view_type(f.field_type) }),
    }
}

pub open spec fn view_item(it: Item) -> SpecItem {
    match it {
        Item::LetBinding(b) => SpecItem::LetBinding(view_let(b)),
        Item::StructDef(d) => SpecItem::StructDef(view_struct_def(d)),
        Item::Expression(e) => SpecItem::Expression(view_expr(e)),
    }
}

pub open spec fn view_program(p: Program) -> SpecProgram {
    SpecProgram { items: p.items@.map_values(|it: Item| view_item(it)) }
}

pub proof fn lemma_view_exprs_push(s: Seq<Expression>, x: Expression)
    ensures
        view_exprs(s.push(x)) == view_exprs(s).push(view_expr(x)),
    decreases s.len(),
{
    if s.len() == 0 {
        assert(s.push(x).subrange(1, 1) =~= Seq::<Expression>::empty());
        assert(view_exprs(Seq::<Expression>::empty()) =~= Seq::<SpecExpr>::empty());
        assert(view_exprs(s.push(x)) =~= seq![view_expr(x)]);
    } else {
        let t = s.subrange(1, s.len() as int);
        lemma_view_exprs_push(t, x);
        assert(s.push(x).subrange(1, s.len() as int + 1) =~= t.push(x));
        assert(view_exprs(s.push(x)) =~= view_exprs(s).push(view_expr(x)));
    }
}

pub proof fn lemma_view_rows_push(s: Seq<Vec<Expression>>, x: Vec<Expression>)
    ensures
        view_rows(s.push(x)) == view_rows(s).push(view_exprs(x@)),
    decreases s.len(),
{
    if s.len() == 0 {
        assert(s.push(x).subrange(1, 1) =~= Seq::<Vec<Expression>>::empty());
        assert(view_rows(Seq::<Vec<Expression>>::empty()) =~= Seq::<Seq<SpecExpr>>::empty());
        assert(view_rows(s.push(x)) =~= seq![view_exprs(x@)]);
    } else {
        let t = s.subrange(1, s.len() as int);
        lemma_view_rows_push(t, x);
        assert(s.push(x).subrange(1, s.len() as int + 1) =~= t.push(x));
        assert(view_rows(s.push(x)) =~= view_rows(s).push(view_exprs(x@)));
    }
}

pub proof fn lemma_view_field_inits_push(s: Seq<FieldInit>, x: FieldInit)
    ensures
        view_field_inits(s.push(x)) == view_field_inits(s).push(SpecFieldInit { name: x.name@, value: view_expr(x.value) }),
    decreases s.len(),
{
    if s.len() == 0 {
        assert(s.push(x).subrange(1, 1) =~= Seq::<FieldInit>::empty());
        assert(view_field_inits(Seq::<FieldInit>::empty()) =~= Seq::<SpecFieldInit>::empty());
        assert(view_field_inits(s.push(x)) =~= seq![SpecFieldInit { name: x.name@, value: view_expr(x.value) }]);
    } else {
        let t = s.subrange(1, s.len() as int);
        lemma_view_field_inits_push(t, x);
        assert(s.push(x).subrange(1, s.len() as int + 1) =~= t.push(x));
        assert(view_field_inits(s.push(x)) =~= view_field_inits(s).push(SpecFieldInit { name: x.name@, value: view_expr(x.value) }));
    }
}

pub proof fn lemma_view_stmts_push(s: Seq<Statement>, x: Statement)
    ensures
        view_stmts(s.push(x)) == view_stmts(s).push(view_stmt(x)),
    decreases s.len(),
{
    if s.len() == 0 {
        assert(s.push(x).subrange(1, 1) =~= Seq::<Statement>::empty());
        assert(view_stmts(Seq::<Statement>::empty()) =~= Seq::<SpecStatement>::empty());
        assert(view_stmts(s.push(x)) =~= seq![view_stmt(x)]);
    } else {
        let t = s.subrange(1, s.len() as int);
        lemma_view_stmts_push(t, x);
        assert(s.push(x).subrange(1, s.len() as int + 1) =~= t.push(x));
        assert(view_stmts(s.push(x)) =~= view_stmts(s).push(view_stmt(x)));
    }
}

} // verus!
