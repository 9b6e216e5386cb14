//! What the evaluator reports: its errors, and how it computes on vectors.
use vstd::prelude::*;
use crate::text::decimal;

verus! {

/// The evaluator's view of the just-in-time compiler when it is not built
/// in.
#[derive(Debug, Clone, Copy, PartialEq, Eq, Structural)]
pub enum JitError {
    NotAvailable,
}

impl JitError {
    /// The message of the error.
    pub fn message(&self) -> (s: String)
        ensures
            s@ == "JIT compilation not available"@,
    {
        "JIT compilation not available".to_owned()
    }
}

/// An error of evaluation.
#[derive(Debug, Clone, PartialEq, Eq)]
pub enum RuntimeError {
    UndefinedVariable { name: String },
    TypeError { message: String },
    DivisionByZero,
    IndexOutOfBounds { index: usize, length: usize },
    FieldNotFound { field: String, owner_type: String },
    FunctionCallError { message: String },
    PatternMatchFailed,
    Generic { message: String },
    PhysicsError { message: String },
}

/// The message of an evaluation error.
pub open spec fn runtime_error_text(e: RuntimeError) -> Seq<char> {
    match e {
        RuntimeError::UndefinedVariable { name } => "Undefined variable: "@ + name@,
        RuntimeError::TypeError { message } => "Type error: "@ + message@,
        RuntimeError::DivisionByZero => "Division by zero"@,
        RuntimeError::IndexOutOfBounds { index, length } => "Index out of bounds: "@ + decimal(index as nat)
            + " for length "@ + decimal(length as nat),
        RuntimeError::FieldNotFound { field, owner_type } => "Field not found: "@ + field@ + " in "@ + owner_type@,
        RuntimeError::FunctionCallError { message } => "Function call error: "@ + message@,
        RuntimeError::PatternMatchFailed => "Pattern match failed"@,
        RuntimeError::Generic { message } => "Runtime error: "@ + message@,
        RuntimeError::PhysicsError { message } => "Physics error: "@ + message@,
    }
}

impl RuntimeError {
    /// The message of the error.
    pub fn message(&self) -> (s: String)
        ensures
            s@ == runtime_error_text(*self),
    {
        let mut out: Vec<char> = Vec::new();
        match self {
            RuntimeError::UndefinedVariable { name } => {
                crate::text::push_str_chars(&mut out, "Undefined variable: ");
                crate::text::push_str_chars(&mut out, name.as_str());
            },
            RuntimeError::TypeError { message } => {
                crate::text::push_str_chars(&mut out, "Type error: ");
                crate::text::push_str_chars(&mut out, message.as_str());
            },
            RuntimeError::DivisionByZero => {
                crate::text::push_str_chars(&mut out, "Division by zero");
            },
            RuntimeError::IndexOutOfBounds { index, length } => {
                crate::text::push_str_chars(&mut out, "Index out of bounds: ");
                crate::text::push_decimal(&mut out, *index as u64);
                crate::text::push_str_chars(&mut out, " for length ");
                crate::text::push_decimal(&mut out, *length as u64);
            },
            RuntimeError::FieldNotFound { field, owner_type } => {
                crate::text::push_str_chars(&mut out, "Field not found: ");
                crate::text::push_str_chars(&mut out, field.as_str());
                crate::text::push_str_chars(&mut out, " in ");
                crate::text::push_str_chars(&mut out, owner_type.as_str());
            },
            RuntimeError::FunctionCallError { message } => {
                crate::text::push_str_chars(&mut out, "Function call error: ");
                crate::text::push_str_chars(&mut out, message.as_str());
            },
            RuntimeError::PatternMatchFailed => {
                crate::text::push_str_chars(&mut out, "Pattern match failed");
            },
            RuntimeError::Generic { message } => {
                crate::text::push_str_chars(&mut out, "Runtime error: ");
                crate::text::push_str_chars(&mut out, message.as_str());
            },
            RuntimeError::PhysicsError { message } => {
                crate::text::push_str_chars(&mut out, "Physics error: ");
                crate::text::push_str_chars(&mut out, message.as_str());
            },
        }
        crate::text::string_from_chars(out.as_slice())
    }
}

/// How vector computations run: on one core, with SIMD instructions, or on
/// parallel threads.
#[derive(Debug, Clone, Copy, PartialEq, Eq, Structural)]
pub enum GpuMode {
    Cpu,
    Simd,
    Parallel,
}

} // verus!
