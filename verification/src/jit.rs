//! What the just-in-time compiler reports: its errors and statistics.
use vstd::prelude::*;

verus! {

/// An error of just-in-time compilation.
#[derive(Debug, Clone, PartialEq, Eq)]
pub enum JitError {
    NotAvailable,
    NotInitialized,
    CompilationFailed(String),
    UnsupportedType(String),
    FunctionNotFound(String),
    TypeInferenceFailed(String),
    OptimizationFailed(String),
    ExecutionFailed(String),
    LlvmError(String),
}

/// The message of a compilation error.
pub open spec fn jit_error_text(e: JitError) -> Seq<char> {
    match e {
        JitError::NotAvailable => "JIT compilation not available"@,
        JitError::NotInitialized => "JIT context not initialized"@,
        JitError::CompilationFailed(s) => "Compilation failed: "@ + s@,
        JitError::UnsupportedType(s) => "Unsupported type: "@ + s@,
        JitError::FunctionNotFound(s) => "Function not found: "@ + s@,
        JitError::TypeInferenceFailed(s) => "Type inference failed: "@ + s@,
        JitError::OptimizationFailed(s) => "Optimization failed: "@ + s@,
        JitError::ExecutionFailed(s) => "Execution failed: "@ + s@,
        JitError::LlvmError(s) => "LLVM error: "@ + s@,
    }
}

impl JitError {
    /// The message of the error.
    pub fn message(&self) -> (s: String)
        ensures
            s@ == jit_error_text(*self),
    {
        let mut out: Vec<char> = Vec::new();
        let (prefix, detail): (&str, Option<&String>) = match self {
            JitError::NotAvailable => ("JIT compilation not available", None),
            JitError::NotInitialized => ("JIT context not initialized", None),
            JitError::CompilationFailed(s) => ("Compilation failed: ", Some(s)),
            JitError::UnsupportedType(s) => ("Unsupported type: ", Some(s)),
            JitError::FunctionNotFound(s) => ("Function not found: ", Some(s)),
            JitError::TypeInferenceFailed(s) => ("Type inference failed: ", Some(s)),
            JitError::OptimizationFailed(s) => ("Optimization failed: ", Some(s)),
            JitError::ExecutionFailed(s) => ("Execution failed: ", Some(s)),
            JitError::LlvmError(s) => ("LLVM error: ", Some(s)),
        };
        crate::text::push_str_chars(&mut out, prefix);
        if let Some(d) = detail {
            crate::text::push_str_chars(&mut out, d.as_str());
        }
        crate::text::string_from_chars(out.as_slice())
    }
}

/// Statistics of just-in-time compilation.
#[derive(Debug, Clone, Copy, PartialEq, Eq, Structural)]
pub struct JitStats {
    pub functions_compiled: usize,
    pub total_compilation_time_ms: u64,
    pub optimizations_applied: usize,
    pub cache_hits: usize,
    pub cache_misses: usize,
}

impl Default for JitStats {
    fn default() -> (r: JitStats)
        ensures
            r == (JitStats {
                functions_compiled: 0,
                total_compilation_time_ms: 0,
                optimizations_applied: 0,
                cache_hits: 0,
                cache_misses: 0,
            }),
    {
        JitStats {
            functions_compiled: 0,
            total_compilation_time_ms: 0,
            optimizations_applied: 0,
            cache_hits: 0,
            cache_misses: 0,
        }
    }
}

} // verus!
