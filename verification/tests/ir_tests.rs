use matrix_lang::eval::{GpuMode, JitError as EvalJitError, RuntimeError};
use matrix_lang::gui::{Inspector, ObjectHierarchy, Viewport};
use matrix_lang::ir::{
    BasicBlock, IrConstant, IrFunction, IrGenerator, IrInstruction, IrModule, IrOptimizer, IrParam, IrPredicate,
    IrPrinter, IrTerminator, IrType, IrValue,
};
use matrix_lang::jit::{JitError, JitStats};
use matrix_lang::parser::parse_source;

fn reg(n: &str) -> IrValue {
    IrValue::Register(n.to_string())
}

fn generate(source: &str) -> IrModule {
    let program = parse_source(source).expect("program parses");
    IrGenerator::new().generate(&program)
}

#[test]
fn generated_module_declares_the_library_then_main() {
    let m = generate("let x = 1 + 2");
    assert_eq!(m.functions.len(), 6);
    assert!(m.globals.is_empty());
    assert!(m.types.is_empty());
    let names: Vec<&str> = m.functions.iter().map(|f| f.name.as_str()).collect();
    assert_eq!(names, vec!["sin", "cos", "sqrt", "pow", "print", "main"]);
    let p = IrPrinter;
    assert_eq!(p.print_function(&m.functions[0]), "declare f64 @sin(f64 %arg0)\n");
    assert_eq!(p.print_function(&m.functions[3]), "declare f64 @pow(f64 %arg0, f64 %arg1)\n");
    assert_eq!(p.print_function(&m.functions[4]), "declare void @print(i8* %arg0)\n");
}

#[test]
fn a_binding_gets_a_slot_and_a_store() {
    let m = generate("let x = 1 + 2");
    let main = &m.functions[5];
    assert_eq!(main.basic_blocks.len(), 1);
    assert_eq!(
        IrPrinter.print_function(main),
        "define void @main() {\nentry:\n  %0 = alloca f64\n  %1 = fadd 1, 2\n  store %1, %0\n  ret void\n}\n"
    );
}

#[test]
fn bound_names_are_loaded_from_their_slots() {
    let m = generate("let x = 5\nlet y = x * 2");
    let main = &m.functions[5];
    assert_eq!(main.basic_blocks.len(), 2);
    assert_eq!(
        IrPrinter.print_function(main),
        "define void @main() {\nentry:\n  %0 = alloca f64\n  store 5, %0\n  %1 = alloca f64\n  %2 = load %0\n  %3 = fmul %2, 2\n  store %3, %1\n  ret void\nadditional_0:\n  ret void\n}\n"
    );
}

#[test]
fn unbound_names_and_other_expressions_are_null() {
    let m = generate("let a = b\nlet c = p.x");
    let text = IrPrinter.print_function(&m.functions[5]);
    assert!(text.contains("  store null, %0\n"));
    assert!(text.contains("  store null, %1\n"));
}

#[test]
fn calls_arrays_matrices_and_comparisons() {
    let m = generate("let s = sin(1.5, \"t\")\nlet v = [1, 2]\nlet w = [[1, 2], [3, 4]]\nlet e = 1 == 2\nlet l = 1 < 2\nlet o = 1 > 2");
    let entry = &m.functions[5].basic_blocks[0];
    let texts: Vec<String> = entry.instructions.iter().map(|i| IrPrinter.instruction_to_string(i)).collect();
    assert_eq!(
        texts,
        vec![
            "%0 = alloca f64",
            "%1 = call @sin(1.5, \"t\")",
            "store %1, %0",
            "%2 = alloca f64",
            "%3 = vector_create [1, 2]",
            "store %3, %2",
            "%4 = alloca f64",
            "%5 = matrix_create 2x2 [1, 2, 3, 4]",
            "store %5, %4",
            "%6 = alloca f64",
            "%7 = fcmp oeq 1, 2",
            "store %7, %6",
            "%8 = alloca f64",
            "%9 = fcmp olt 1, 2",
            "store %9, %8",
            "%10 = alloca f64",
            "%11 = fadd 1, 2",
            "store %11, %10",
        ]
    );
}

#[test]
fn registers_and_bindings_carry_over_between_programs() {
    let mut g = IrGenerator::new();
    let first = parse_source("let x = 1").unwrap();
    let second = parse_source("let y = x").unwrap();
    g.generate(&first);
    let m = g.generate(&second);
    let texts: Vec<String> =
        m.functions[5].basic_blocks[0].instructions.iter().map(|i| IrPrinter.instruction_to_string(i)).collect();
    assert_eq!(texts, vec!["%1 = alloca f64", "%2 = load %0", "store %2, %1"]);
}

#[test]
fn items_other_than_bindings_give_no_code() {
    let m = generate("struct P {\n  x: Float\n}\n1 + 2");
    assert!(m.functions[5].basic_blocks[0].instructions.is_empty());
    assert_eq!(m.functions[5].basic_blocks[1].label, "additional_0");
}

#[test]
fn printer_forms() {
    let p = IrPrinter;
    assert_eq!(p.type_to_string(&IrType::Matrix(Box::new(IrType::Float(64)), 2, 3)), "f64[2][3]");
    assert_eq!(p.type_to_string(&IrType::Pointer(Box::new(IrType::Integer(32)))), "i32*");
    assert_eq!(p.constant_to_string(&IrConstant::Integer(-7)), "-7");
    assert_eq!(
        p.constant_to_string(&IrConstant::Vector(vec![IrConstant::Boolean(true), IrConstant::Null])),
        "[true, null]"
    );
    assert_eq!(p.value_to_string(&IrValue::Global("g".to_string())), "@g");
    assert_eq!(
        p.instruction_to_string(&IrInstruction::ICmp {
            result: reg("%0"),
            predicate: IrPredicate::LessEqual,
            left: reg("%1"),
            right: reg("%2"),
        }),
        "%0 = icmp sle %1, %2"
    );
    assert_eq!(
        p.terminator_to_string(&IrTerminator::Branch {
            condition: reg("%c"),
            true_block: "then".to_string(),
            false_block: "else".to_string(),
        }),
        "br %c, label %then, label %else"
    );
    assert_eq!(p.terminator_to_string(&IrTerminator::Unreachable), "unreachable");
}

#[test]
fn module_text_has_header_and_functions() {
    let m = IrModule {
        functions: vec![IrFunction {
            name: "f".to_string(),
            params: vec![IrParam { name: "a".to_string(), param_type: IrType::Boolean }],
            return_type: IrType::Void,
            basic_blocks: vec![BasicBlock {
                label: "entry".to_string(),
                instructions: vec![],
                terminator: IrTerminator::Return(None),
            }],
            is_external: false,
        }],
        globals: vec![],
        types: vec![],
    };
    assert_eq!(
        IrPrinter.print_module(&m),
        "; Matrix Language IR Module\n\ndefine void @f(i1 %a) {\nentry:\n  ret void\n}\n\n"
    );
}

#[test]
fn dead_code_elimination_drops_empty_blocks() {
    let m = generate("let x = 1\nlet y = 2");
    assert_eq!(m.functions[5].basic_blocks.len(), 2);
    let o = IrOptimizer::new();
    let m = o.common_subexpression_elimination(o.dead_code_elimination(m));
    assert_eq!(m.functions.len(), 6);
    assert_eq!(m.functions[5].basic_blocks.len(), 1);
    assert_eq!(m.functions[5].basic_blocks[0].label, "entry");
}

#[test]
fn error_messages() {
    assert_eq!(EvalJitError::NotAvailable.message(), "JIT compilation not available");
    assert_eq!(
        RuntimeError::IndexOutOfBounds { index: 5, length: 3 }.message(),
        "Index out of bounds: 5 for length 3"
    );
    assert_eq!(
        RuntimeError::FieldNotFound { field: "x".to_string(), owner_type: "P".to_string() }.message(),
        "Field not found: x in P"
    );
    assert_eq!(RuntimeError::DivisionByZero.message(), "Division by zero");
    assert_eq!(JitError::CompilationFailed("bad".to_string()).message(), "Compilation failed: bad");
    assert_eq!(JitError::NotInitialized.message(), "JIT context not initialized");
    let s = JitStats::default();
    assert_eq!(s.functions_compiled, 0);
    assert_eq!(s.cache_misses, 0);
    assert_ne!(GpuMode::Cpu, GpuMode::Simd);
}

#[test]
fn gui_panels_construct() {
    let mut i = Inspector::new();
    i.update();
    i.render();
    let mut h = ObjectHierarchy::new();
    h.update();
    h.render();
    let mut v = Viewport::new();
    v.update();
    v.render();
}
