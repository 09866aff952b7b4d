use rust_lox::chunk::OpCode;
use rust_lox::compile::Compiler;
use rust_lox::debug::{disassemble_chunk, disassemble_instruction};
use rust_lox::number::{ArithOp, NumberHost};
use rust_lox::object::{Obj, ObjType, StringTable};
use rust_lox::text::chars_of;
use rust_lox::value::{BoolAsValue, NilAsValue, NumberAsValue, Value};
use rust_lox::vm::{init_vm, InterpretResult, VM};

struct Float64;

impl NumberHost for Float64 {
    fn parse_number(&self, lexeme: &str) -> u64 {
        lexeme.parse::<f64>().unwrap().to_bits()
    }

    fn arithmetic(&self, op: ArithOp, a: u64, b: u64) -> u64 {
        let (a, b) = (f64::from_bits(a), f64::from_bits(b));
        let r = match op {
            ArithOp::Add => a + b,
            ArithOp::Subtract => a - b,
            ArithOp::Multiply => a * b,
            ArithOp::Divide => a / b,
        };
        r.to_bits()
    }

    fn format_number(&self, bits: u64) -> String {
        format!("{}", f64::from_bits(bits))
    }
}

fn run(source: &str) -> (InterpretResult, Vec<String>) {
    let mut vm = init_vm();
    let r = vm.interpret(source.to_string(), &Float64);
    (r, vm.output)
}

fn compiled(source: &str) -> (bool, Vec<u8>, Vec<String>) {
    let mut c = Compiler::new_compiler(StringTable::new());
    let ok = c.compile(&chars_of(source), &Float64);
    (ok, c.chunk.code, c.messages)
}

fn num(x: f64) -> Value {
    NumberAsValue(x.to_bits())
}

#[test]
fn arithmetic_respects_precedence() {
    let (r, out) = run("print 1 + 2 * 3;");
    assert_eq!(r, InterpretResult::InterpretOk);
    assert_eq!(out, vec!["7"]);
}

#[test]
fn grouping_and_negation() {
    assert_eq!(run("print -(1 + 2) * 4 / 2 - 1;").1, vec!["-7"]);
    assert_eq!(run("print 10 / 4;").1, vec!["2.5"]);
}

#[test]
fn string_concatenation() {
    let (r, out) = run("print \"foo\" + \"bar\";");
    assert_eq!(r, InterpretResult::InterpretOk);
    assert_eq!(out, vec!["foobar"]);
}

#[test]
fn interning_returns_the_same_reference() {
    let mut table = StringTable::new();
    let a = Obj::CopyString(&mut table, "foo".chars().collect());
    let b = Obj::CopyString(&mut table, "foo".chars().collect());
    let c = Obj::CopyString(&mut table, "bar".chars().collect());
    assert_eq!(a, b);
    assert_ne!(a, c);
    assert_eq!(table.len(), 2);
    let ObjType::ObjString(s) = a.type_of_object;
    assert_eq!(s.index, 0);
}

#[test]
fn concatenation_result_is_interned() {
    let (_, out) = run("print \"foo\" + \"bar\" == \"foobar\";");
    assert_eq!(out, vec!["true"]);
}

#[test]
fn greater_equal_is_not_less() {
    let (ok1, code1, _) = compiled("1 >= 2;");
    let (ok2, code2, _) = compiled("!(1 < 2);");
    assert!(ok1 && ok2);
    assert_eq!(code1, code2);
    let (_, code3) = (0, compiled("1 <= 2;").1);
    let (_, code4) = (0, compiled("!(1 > 2);").1);
    assert_eq!(code3, code4);
    assert_eq!(
        code1,
        vec![
            OpCode::OpConstant.byte(),
            0,
            OpCode::OpConstant.byte(),
            1,
            OpCode::OpLess.byte(),
            OpCode::OpNot.byte(),
            OpCode::OpPop.byte(),
            OpCode::OpReturn.byte()
        ]
    );
}

#[test]
fn comparisons_on_numbers() {
    let (_, out) = run("print 1 >= 2; print !(1 < 2); print 2 >= 2; print 2 <= 2; print 3 > 2; print 3 < 2;");
    assert_eq!(out, vec!["false", "false", "true", "true", "true", "false"]);
}

#[test]
fn comparisons_with_nan() {
    let (_, out) = run("print (0/0) < (0/0); print (0/0) > (0/0); print (0/0) == (0/0); print (0/0) >= (0/0); print !((0/0) < (0/0));");
    assert_eq!(out, vec!["false", "false", "false", "true", "true"]);
}

#[test]
fn zero_equals_negative_zero() {
    assert_eq!(run("print 0 == -0; print -0 < 0;").1, vec!["true", "false"]);
}

#[test]
fn global_define_and_get() {
    let (r, out) = run("var x = 3; print x;");
    assert_eq!(r, InterpretResult::InterpretOk);
    assert_eq!(out, vec!["3"]);
}

#[test]
fn global_assignment() {
    let (r, out) = run("var x = 1; x = x + 1; print x; var y; print y;");
    assert_eq!(r, InterpretResult::InterpretOk);
    assert_eq!(out, vec!["2", "nil"]);
}

#[test]
fn undefined_global_is_a_runtime_error() {
    let (r, out) = run("print y;");
    assert_eq!(r, InterpretResult::InterpretRuntimeError);
    assert_eq!(out, vec!["[line 1] in script", "Undefined variable 'y'"]);
}

#[test]
fn assigning_an_undefined_global_leaves_no_binding() {
    let mut vm = init_vm();
    let r = vm.interpret("z = 1;".to_string(), &Float64);
    assert_eq!(r, InterpretResult::InterpretRuntimeError);
    assert_eq!(vm.output, vec!["[line 1] in script", "Undefined variable 'z'"]);
    assert!(vm.globals.is_empty());
    assert!(vm.stack.is_empty());
    let r = vm.interpret("print z;".to_string(), &Float64);
    assert_eq!(r, InterpretResult::InterpretRuntimeError);
}

#[test]
fn globals_persist_across_calls() {
    let mut vm: VM = init_vm();
    assert_eq!(vm.interpret("var a = \"hi\";".to_string(), &Float64), InterpretResult::InterpretOk);
    assert_eq!(vm.interpret("print a + \"!\";".to_string(), &Float64), InterpretResult::InterpretOk);
    assert_eq!(vm.output, vec!["hi!"]);
}

#[test]
fn truthiness_table() {
    let (_, out) = run("print !nil; print !false; print !0; print !\"\"; print !true; print !1;");
    assert_eq!(out, vec!["true", "true", "false", "false", "false", "false"]);
    assert!(NilAsValue().IsFalsey());
    assert!(BoolAsValue(false).IsFalsey());
    assert!(!BoolAsValue(true).IsFalsey());
    assert!(!num(0.0).IsFalsey());
}

#[test]
fn value_equality_is_variant_aware() {
    let (_, out) = run("print nil == nil; print 1 == \"1\"; print \"a\" == \"a\"; print true == 1; print false != nil;");
    assert_eq!(out, vec!["true", "false", "true", "false", "true"]);
    assert!(num(1.5).Equals(num(1.5)));
    assert!(!num(f64::NAN).Equals(num(f64::NAN)));
    assert!(!NilAsValue().Equals(BoolAsValue(false)));
}

#[test]
fn runtime_error_stops_after_three_prints() {
    let (r, out) = run("print 1;\nprint 2;\nprint 3;\nprint y;\nprint 4;");
    assert_eq!(r, InterpretResult::InterpretRuntimeError);
    assert_eq!(out, vec!["1", "2", "3", "[line 4] in script", "Undefined variable 'y'"]);
}

#[test]
fn negate_requires_a_number() {
    let (r, out) = run("print -\"a\";");
    assert_eq!(r, InterpretResult::InterpretRuntimeError);
    assert_eq!(out, vec!["[line 1] in script", "Operand must be a number."]);
}

#[test]
fn subtraction_requires_numbers() {
    let (r, out) = run("print 1 - \"a\";");
    assert_eq!(r, InterpretResult::InterpretRuntimeError);
    assert_eq!(out[1], "Operands must be numbers.");
    let (r, out) = run("print true < 1;");
    assert_eq!(r, InterpretResult::InterpretRuntimeError);
    assert_eq!(out[1], "Operands must be numbers.");
}

#[test]
fn addition_requires_numbers_or_strings() {
    let (r, out) = run("print 1 + \"a\";");
    assert_eq!(r, InterpretResult::InterpretRuntimeError);
    assert_eq!(out, vec!["[line 1] in script", "Operands must be numbers or strings."]);
}

#[test]
fn runtime_error_reports_its_line() {
    let source = "\n\n\n\n\n\n\n\n\n\n\nprint nil * 2;";
    let (_, out) = run(source);
    assert_eq!(out[0], "[line 12] in script");
}

fn sum_of_literals(n: usize) -> String {
    let mut s = String::from("print 0");
    for i in 1..n {
        s.push_str(&format!(" + {}", i));
    }
    s.push(';');
    s
}

#[test]
fn too_many_constants_fails_compilation() {
    let (r, out) = run(&sum_of_literals(257));
    assert_eq!(r, InterpretResult::InterpretCompileError);
    assert_eq!(out, vec!["[line 1] Error at 256: Too many constants in one chunk."]);
}

#[test]
fn two_hundred_fifty_six_constants_fit() {
    let (r, out) = run(&sum_of_literals(256));
    assert_eq!(r, InterpretResult::InterpretOk);
    assert_eq!(out, vec!["32640"]);
}

#[test]
fn panic_mode_reports_one_error_per_statement() {
    let (ok, _, messages) = compiled("print (1 + ) ) );");
    assert!(!ok);
    assert_eq!(messages, vec!["[line 1] Error at ): Expect expression"]);
    let (ok, _, messages) = compiled("print 1 +;\nprint 2;\nprint );");
    assert!(!ok);
    assert_eq!(
        messages,
        vec!["[line 1] Error at ;: Expect expression", "[line 3] Error at ): Expect expression"]
    );
}

#[test]
fn compile_error_runs_nothing() {
    let mut vm = init_vm();
    let r = vm.interpret("var a = 1; print a; print".to_string(), &Float64);
    assert_eq!(r, InterpretResult::InterpretCompileError);
    assert_eq!(vm.output, vec!["[line 1] Error at end: Expect expression"]);
    assert!(vm.globals.is_empty());
}

#[test]
fn lexical_errors_are_reported() {
    let (ok, _, messages) = compiled("print @;");
    assert!(!ok);
    assert_eq!(messages, vec!["[line 1] Error: Unexpected character"]);
    let (ok, _, messages) = compiled("print \"abc");
    assert!(!ok);
    assert_eq!(messages[0], "[line 1] Error: Unterminated string.");
}

#[test]
fn invalid_assignment_target() {
    let (ok, _, messages) = compiled("1 + 2 = 3;");
    assert!(!ok);
    assert_eq!(messages, vec!["[line 1] Error at =: Invalid assignment target."]);
}

#[test]
fn missing_semicolon() {
    let (_, _, messages) = compiled("print 1");
    assert_eq!(messages, vec!["[line 1] Error at end: Expect ';' after value."]);
    let (_, _, messages) = compiled("var 1;");
    assert_eq!(messages, vec!["[line 1] Error at 1: Expect variable name."]);
}

#[test]
fn chunk_ends_with_return_and_lines_match() {
    let mut c = Compiler::new_compiler(StringTable::new());
    assert!(c.compile(&chars_of("print 1;\nprint 2;"), &Float64));
    assert_eq!(c.chunk.code.len(), c.chunk.lines.len());
    assert_eq!(*c.chunk.code.last().unwrap(), OpCode::OpReturn.byte());
    assert_eq!(c.chunk.lines, vec![1, 1, 1, 2, 2, 2, 2]);
}

#[test]
fn empty_program_is_ok() {
    let (r, out) = run("");
    assert_eq!(r, InterpretResult::InterpretOk);
    assert!(out.is_empty());
    let (r, _) = run("// only a comment\n   \t\r\n");
    assert_eq!(r, InterpretResult::InterpretOk);
}

#[test]
fn printing_literals() {
    let (_, out) = run("print true; print false; print nil; print \"two\nlines\"; print 0.5;");
    assert_eq!(out, vec!["true", "false", "nil", "two\nlines", "0.5"]);
}

#[test]
fn value_from_bool() {
    assert_eq!(Value::from(true), BoolAsValue(true));
}

#[test]
fn disassembly_lists_each_instruction() {
    let mut c = Compiler::new_compiler(StringTable::new());
    assert!(c.compile(&chars_of("print 1 + x;\n!true;"), &Float64));
    let lines = disassemble_chunk(&c.chunk, &c.strings, "code", &Float64);
    assert_eq!(
        lines,
        vec![
            "== code ==",
            "0000    1 OpConstant      \t   0 '1'",
            "0002    | OpGetGlobal     \t   1 'x'",
            "0004    | OpAdd",
            "0005    | OpPrint",
            "0006    2 OpTrue",
            "0007    | OpNot",
            "0008    | OpPop",
            "0009    | OpReturn",
        ]
    );
    let (text, next) = disassemble_instruction(&c.chunk, &c.strings, 2, &Float64);
    assert_eq!(text, "0002    | OpGetGlobal     \t   1 'x'");
    assert_eq!(next, 4);
}
