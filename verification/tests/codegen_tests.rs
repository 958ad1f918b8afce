use mylang_compiler::ast::Program;
use mylang_compiler::parser::Parser;
use mylang_compiler::tokenizer::Tokenizer;
use mylang_compiler::codegenerator::generate;

fn compile(src: &str) -> Result<String, String> {
    let mut parser = Parser::new();
    parser
        .parse(Tokenizer::new(src.as_bytes().to_vec()))
        .map_err(|e| e.message.clone())?;
    let ast = parser.finalize().map_err(|e| e.message)?;
    generate(Program { name: "test".to_string(), ast }).map_err(|e| e.message)
}

fn ir(src: &str) -> String {
    compile(src).unwrap_or_else(|e| panic!("compilation failed: {e}"))
}

fn ir_err(src: &str) -> String {
    match compile(src) {
        Ok(out) => panic!("expected an emission error, got:\n{out}"),
        Err(e) => e,
    }
}

#[test]
fn public_constant_global() {
    assert_eq!(ir("pub def x: I32 = 42;"), "@x = constant i32 42\n");
}

#[test]
fn mutable_float_global() {
    assert_eq!(ir("var y: F32 = 3.5;"), "@y = private global float 3.5\n");
}

#[test]
fn initializer_copied_from_referent() {
    assert_eq!(
        ir("def a: I32 = 7; def b: I32 = a;"),
        "@a = private constant i32 7\n@b = private constant i32 7\n"
    );
}

#[test]
fn identity_function() {
    assert_eq!(
        ir("pub def id(x: I32) -> I32 do x;"),
        "define i32 @id(i32 %0) {\nentry:\n  ret i32 %0\n}\n"
    );
}

#[test]
fn boolean_global_emits_one_bit_integer() {
    assert_eq!(ir("pub def one: Bool = true;"), "@one = constant i1 1\n");
    assert_eq!(ir("def no: U1 = false;"), "@no = private constant i1 0\n");
}

#[test]
fn integer_literal_as_float_initializer() {
    assert_eq!(ir("def y: F64 = 3;"), "@y = private constant double 3\n");
    assert_eq!(
        ir("def g() -> F32 do 5;"),
        "define private float @g() {\nentry:\n  ret float 5\n}\n"
    );
}

#[test]
fn several_parameters() {
    assert_eq!(
        ir("pub def second(a: I8, b: F128) -> F128 do b;"),
        "define fp128 @second(i8 %0, fp128 %1) {\nentry:\n  ret fp128 %1\n}\n"
    );
}

#[test]
fn literal_function_bodies() {
    assert_eq!(
        ir("def f() -> I64 do 9;"),
        "define private i64 @f() {\nentry:\n  ret i64 9\n}\n"
    );
    assert_eq!(
        ir("def t() -> Bool do true;"),
        "define private i1 @t() {\nentry:\n  ret i1 1\n}\n"
    );
    assert_eq!(
        ir("def h() -> F16 do 2.25;"),
        "define private half @h() {\nentry:\n  ret half 2.25\n}\n"
    );
}

#[test]
fn type_mismatches_are_errors() {
    assert_eq!(
        ir_err("def x: I32 = 3.5;"),
        "Decimal literal of this type is not implemented"
    );
    assert_eq!(
        ir_err("def x: F32 = true;"),
        "Boolean literal of this type is not implemented"
    );
    assert_eq!(
        ir_err("def f() -> I32 do 1.5;"),
        "Cannot return a decimal literal from an integer function"
    );
    assert_eq!(
        ir_err("def f() -> F32 do true;"),
        "Cannot return a boolean literal from a floating point function"
    );
    assert_eq!(
        ir_err("pub def f(x: I64) -> I32 do x;"),
        "Cannot return a value of this type from an integer function"
    );
    assert_eq!(
        ir_err("pub def f(x: I64) -> F32 do x;"),
        "Cannot return an integer value from a floating point function"
    );
}

#[test]
fn body_identifier_must_name_a_parameter() {
    assert_eq!(
        ir_err("def y: I32 = 1; def f(x: I32) -> I32 do y;"),
        "Identifier not found in function arguments"
    );
}

#[test]
fn referent_must_exist_and_fit() {
    assert_eq!(
        ir_err("def b: I32 = b;"),
        // `b` resolves to itself, but nothing is emitted for it yet when its
        // own initializer is computed.
        "Identifier had not yet been declared"
    );
    assert_eq!(
        ir_err("def a: I64 = 7; def b: I32 = a;"),
        "Identifier of an incompatible type"
    );
}

#[test]
fn signed_and_unsigned_widths_coincide() {
    assert_eq!(ir("def a: U32 = 1;"), "@a = private constant i32 1\n");
    assert_eq!(ir("def b: I32 = 1;"), "@b = private constant i32 1\n");
    assert_eq!(ir("def c: U128 = 1;"), "@c = private constant i128 1\n");
}
