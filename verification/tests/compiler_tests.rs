use tinybasic::compile;
use tinybasic::emitter::Emitter;
use tinybasic::error::CompileError;
use tinybasic::lexer::Lexer;
use tinybasic::parser::Parser;

fn chars(s: &str) -> Vec<char> {
    s.chars().collect()
}

const PROLOGUE: &str = "#include <stdio.h>\nint main (void) {\n";
const EPILOGUE: &str = "return 0;\n}\n";

#[test]
fn blank_lines_only_give_empty_body_program() {
    let out = compile(chars("\n\n\n")).unwrap();
    let mut expected = String::from(PROLOGUE);
    expected.push_str(EPILOGUE);
    assert_eq!(out, expected);
}

#[test]
fn empty_source_gives_empty_body_program() {
    let out = compile(chars("")).unwrap();
    let mut expected = String::from(PROLOGUE);
    expected.push_str(EPILOGUE);
    assert_eq!(out, expected);
}

#[test]
fn let_then_print_declares_once_and_prints() {
    let source = "LET x = 5\nPRINT x\n";
    let lexer = Lexer::new(chars(source));
    let mut parser = Parser::new(lexer, Emitter::new()).unwrap();
    parser.program().unwrap();
    assert_eq!(parser.symbol_names().as_slice(), &[String::from("x")]);
    let out = parser.output();
    assert_eq!(
        out,
        "#include <stdio.h>\nint main (void) {\nfloat x;\nx = 5;\nprintf(\"%.2f\\n\", (float)(x));\nreturn 0;\n}\n"
    );
}

#[test]
fn print_of_undeclared_variable_fails() {
    assert_eq!(
        compile(chars("PRINT y\n")).unwrap_err(),
        CompileError::UndeclaredVariable
    );
}

#[test]
fn assignment_from_undeclared_variable_fails() {
    assert_eq!(
        compile(chars("LET x = y\n")).unwrap_err(),
        CompileError::UndeclaredVariable
    );
}

#[test]
fn forward_label_reference_is_permitted() {
    let out = compile(chars("GOTO skip\nLABEL skip\n")).unwrap();
    assert!(out.contains("goto skip;\n"));
    assert!(out.contains("skip:\n"));
}

#[test]
fn backward_label_reference_is_permitted() {
    let out = compile(chars("LABEL top\nGOTO top\n")).unwrap();
    assert!(out.contains("top:\n"));
    assert!(out.contains("goto top;\n"));
}

#[test]
fn duplicate_label_fails_even_when_unused() {
    assert_eq!(
        compile(chars("LABEL a\nLABEL a\n")).unwrap_err(),
        CompileError::DuplicateLabel
    );
}

#[test]
fn duplicate_label_fails_when_used_too() {
    assert_eq!(
        compile(chars("GOTO a\nLABEL a\nLABEL a\n")).unwrap_err(),
        CompileError::DuplicateLabel
    );
}

#[test]
fn goto_without_any_label_fails_at_program_end() {
    assert_eq!(
        compile(chars("GOTO nowhere\n")).unwrap_err(),
        CompileError::UndeclaredLabel
    );
}

#[test]
fn bare_expression_is_no_comparison() {
    assert_eq!(
        compile(chars("IF 1 THEN\nPRINT \"hi\"\nENDIF\n")).unwrap_err(),
        CompileError::MissingComparisonOperator
    );
}

#[test]
fn compiling_twice_is_byte_identical() {
    let source = "LET n = 3\nWHILE n > 0 REPEAT\nPRINT n\nLET n = n - 1\nENDWHILE\nPRINT \"done\"\n";
    let first = compile(chars(source)).unwrap();
    let second = compile(chars(source)).unwrap();
    assert_eq!(first, second);
}

#[test]
fn print_string_is_emitted_verbatim() {
    let out = compile(chars("PRINT \"hello world\"\n")).unwrap();
    assert!(out.contains("printf(\"hello world\\n\");\n"));
}

#[test]
fn if_statement_translates_to_guarded_block() {
    let out = compile(chars("LET a = 1\nIF a > 0 THEN\nPRINT a\nENDIF\n")).unwrap();
    assert!(out.contains("if(a>0) {\n"));
    assert!(out.contains("}\n"));
}

#[test]
fn while_statement_translates_to_pretest_loop() {
    let out = compile(chars("LET i = 0\nWHILE i < 10 REPEAT\nLET i = i + 1\nENDWHILE\n")).unwrap();
    assert!(out.contains("while(i<10) {\n"));
    assert!(out.contains("i = i+1;\n"));
}

#[test]
fn input_emits_guarded_read_with_recovery() {
    let out = compile(chars("INPUT n\nPRINT n\n")).unwrap();
    assert!(out.contains("float n;\n"));
    assert!(out.contains("if (0 == scanf(\"%f\", &n)) {\n"));
    assert!(out.contains("n = 0;\n"));
    assert!(out.contains("scanf(\"%*s\");\n"));
}

#[test]
fn redeclaring_a_variable_is_a_no_op() {
    let source = "LET x = 1\nLET x = 2\n";
    let lexer = Lexer::new(chars(source));
    let mut parser = Parser::new(lexer, Emitter::new()).unwrap();
    parser.program().unwrap();
    assert_eq!(parser.symbol_names().as_slice(), &[String::from("x")]);
    let out = parser.output();
    assert_eq!(out.matches("float x;").count(), 1);
}

#[test]
fn label_tables_record_declared_and_used() {
    let source = "LABEL top\nGOTO top\nGOTO top\n";
    let lexer = Lexer::new(chars(source));
    let mut parser = Parser::new(lexer, Emitter::new()).unwrap();
    parser.program().unwrap();
    assert_eq!(parser.declared_labels().as_slice(), &[String::from("top")]);
    assert_eq!(parser.used_labels().as_slice(), &[String::from("top")]);
}

#[test]
fn lowercase_keywords_compile_too() {
    let out = compile(chars("let x = 1\nprint x\n")).unwrap();
    assert!(out.contains("float x;\n"));
    assert!(out.contains("x = 1;\n"));
}

#[test]
fn statement_must_open_with_keyword() {
    assert_eq!(
        compile(chars("+\n")).unwrap_err(),
        CompileError::InvalidStatement
    );
}

#[test]
fn missing_then_is_a_token_mismatch() {
    assert_eq!(
        compile(chars("IF 1 < 2\nPRINT \"x\"\nENDIF\n")).unwrap_err(),
        CompileError::ExpectedToken
    );
}

#[test]
fn let_needs_an_identifier_target() {
    assert_eq!(
        compile(chars("LET 5 = 5\n")).unwrap_err(),
        CompileError::ExpectedToken
    );
}

#[test]
fn lexical_failure_reaches_the_compiler_caller() {
    assert_eq!(
        compile(chars("LET x = 1.\n")).unwrap_err(),
        CompileError::IllegalNumberChar
    );
    assert_eq!(compile(chars("?\n")).unwrap_err(), CompileError::UnknownToken);
    assert_eq!(
        compile(chars("PRINT \"a%b\"\n")).unwrap_err(),
        CompileError::IllegalStringChar
    );
}

#[test]
fn comments_and_blank_lines_are_skipped() {
    let out = compile(chars("-- a comment line\n\nLET x = 2\n-- done\n")).unwrap();
    assert!(out.contains("x = 2;\n"));
}

#[test]
fn unary_signs_are_reemitted_as_prefix() {
    let out = compile(chars("LET x = -5\nLET y = +x\n")).unwrap();
    assert!(out.contains("x = -5;\n"));
    assert!(out.contains("y = +x;\n"));
}

#[test]
fn chained_comparisons_are_accepted() {
    let out = compile(chars("IF 1 < 2 == 3 THEN\nPRINT \"x\"\nENDIF\n")).unwrap();
    assert!(out.contains("if(1<2==3) {\n"));
}

#[test]
fn not_operator_lexes_but_never_parses() {
    // A lone `!` is accepted by the lexer, but no grammar rule consumes it.
    assert_eq!(
        compile(chars("LET x = !1\n")).unwrap_err(),
        CompileError::ExpectedToken
    );
    assert_eq!(
        compile(chars("IF 1 ! 2 THEN\nPRINT \"x\"\nENDIF\n")).unwrap_err(),
        CompileError::MissingComparisonOperator
    );
}

#[test]
fn nested_control_structures_compile() {
    let src = "LET n = 2\nWHILE n > 0 REPEAT\nIF n == 1 THEN\nPRINT \"one\"\nENDIF\nLET n = n - 1\nENDWHILE\n";
    let out = compile(chars(src)).unwrap();
    assert!(out.contains("while(n>0) {\n"));
    assert!(out.contains("if(n==1) {\n"));
}

#[test]
fn label_declared_inside_a_loop_counts() {
    let out = compile(chars("GOTO inner\nWHILE 1 < 2 REPEAT\nLABEL inner\nENDWHILE\n")).unwrap();
    assert!(out.contains("inner:\n"));
    assert!(out.contains("goto inner;\n"));
}

#[test]
fn full_program_translates_exactly() {
    let src = "PRINT \"How many fibonacci numbers do you want?\"\nINPUT nums\nLET a = 0\nLET b = 1\nWHILE nums > 0 REPEAT\nPRINT a\nLET c = a + b\nLET a = b\nLET b = c\nLET nums = nums - 1\nENDWHILE\n";
    let out = compile(chars(src)).unwrap();
    let expected = String::new()
        + "#include <stdio.h>\n"
        + "int main (void) {\n"
        + "float nums;\n"
        + "float a;\n"
        + "float b;\n"
        + "float c;\n"
        + "printf(\"How many fibonacci numbers do you want?\\n\");\n"
        + "if (0 == scanf(\"%f\", &nums)) {\n"
        + "nums = 0;\n"
        + "scanf(\"%*s\");\n"
        + "}\n"
        + "a = 0;\n"
        + "b = 1;\n"
        + "while(nums>0) {\n"
        + "printf(\"%.2f\\n\", (float)(a));\n"
        + "c = a+b;\n"
        + "a = b;\n"
        + "b = c;\n"
        + "nums = nums-1;\n"
        + "}\n"
        + "return 0;\n"
        + "}\n";
    assert_eq!(out, expected);
}

#[test]
fn emitter_concatenates_header_then_body() {
    let mut e = Emitter::new();
    e.emit("a");
    e.emit_line("b");
    e.header_line("h");
    let out = e.output();
    assert_eq!(out, "h\nab\n");
}

#[test]
fn describe_names_each_failure() {
    assert_eq!(CompileError::UnknownToken.describe(), "unknown token");
    assert_eq!(
        CompileError::DuplicateLabel.describe(),
        "label already exists"
    );
    assert_eq!(
        CompileError::UndeclaredVariable.describe(),
        "referencing variable before assignment"
    );
}
