use gscriptrust::ast::{ASTNode, AST};
use gscriptrust::error::{ETypes, ErrorStack};
use gscriptrust::host::FloatUnit;
use gscriptrust::lexer::Lexer;
use gscriptrust::parser::Parser;
use gscriptrust::semantics::Halt;
use gscriptrust::token::{Token, TokenType};
use gscriptrust::visitor::Visitor;

struct Host;

impl FloatUnit for Host {
    fn parse(&self, text: &String) -> Option<u32> {
        text.parse::<f32>().ok().map(f32::to_bits)
    }

    fn from_int(&self, value: i32) -> u32 {
        (value as f32).to_bits()
    }

    fn add(&self, a: u32, b: u32) -> u32 {
        (f32::from_bits(a) + f32::from_bits(b)).to_bits()
    }

    fn sub(&self, a: u32, b: u32) -> u32 {
        (f32::from_bits(a) - f32::from_bits(b)).to_bits()
    }

    fn mul(&self, a: u32, b: u32) -> u32 {
        (f32::from_bits(a) * f32::from_bits(b)).to_bits()
    }

    fn div(&self, a: u32, b: u32) -> u32 {
        (f32::from_bits(a) / f32::from_bits(b)).to_bits()
    }

    fn rem(&self, a: u32, b: u32) -> u32 {
        (f32::from_bits(a) % f32::from_bits(b)).to_bits()
    }

    fn neg(&self, a: u32) -> u32 {
        (-f32::from_bits(a)).to_bits()
    }

    fn equal(&self, a: u32, b: u32) -> bool {
        f32::from_bits(a) == f32::from_bits(b)
    }

    fn less(&self, a: u32, b: u32) -> bool {
        f32::from_bits(a) < f32::from_bits(b)
    }

    fn less_equal(&self, a: u32, b: u32) -> bool {
        f32::from_bits(a) <= f32::from_bits(b)
    }

    fn to_text(&self, a: u32) -> String {
        f32::from_bits(a).to_string()
    }
}

fn lex(source: &str) -> (Vec<Token>, ErrorStack) {
    let mut lexer = Lexer::new("test.gsc", source, ErrorStack::new());
    lexer.lex(&Host);
    (lexer.tokens, lexer.errorstack)
}

fn parse(source: &str) -> (Option<ASTNode>, ErrorStack, bool) {
    let (tokens, errors) = lex(source);
    let mut parser = Parser::new(&tokens, errors);
    let tree = parser.parse_compound();
    (tree, parser.errorstack, parser.halted)
}

struct Run {
    result: Result<ASTNode, Halt>,
    visitor: Visitor,
}

fn run_with(source: &str, input: &[&str], fuel: u64) -> Run {
    let (tree, errors, halted) = parse(source);
    assert!(!halted, "the parser halted");
    let tree = tree.expect("a tree");
    let mut visitor = Visitor::new(errors);
    for line in input {
        visitor.input.push(line.to_string());
    }
    let result = visitor.visit(&Host, &tree, fuel);
    Run { result, visitor }
}

fn run(source: &str) -> Run {
    run_with(source, &[], 10_000)
}

fn output(source: &str) -> Vec<String> {
    let r = run(source);
    assert!(r.result.is_ok(), "halted: {:?}", r.visitor.errorstack);
    r.visitor.output
}

fn halt(r: &Run) -> Option<Halt> {
    r.result.as_ref().err().copied()
}

fn kinds(r: &Run) -> Vec<ETypes> {
    r.visitor.errorstack.errors.iter().map(|e| e.etype).collect()
}

#[test]
fn adds_two_variables() {
    assert_eq!(output("assign a = 1; assign b = 2; write(a + b)"), vec!["3"]);
}

#[test]
fn assigns_into_a_list() {
    assert_eq!(output("assign xs = [10, 20, 30]; xs[1] = 99; write(xs)"), vec!["[10, 99, 30]"]);
}

#[test]
fn computes_a_factorial_by_recursion() {
    let source = "funct fact(param n) { if (n == 0) { return 1 } else { return n * fact(n - 1) } }; write(fact(5))";
    assert_eq!(output(source), vec!["120"]);
}

#[test]
fn counts_in_a_loop() {
    assert_eq!(
        output("assign i = 0; while (i < 3) { write(i); i = i + 1 }"),
        vec!["0", "1", "2"]
    );
}

#[test]
fn calls_a_method_of_an_object() {
    let source = "blueprint Point { prop x; prop y; method funct create(param a, param b) { x = a; y = b }; method funct sum() { return x + y } }; assign p = new Point(3, 4); write(p.sum())";
    assert_eq!(output(source), vec!["7"]);
}

#[test]
fn assigns_into_a_nested_list() {
    let source = "assign m = [[1,2],[3,4]]; m[1][0] = 9; write(m[1][0]); write(m[0][1])";
    assert_eq!(output(source), vec!["9", "2"]);
}

#[test]
fn nested_cells_are_shared_between_variables() {
    let source = "assign a = [[1,2],[3,4]]; assign b = a; a[0][1] = 9; write(b[0][1]); a[1] = 7; write(b[1])";
    assert_eq!(output(source), vec!["9", "[3, 4]"]);
}

#[test]
fn length_counts_elements_and_characters() {
    assert_eq!(
        output("write(length([1, 2, 3])); write(length(\"abc\")); write(length([])); write(length(5))"),
        vec!["3", "3", "0", "0"]
    );
}

#[test]
fn a_type_equals_itself() {
    assert_eq!(
        output("write(type(1) == type(1)); write(type(1) == type(2)); write(type(1) == type(\"a\")); write(type([1]) != type(true))"),
        vec!["true", "true", "false", "true"]
    );
}

#[test]
fn types_have_names() {
    let source = "blueprint B { method funct create() { } }; write(type(1)); write(type(1.5)); write(type(\"s\")); write(type(true)); write(type([1])); write(type(new B())); write(type(write()))";
    assert_eq!(
        output(source),
        vec!["Integer", "Float", "String", "Boolean", "List_Obj", "B", "", "Null"]
    );
}

#[test]
fn objects_of_one_blueprint_have_one_type() {
    let source = "blueprint A { method funct create() { } }; blueprint B { method funct create() { } }; write(type(new A()) == type(new A())); write(type(new A()) == type(new B()))";
    assert_eq!(output(source), vec!["true", "false"]);
}

#[test]
fn integers_stay_integers_and_floats_spread() {
    assert_eq!(
        output("write(type(7 / 2)); write(7 / 2); write(7 % 3); write(type(1 + 2.5)); write(1 + 2.5); write(2 * 1.5); write(-7 / 2); write(-7 % 3)"),
        vec!["Integer", "3", "1", "Float", "3.5", "3", "-3", "-1"]
    );
}

#[test]
fn integer_arithmetic_wraps() {
    assert_eq!(
        output("write(2147483647 + 1); write(0 - 2147483647 - 2); write(65536 * 65536)"),
        vec!["-2147483648", "2147483647", "0"]
    );
}

#[test]
fn comparisons_yield_truth_values() {
    assert_eq!(
        output("write(1 < 2); write(2 <= 1); write(\"a\" == \"a\"); write(\"a\" != \"b\"); write(true & false); write(true | false); write(!true); write(1.5 > 1); write(-3)"),
        vec!["true", "false", "true", "true", "false", "true", "false", "true", "-3"]
    );
}

#[test]
fn operators_on_mismatched_kinds_yield_no_value() {
    assert_eq!(output("write(1 + \"a\"); write(true < false)"), vec!["no operation", "no operation"]);
}

#[test]
fn precedence_binds_product_before_sum() {
    assert_eq!(output("write(1 + 2 * 3); write((1 + 2) * 3); write(10 - 2 - 3)"), vec!["7", "9", "5"]);
}

#[test]
fn break_ends_a_loop_in_its_first_round() {
    let source = "assign n = 0; while (true) { n = n + 1; break; n = n + 100 }; write(n)";
    assert_eq!(output(source), vec!["1"]);
}

#[test]
fn return_leaves_a_loop_and_the_function() {
    let source = "funct first() { assign i = 0; while (true) { i = i + 1; if (i == 4) { return i } } }; write(first())";
    assert_eq!(output(source), vec!["4"]);
}

#[test]
fn a_copy_of_an_object_is_independent() {
    let source = "blueprint Box { prop p; method funct create(param v) { p = v } }; assign x = new Box(1); assign y = x; y.p = 5; write(x.p); write(y.p)";
    assert_eq!(output(source), vec!["1", "5"]);
}

#[test]
fn recursion_sees_the_root_scope_at_every_depth() {
    let source = "assign base = 10; funct down(param n) { if (n == 0) { return base } else { return down(n - 1) } }; write(down(5))";
    assert_eq!(output(source), vec!["10"]);
}

#[test]
fn a_frame_does_not_see_the_callers_frame() {
    let source = "funct inner() { return hidden }; funct outer(param hidden) { return inner() }; write(outer(1))";
    let r = run(source);
    assert_eq!(halt(&r), Some(Halt::Fatal));
    assert_eq!(kinds(&r), vec![ETypes::IdentifierError]);
}

#[test]
fn definitions_yield_no_value() {
    let r = run("assign a = 1");
    match r.result {
        Ok(node) => assert!(matches!(node.kind, AST::NOOP)),
        Err(h) => panic!("halted: {:?}", h),
    }
    let mut v = Visitor::new(ErrorStack::new());
    let (tree, _, _) = parse("assign b = 2");
    let tree = tree.unwrap();
    let first = match &tree.kind {
        AST::COMPOUND { compound_value } => &compound_value[0],
        _ => panic!("no compound"),
    };
    assert!(matches!(first.kind, AST::VAR_DEF { .. }));
    let value = v.visit(&Host, first, 10).unwrap();
    assert!(matches!(value.kind, AST::NOOP));
    assert_eq!(v.scopes[0].variables.len(), 1);
}

#[test]
fn division_by_zero_is_fatal() {
    let r = run("write(1); write(1 / 0); write(2)");
    assert_eq!(halt(&r), Some(Halt::Fatal));
    assert_eq!(kinds(&r), vec![ETypes::DivideByZeroError]);
    assert_eq!(r.visitor.errorstack.errors[0].message, "Cannot divide by zero");
    assert_eq!(r.visitor.output, vec!["1"]);
    assert_eq!(r.visitor.halted, Some(Halt::Fatal));
    let r = run("write(1 % 0)");
    assert_eq!(kinds(&r), vec![ETypes::DivideByZeroError]);
    let r = run("write(1.5 / 0)");
    assert_eq!(kinds(&r), vec![ETypes::DivideByZeroError]);
}

#[test]
fn an_undefined_variable_is_fatal() {
    let r = run("write(nothing)");
    assert_eq!(halt(&r), Some(Halt::Fatal));
    assert_eq!(kinds(&r), vec![ETypes::IdentifierError]);
    assert_eq!(
        r.visitor.errorstack.errors[0].message,
        "Variable 'nothing' does not exist in the current scope"
    );
}

#[test]
fn defining_a_variable_twice_is_fatal() {
    let r = run("assign a = 1; assign a = 2");
    assert_eq!(kinds(&r), vec![ETypes::VariableDefinitionError]);
    assert_eq!(
        r.visitor.errorstack.errors[0].message,
        "Variable 'a' already exists in the current scope"
    );
    let r = run("b = 2");
    assert_eq!(kinds(&r), vec![ETypes::VariableDefinitionError]);
    assert_eq!(
        r.visitor.errorstack.errors[0].message,
        "Variable 'b' does not exist in the current scope"
    );
}

#[test]
fn defining_a_function_twice_is_fatal() {
    let r = run("funct f() { }; funct f() { }");
    assert_eq!(halt(&r), Some(Halt::Fatal));
    assert_eq!(kinds(&r), vec![ETypes::FunctionDefinitionError]);
}

#[test]
fn calls_check_the_function_and_its_arity() {
    let r = run("missing(1)");
    assert_eq!(halt(&r), Some(Halt::Fatal));
    assert_eq!(kinds(&r), vec![ETypes::FunctionError]);
    let r = run("funct f(param a) { return a }; write(f(1, 2)); write(3)");
    assert!(r.result.is_ok());
    assert_eq!(kinds(&r), vec![ETypes::FunctionError]);
    assert_eq!(
        r.visitor.errorstack.errors[0].message,
        "Function 'f' requires 1 argument(s), not 2"
    );
    assert_eq!(r.visitor.output, vec!["no operation", "3"]);
}

#[test]
fn a_condition_must_be_a_truth_value() {
    let r = run("if (1) { write(1) }; write(2)");
    assert!(r.result.is_ok());
    assert_eq!(kinds(&r), vec![ETypes::ConditionalError]);
    assert_eq!(r.visitor.output, vec!["2"]);
}

#[test]
fn conditions_are_tried_in_order() {
    let source = "funct pick(param n) { if (n == 1) { return \"one\" } else if (n == 2) { return \"two\" } else { return \"many\" } }; write(pick(1)); write(pick(2)); write(pick(3))";
    assert_eq!(output(source), vec!["one", "two", "many"]);
}

#[test]
fn indexing_checks_kinds_and_bounds() {
    let r = run("assign a = [1, 2]; write(a[2])");
    assert_eq!(halt(&r), Some(Halt::Fatal));
    assert_eq!(kinds(&r), vec![ETypes::ListError]);
    assert_eq!(
        r.visitor.errorstack.errors[0].message,
        "Index 2 is out of bounds for list of length 2"
    );
    let r = run("assign a = [1, 2]; write(a[0 - 1])");
    assert_eq!(
        r.visitor.errorstack.errors[0].message,
        "Index -1 is out of bounds for list of length 2"
    );
    let r = run("assign a = [1, 2]; write(a[true])");
    assert_eq!(halt(&r), Some(Halt::Fatal));
    assert_eq!(r.visitor.errorstack.errors[0].message, "Expected integer to index list");
    let r = run("assign a = 5; write(a[0])");
    assert!(r.result.is_ok());
    assert_eq!(kinds(&r), vec![ETypes::ListError]);
    let r = run("assign a = [1, 2]; a[5] = 1");
    assert_eq!(halt(&r), Some(Halt::Fatal));
    assert_eq!(kinds(&r), vec![ETypes::ListError]);
}

#[test]
fn blueprints_need_a_constructor_and_a_definition() {
    let r = run("assign p = new Missing()");
    assert_eq!(halt(&r), Some(Halt::Fatal));
    assert_eq!(kinds(&r), vec![ETypes::BlueprintError]);
    let r = run("blueprint B { prop x; }; assign p = new B()");
    assert_eq!(halt(&r), Some(Halt::Fatal));
    assert_eq!(
        r.visitor.errorstack.errors[0].message,
        "Expected constructor method 'create' for blueprint definition"
    );
    let r = run("blueprint B { method funct create() { } }; assign p = new B(); write(p.q)");
    assert!(r.result.is_ok());
    assert_eq!(kinds(&r), vec![ETypes::BlueprintError]);
    assert_eq!(
        r.visitor.errorstack.errors[0].message,
        "Property 'q' does not exist on blueprint 'B'"
    );
}

#[test]
fn the_dot_needs_an_object() {
    let r = run("assign a = 1; write(a.x)");
    assert_eq!(halt(&r), Some(Halt::Fatal));
    assert_eq!(kinds(&r), vec![ETypes::SyntaxError]);
    let r = run("assign a = 1; a.x = 2");
    assert_eq!(halt(&r), Some(Halt::Fatal));
    assert_eq!(kinds(&r), vec![ETypes::SyntaxError]);
}

#[test]
fn keywords_cannot_be_bound() {
    let r = run("assign param = 1");
    assert_eq!(halt(&r), Some(Halt::Fatal));
    assert_eq!(kinds(&r), vec![ETypes::VariableDefinitionError]);
    assert_eq!(
        r.visitor.errorstack.errors[0].message,
        "Illegal use of keyword for variable definition"
    );
}

#[test]
fn to_int_reads_numerals() {
    assert_eq!(output("write(to_int(\"42\") + 1); write(to_int(\"-7\"))"), vec!["43", "-7"]);
    let r = run("write(to_int(\"4x\"))");
    assert_eq!(halt(&r), Some(Halt::Fatal));
    assert_eq!(kinds(&r), vec![ETypes::TypeError]);
    assert_eq!(r.visitor.errorstack.errors[0].message, "Could not cast '4x' to type 'Integer'");
    let r = run("write(to_int(4))");
    assert_eq!(kinds(&r), vec![ETypes::TypeError]);
    let r = run("write(to_int(\"2147483648\"))");
    assert_eq!(kinds(&r), vec![ETypes::TypeError]);
}

#[test]
fn to_float_reads_numerals() {
    assert_eq!(output("write(to_float(\"2.5\") * 2)"), vec!["5"]);
    let r = run("write(to_float(\"x\"))");
    assert_eq!(halt(&r), Some(Halt::Fatal));
    assert_eq!(kinds(&r), vec![ETypes::TypeError]);
}

#[test]
fn replace_swaps_one_character() {
    assert_eq!(output("write(replace(\"cat\", 1, \"u\"))"), vec!["cut"]);
    let r = run("write(replace(\"cat\", 3, \"u\"))");
    assert!(r.result.is_ok());
    assert_eq!(kinds(&r), vec![ETypes::TypeError]);
    let r = run("write(replace(\"cat\", 1, 2))");
    assert_eq!(kinds(&r), vec![ETypes::TypeError]);
    let r = run("write(replace(\"cat\"))");
    assert_eq!(kinds(&r), vec![ETypes::FunctionError]);
}

#[test]
fn read_hands_out_the_input_line_by_line() {
    let r = run_with("write(read()); write(read()); write(read())", &["first", "second"], 100);
    assert!(r.result.is_ok());
    assert_eq!(r.visitor.output, vec!["first", "second", ""]);
    assert_eq!(r.visitor.next_input, 2);
}

#[test]
fn random_numbers_stay_in_their_range() {
    let r = run("assign i = 0; while (i < 200) { write(random_int(1, 1000)); i = i + 1 }");
    assert!(r.result.is_ok());
    let draws: Vec<i32> = r.visitor.output.iter().map(|s| s.parse().unwrap()).collect();
    assert_eq!(draws.len(), 200);
    assert!(draws.iter().all(|d| 1 <= *d && *d <= 1000));
    assert!(draws.iter().any(|d| *d != draws[0]));
    assert_eq!(output("write(random_int(4, 4))"), vec!["4"]);
    let r = run("write(random_int(2, 1))");
    assert!(r.result.is_ok());
    assert_eq!(kinds(&r), vec![ETypes::TypeError]);
    let r = run("write(random_int(1, \"a\"))");
    assert_eq!(kinds(&r), vec![ETypes::TypeError]);
}

#[test]
fn write_joins_its_arguments() {
    assert_eq!(
        output("write(\"a\", 1, true, [1, [2, \"x\"]]); write()"),
        vec!["a1true[1, [2, x]]", ""]
    );
}

#[test]
fn objects_print_their_members() {
    let source = "blueprint P { prop x; method funct create(param a) { x = a }; method funct get(param u, param v) { return x } }; write(new P(3))";
    assert_eq!(
        output(source),
        vec!["P instance { x: \"3\", get: function(params: u, v) }"]
    );
}

#[test]
fn objects_without_members_print_their_name() {
    let source = "blueprint E { method funct create() { } }; write(new E())";
    assert_eq!(output(source), vec!["E instance {  }"]);
}

#[test]
fn ast_debug_writes_the_trees_of_its_arguments() {
    assert_eq!(
        output("ast_debug(1 + 2, \"s\", f(x, [true]))"),
        vec![
            "BINOP(INT(1), PLS, INT(2))",
            "STRING(\"s\")",
            "FUNC_CALL(\"f\", [VAR(\"x\"), LIST([BOOL(true)])])"
        ]
    );
}

#[test]
fn a_loop_without_end_runs_out_of_fuel() {
    let r = run_with("while (true) { }", &[], 50);
    assert_eq!(halt(&r), Some(Halt::OutOfFuel));
    assert_eq!(r.visitor.halted, Some(Halt::OutOfFuel));
    let r = run_with("funct f() { return f() }; f()", &[], 50);
    assert_eq!(halt(&r), Some(Halt::OutOfFuel));
}

#[test]
fn a_halted_evaluator_stays_halted() {
    let mut r = run("write(1 / 0)");
    let (tree, _, _) = parse("write(1)");
    let again = r.visitor.visit(&Host, &tree.unwrap(), 10);
    assert_eq!(again.err(), Some(Halt::Fatal));
    assert!(r.visitor.output.is_empty());
}

#[test]
fn methods_reach_properties_and_other_blueprints() {
    let source = "blueprint Inner { prop v; method funct create(param a) { v = a } }; blueprint Outer { prop inner; method funct create() { inner = new Inner(5) }; method funct peek() { return inner.v } }; assign o = new Outer(); write(o.peek()); write(o.inner.v)";
    assert_eq!(output(source), vec!["5", "5"]);
}

#[test]
fn a_property_that_is_a_list_can_be_assigned_into() {
    let source = "blueprint Bag { prop items; method funct create() { items = [1, 2, 3] } }; assign b = new Bag(); b.items[1] = 9; write(b.items)";
    assert_eq!(output(source), vec!["[1, 9, 3]"]);
}

#[test]
fn the_lexer_reads_every_kind_of_token() {
    let (tokens, errors) = lex("== = <= < >= > != ! & | % ; : ( ) , { } [ ] + - * / . a1 \"s\" 12");
    assert!(errors.errors.is_empty());
    let kinds: Vec<&TokenType> = tokens.iter().map(|t| &t.kind).collect();
    let expected = vec![
        TokenType::DEQL,
        TokenType::EQL,
        TokenType::LTE,
        TokenType::LT,
        TokenType::GTE,
        TokenType::GT,
        TokenType::NEQ,
        TokenType::NOT,
        TokenType::AND,
        TokenType::OR,
        TokenType::MOD,
        TokenType::SEMI,
        TokenType::CLN,
        TokenType::LPR,
        TokenType::RPR,
        TokenType::CMA,
        TokenType::LBR,
        TokenType::RBR,
        TokenType::LSQB,
        TokenType::RSQB,
        TokenType::PLS,
        TokenType::MIN,
        TokenType::MUL,
        TokenType::DIV,
        TokenType::DOT,
        TokenType::ID("a1".to_string()),
        TokenType::STRING("s".to_string()),
        TokenType::INT(12),
        TokenType::EOF,
    ];
    assert_eq!(kinds, expected.iter().collect::<Vec<_>>());
}

#[test]
fn the_lexer_keeps_spans() {
    let (tokens, _) = lex("ab = 1;\n  cd");
    assert_eq!(tokens.len(), 6);
    let spans: Vec<(usize, usize, usize)> =
        tokens.iter().map(|t| (t.einfo.line, t.einfo.col, t.einfo.col_end)).collect();
    assert_eq!(spans, vec![(1, 1, 3), (1, 4, 5), (1, 6, 7), (1, 7, 8), (2, 3, 5), (2, 5, 6)]);
    assert_eq!(tokens[0].einfo.linecontents, "ab = 1;");
    assert_eq!(tokens[4].einfo.linecontents, "  cd");
    assert_eq!(tokens[0].einfo.file, "test.gsc");
}

#[test]
fn the_lexer_skips_comments_and_counts_their_lines() {
    let (tokens, errors) = lex("a \\ note\nmore \\ b");
    assert!(errors.errors.is_empty());
    assert_eq!(tokens.len(), 3);
    assert_eq!(tokens[1].kind, TokenType::ID("b".to_string()));
    assert_eq!(tokens[1].einfo.line, 2);
}

#[test]
fn the_lexer_reports_what_it_cannot_read() {
    let (tokens, errors) = lex("a # b");
    assert_eq!(tokens.len(), 3);
    assert_eq!(errors.errors.len(), 1);
    assert_eq!(errors.errors[0].etype, ETypes::TokenError);
    assert_eq!(errors.errors[0].message, "Unrecognized token");
    assert_eq!((errors.errors[0].col, errors.errors[0].col_end), (3, 4));
    let (tokens, errors) = lex("\"open");
    assert_eq!(tokens.len(), 1);
    assert_eq!(errors.errors[0].etype, ETypes::SyntaxError);
    let (tokens, errors) = lex("99999999999");
    assert_eq!(tokens[0].kind, TokenType::INT(0));
    assert_eq!(errors.errors[0].message, "Invalid syntax for creating an int");
    let (tokens, errors) = lex("1.2.3");
    assert_eq!(tokens[0].kind, TokenType::FLOAT(0f32.to_bits()));
    assert_eq!(errors.errors[0].message, "Invalid syntax for creating a float");
    let (tokens, _) = lex("2.5");
    assert_eq!(tokens[0].kind, TokenType::FLOAT(2.5f32.to_bits()));
}

#[test]
fn the_parser_groups_by_precedence() {
    let (tree, errors, halted) = parse("1 + 2 * 3");
    assert!(!halted && errors.errors.is_empty());
    let tree = tree.unwrap();
    let first = match tree.kind {
        AST::COMPOUND { mut compound_value } => compound_value.remove(0),
        _ => panic!("no compound"),
    };
    match first.kind {
        AST::BINOP { left, op, right } => {
            assert_eq!(op, TokenType::PLS);
            assert!(matches!(left.kind, AST::INT { int_value: 1 }));
            match right.kind {
                AST::BINOP { left, op, right } => {
                    assert_eq!(op, TokenType::MUL);
                    assert!(matches!(left.kind, AST::INT { int_value: 2 }));
                    assert!(matches!(right.kind, AST::INT { int_value: 3 }));
                },
                _ => panic!("no product"),
            }
        },
        _ => panic!("no sum"),
    }
}

#[test]
fn the_parser_reports_a_missing_token() {
    let (tree, errors, halted) = parse("assign a 1");
    assert!(halted);
    assert!(tree.is_none());
    assert_eq!(errors.errors.len(), 1);
    assert_eq!(errors.errors[0].etype, ETypes::TokenError);
    assert_eq!(errors.errors[0].message, "Expected token EQL but received INT(1)");
    let (_, errors, halted) = parse("(1 + 2");
    assert!(halted);
    assert_eq!(errors.errors[0].etype, ETypes::SyntaxError);
    assert_eq!(errors.errors[0].message, "Expected ')'");
    let (_, errors, halted) = parse("blueprint B { nothing }");
    assert!(halted);
    assert_eq!(
        errors.errors[0].message,
        "Expected 'prop' or 'method' to define blueprint fields"
    );
}

#[test]
fn the_parser_reports_the_end_of_the_input() {
    let tokens = vec![];
    let mut parser = Parser::new(&tokens, ErrorStack::new());
    parser.verify(TokenType::SEMI);
    assert!(parser.halted);
    assert_eq!(parser.errorstack.errors[0].etype, ETypes::EndOfInputError);
}

#[test]
fn every_node_of_a_tree_carries_the_span_of_a_token() {
    fn check(node: &ASTNode, tokens: &Vec<Token>) {
        assert!(node.einfo.col_end > node.einfo.col);
        assert!(tokens.iter().any(|t| t.einfo.line == node.einfo.line
            && t.einfo.col == node.einfo.col
            && t.einfo.col_end == node.einfo.col_end));
        match &node.kind {
            AST::COMPOUND { compound_value } => compound_value.iter().for_each(|n| check(n, tokens)),
            AST::BINOP { left, right, .. } => {
                check(left, tokens);
                check(right, tokens);
            },
            AST::VAR_DEF { value, .. } => check(value, tokens),
            AST::LIST { contents } => contents.iter().for_each(|n| check(n, tokens)),
            AST::FUNC_CALL { args, .. } => args.iter().for_each(|n| check(n, tokens)),
            AST::IF { conditions, bodies, else_body } => {
                conditions.iter().for_each(|n| check(n, tokens));
                bodies.iter().for_each(|n| check(n, tokens));
                if let Some(b) = else_body {
                    check(b, tokens);
                }
            },
            _ => {},
        }
    }
    let (tokens, errors) = lex("assign a = [1, 2 + ]; if (a) { write(a, ) } else { };");
    let mut parser = Parser::new(&tokens, errors);
    let tree = parser.parse_compound().unwrap();
    check(&tree, &tokens);
}

#[test]
fn a_method_changes_its_object() {
    let source = "blueprint Counter { prop n; method funct create() { n = 0 }; method funct inc() { n = n + 1 } }; assign c = new Counter(); c.inc(); c.inc(); write(c.n)";
    assert_eq!(output(source), vec!["2"]);
}

#[test]
fn a_property_that_holds_an_object_is_read_as_a_copy() {
    let source = "blueprint Inner { prop v; method funct create(param a) { v = a } }; blueprint Outer { prop inner; method funct create() { inner = new Inner(5) } }; assign o = new Outer(); assign t = o.inner; t.v = 9; write(o.inner.v); write(t.v); o.inner.v = 7; write(o.inner.v)";
    assert_eq!(output(source), vec!["5", "9", "7"]);
}

#[test]
fn a_parameter_named_like_an_outer_variable_is_not_bound() {
    let source = "assign n = 1; funct f(param n) { return n }; write(f(5))";
    assert_eq!(
        output(source),
        vec!["Variable 'n' already exists in the current scope", "1"]
    );
}

#[test]
fn an_empty_list_has_no_elements() {
    assert_eq!(output("write([])"), vec!["[]"]);
}
