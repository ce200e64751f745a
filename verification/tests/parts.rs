use gscriptrust::ast::{ASTNode, AST};
use gscriptrust::error::{marker_line, ETypes, ErrorInfo, ErrorStack, GError};
use gscriptrust::scope::Scope;
use gscriptrust::text::{from_chars, i32_to_string, parse_i32, to_chars, usize_to_string};
use gscriptrust::token::TokenType;

fn number(v: i32) -> ASTNode {
    ASTNode::new(AST::INT { int_value: v }, ErrorInfo::empty())
}

fn var(name: &str, v: i32) -> ASTNode {
    ASTNode::new(
        AST::VAR_DEF { name: name.to_string(), value: Box::new(number(v)) },
        ErrorInfo::empty(),
    )
}

fn value_of(node: &ASTNode) -> i32 {
    match &node.kind {
        AST::VAR_DEF { value, .. } => match value.kind {
            AST::INT { int_value } => int_value,
            _ => panic!("no integer"),
        },
        _ => panic!("no definition"),
    }
}

#[test]
fn integers_are_written_in_decimal() {
    assert_eq!(i32_to_string(0), "0");
    assert_eq!(i32_to_string(7), "7");
    assert_eq!(i32_to_string(-45), "-45");
    assert_eq!(i32_to_string(i32::MAX), "2147483647");
    assert_eq!(i32_to_string(i32::MIN), "-2147483648");
    assert_eq!(usize_to_string(1203), "1203");
}

#[test]
fn numerals_are_read_as_integers() {
    let read = |s: &str| parse_i32(&s.chars().collect());
    assert_eq!(read("0"), Some(0));
    assert_eq!(read("+12"), Some(12));
    assert_eq!(read("-12"), Some(-12));
    assert_eq!(read("007"), Some(7));
    assert_eq!(read("2147483647"), Some(i32::MAX));
    assert_eq!(read("-2147483648"), Some(i32::MIN));
    assert_eq!(read("2147483648"), None);
    assert_eq!(read("-2147483649"), None);
    assert_eq!(read(""), None);
    assert_eq!(read("-"), None);
    assert_eq!(read("1a"), None);
    assert_eq!(read("--1"), None);
}

#[test]
fn strings_and_characters_convert_both_ways() {
    let chars = to_chars("héllo");
    assert_eq!(chars, vec!['h', 'é', 'l', 'l', 'o']);
    assert_eq!(from_chars(&chars), "héllo");
    assert_eq!(from_chars(&Vec::new()), "");
}

#[test]
fn a_marker_line_underlines_a_span() {
    assert_eq!(marker_line(0, 1), "     ^");
    assert_eq!(marker_line(3, 6), "        ^^^");
    assert_eq!(marker_line(2, 2), "       ");
    assert_eq!(marker_line(4, 1), "         ");
}

#[test]
fn error_kinds_have_names() {
    let all = [
        (ETypes::SyntaxError, "SyntaxError"),
        (ETypes::DivideByZeroError, "DivideByZeroError"),
        (ETypes::FileError, "FileError"),
        (ETypes::TokenError, "TokenError"),
        (ETypes::EndOfInputError, "EndOfInputError"),
        (ETypes::VariableDefinitionError, "VariableDefinitionError"),
        (ETypes::FunctionDefinitionError, "FunctionDefinitionError"),
        (ETypes::FunctionError, "FunctionError"),
        (ETypes::ConditionalError, "ConditionalError"),
        (ETypes::TypeError, "TypeError"),
        (ETypes::ListError, "ListError"),
        (ETypes::BlueprintError, "BlueprintError"),
        (ETypes::IdentifierError, "IdentifierError"),
    ];
    for (kind, name) in all {
        assert_eq!(kind.to_string(), name);
    }
}

#[test]
fn errors_keep_their_span() {
    let mut info = ErrorInfo::new("f.gsc".to_string(), "assign a".to_string(), 3, 1, 7);
    let e = GError::new_from_tok(ETypes::FileError, "gone", info.clone());
    assert_eq!(e.etype, ETypes::FileError);
    assert_eq!(e.message, "gone");
    assert_eq!((e.file.as_str(), e.linecontents.as_str()), ("f.gsc", "assign a"));
    assert_eq!((e.line, e.col, e.col_end), (3, 1, 7));
    assert_eq!(e.underline(), "      ^^^^^^");
    let e = GError::new(ETypes::TypeError, "m", "f".to_string(), "l".to_string(), 1, 2, 3);
    assert_eq!((e.line, e.col, e.col_end), (1, 2, 3));
    info.set_endln();
    assert_eq!((info.col, info.col_end), (8, 9));
    let mut stack = ErrorStack::new();
    assert_eq!(stack.len(), 0);
    stack.report(ETypes::ListError, "first", &info);
    stack.report(ETypes::TypeError, "second", &info);
    assert_eq!(stack.len(), 2);
    assert_eq!(stack.errors[1].message, "second");
}

#[test]
fn tokens_have_labels() {
    assert_eq!(TokenType::SEMI.label(), "SEMI");
    assert_eq!(TokenType::INT(-3).label(), "INT(-3)");
    assert_eq!(TokenType::ID("x".to_string()).label(), "ID(\"x\")");
    assert_eq!(TokenType::STRING("s".to_string()).label(), "STRING(\"s\")");
    assert_eq!(TokenType::FLOAT(0).label(), "FLOAT");
    assert!(TokenType::ID("x".to_string()).same(&TokenType::ID("x".to_string())));
    assert!(!TokenType::ID("x".to_string()).same(&TokenType::STRING("x".to_string())));
    assert!(TokenType::ID("if".to_string()).is_id("if"));
    assert!(!TokenType::LT.same(&TokenType::LTE));
}

#[test]
fn scopes_look_names_up_through_their_parents() {
    let mut scopes = vec![Scope::new(None), Scope::new(Some(0)), Scope::new(Some(1))];
    assert_eq!(Scope::add_var(&mut scopes, 0, &var("a", 1)), Ok(()));
    assert_eq!(Scope::add_var(&mut scopes, 2, &var("b", 2)), Ok(()));
    assert_eq!(Scope::resolve_var(&scopes, 2, &"a".to_string()), Some((0, 0)));
    assert_eq!(Scope::resolve_var(&scopes, 2, &"b".to_string()), Some((2, 0)));
    assert_eq!(Scope::resolve_var(&scopes, 1, &"b".to_string()), None);
    assert_eq!(
        Scope::add_var(&mut scopes, 2, &var("a", 3)),
        Err("Variable 'a' already exists in the current scope".to_string())
    );
    assert_eq!(
        Scope::add_var(&mut scopes, 0, &number(1)),
        Err("Not a valid variable definition".to_string())
    );
    assert_eq!(
        Scope::add_func(&mut scopes, 0, &number(1)),
        Err("Not a valid function definition".to_string())
    );
    assert_eq!(
        Scope::add_blueprint(&mut scopes, 0, &number(1)),
        Err("Not a valid blueprint definition".to_string())
    );
    assert_eq!(Scope::set_var(&mut scopes, 2, &"a".to_string(), &var("a", 9)), Ok(()));
    assert_eq!(value_of(&Scope::resolve_var_cloned(&scopes, 1, &"a".to_string()).unwrap()), 9);
    assert_eq!(
        Scope::set_var(&mut scopes, 1, &"b".to_string(), &var("b", 9)),
        Err("Variable 'b' does not exist in the current scope".to_string())
    );
    assert_eq!(Scope::get_root_scope(&scopes, 2), 0);
    assert_eq!(Scope::get_root_scope(&scopes, 0), 0);
    assert!(Scope::resolve_func(&scopes, 2, &"f".to_string()).is_none());
    assert!(Scope::resolve_blueprint(&scopes, 2, &"B".to_string()).is_none());
}

#[test]
fn a_deep_copy_of_a_scope_is_a_scope_of_its_own() {
    let mut scopes = vec![Scope::new(None), Scope::new(Some(0))];
    Scope::add_var(&mut scopes, 0, &var("a", 1)).unwrap();
    Scope::add_var(&mut scopes, 1, &var("b", 2)).unwrap();
    let copy = Scope::deep_clone(&mut scopes, Some(1));
    assert_eq!(copy, Some(3));
    assert_eq!(scopes.len(), 4);
    assert_eq!(scopes[3].parent, Some(2));
    assert_eq!(scopes[2].parent, None);
    Scope::set_var(&mut scopes, 3, &"a".to_string(), &var("a", 7)).unwrap();
    assert_eq!(value_of(&Scope::resolve_var_cloned(&scopes, 3, &"a".to_string()).unwrap()), 7);
    assert_eq!(value_of(&Scope::resolve_var_cloned(&scopes, 1, &"a".to_string()).unwrap()), 1);
    assert_eq!(Scope::deep_clone(&mut scopes, None), None);
    assert_eq!(Scope::deep_clone(&mut scopes, Some(40)), None);
}

#[test]
fn a_node_without_a_source_is_a_noop() {
    let n = ASTNode::new_noop();
    assert!(matches!(n.kind, AST::NOOP));
    assert_eq!((n.einfo.line, n.einfo.col, n.einfo.col_end), (0, 0, 0));
    assert_eq!(n.kind.name(), "NOOP");
    assert!(n.kind.is_value());
    assert!(!AST::EOF.is_value());
    let copy = var("a", 4).clone();
    assert_eq!(value_of(&copy), 4);
}
