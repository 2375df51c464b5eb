use lispjit::ast::AstNode;
use lispjit::reader::Parser;

#[test]
fn test_reader() {
    let mut reader = Parser::new("(1 2 3)");
    assert_eq!(
        reader.read_form(),
        Ok(AstNode::Pair {
            car: Box::new(AstNode::Integer(1)),
            cdr: Box::new(AstNode::Pair {
                car: Box::new(AstNode::Integer(2)),
                cdr: Box::new(AstNode::Pair {
                    car: Box::new(AstNode::Integer(3)),
                    cdr: Box::new(AstNode::Nil),
                }),
            }),
        })
    );
}

#[test]
fn test_reader_atoms() {
    assert_eq!(Parser::new("42").read_form(), Ok(AstNode::Integer(42)));
    assert_eq!(Parser::new("true").read_form(), Ok(AstNode::Bool(true)));
    assert_eq!(Parser::new("false").read_form(), Ok(AstNode::Bool(false)));
    assert_eq!(Parser::new("nil").read_form(), Ok(AstNode::Nil));
    assert_eq!(Parser::new("#\\a").read_form(), Ok(AstNode::Char('a')));
    assert_eq!(
        Parser::new("foo").read_form(),
        Ok(AstNode::Symbol("foo".to_string()))
    );
}

#[test]
fn test_reader_empty_list_is_nil() {
    assert_eq!(Parser::new("()").read_form(), Ok(AstNode::Nil));
}

#[test]
fn test_reader_nested_lists() {
    assert_eq!(
        Parser::new("(add1 (add1 5))").read_form(),
        Ok(AstNode::Pair {
            car: Box::new(AstNode::Symbol("add1".to_string())),
            cdr: Box::new(AstNode::Pair {
                car: Box::new(AstNode::Pair {
                    car: Box::new(AstNode::Symbol("add1".to_string())),
                    cdr: Box::new(AstNode::Pair {
                        car: Box::new(AstNode::Integer(5)),
                        cdr: Box::new(AstNode::Nil),
                    }),
                }),
                cdr: Box::new(AstNode::Nil),
            }),
        })
    );
}

#[test]
fn test_reader_error_on_empty_input() {
    assert_eq!(
        Parser::new("").read_form(),
        Err("Unexpected end of input".to_string())
    );
}

#[test]
fn test_reader_error_on_stray_close_paren() {
    assert_eq!(
        Parser::new(")").read_form(),
        Err("Unexpected ')'".to_string())
    );
}

#[test]
fn test_reader_error_on_unmatched_open_paren() {
    assert_eq!(
        Parser::new("(1 2").read_form(),
        Err("Unmatched '('".to_string())
    );
}

#[test]
fn test_reader_reports_tokenizer_failure() {
    assert!(Parser::new("#\\bogus").read_form().is_err());
}

#[test]
fn test_reader_consumes_forms_in_sequence() {
    let mut reader = Parser::new("1 2");
    assert_eq!(reader.read_form(), Ok(AstNode::Integer(1)));
    assert_eq!(reader.read_form(), Ok(AstNode::Integer(2)));
    assert!(reader.read_form().is_err());
}
