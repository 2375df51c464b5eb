use lispjit::ast::AstNode;
use lispjit::compiler::{Compiler, CompilerError};
use lispjit::emulator;
use lispjit::encodings::LispValue;

/// Compiles a tree, runs the machine code on the emulator, and decodes the
/// word left in the accumulator.
fn compile_ast(ast_node: AstNode) -> LispValue {
    let mut compiler = Compiler::new();
    let result = compiler.compile_function(&ast_node);
    assert!(result.is_ok());
    let code = result.unwrap();
    let encoded_result = emulator::run_code(&code).unwrap();
    LispValue::from_raw_word(encoded_result)
}

#[test]
fn test_compiler() {
    let mut compiler = Compiler::new();
    let expr = 42;
    let ast_node = AstNode::Integer(expr);
    let result = compiler.compile_function(&ast_node);
    assert!(result.is_ok());
    let code = result.unwrap();
    let encoded_result = emulator::run_code(&code).unwrap();
    let lisp_val = LispValue::from_raw_word(encoded_result);
    assert_eq!(lisp_val.as_integer(), Some(expr));
}

#[test]
fn test_bool() {
    let mut compiler = Compiler::new();
    let expr = true;
    let ast_node = AstNode::Bool(expr);
    let result = compiler.compile_function(&ast_node);
    assert!(result.is_ok());
    let code = result.unwrap();
    let encoded = emulator::run_code(&code).unwrap();
    let lisp_val = LispValue::from_raw_word(encoded);
    assert_eq!(lisp_val.as_bool(), Some(expr));
}

#[test]
fn test_add1() {
    let mut compiler = Compiler::new();

    // The tree for `(add1 10)`.
    let ast_node = AstNode::Pair {
        car: Box::new(AstNode::Symbol("add1".to_string())),
        cdr: Box::new(AstNode::Pair {
            car: Box::new(AstNode::Integer(10)),
            cdr: Box::new(AstNode::Nil),
        }),
    };

    let result = compiler.compile_function(&ast_node);
    assert!(result.is_ok());

    let code = result.unwrap();
    let encoded_result = emulator::run_code(&code).unwrap();
    let lisp_val = LispValue::from_raw_word(encoded_result);

    assert!(lisp_val.is_integer());
    assert_eq!(lisp_val.as_integer(), Some(11));
}

#[test]
fn test_sub1() {
    let mut compiler = Compiler::new();

    let ast_node = AstNode::Pair {
        car: Box::new(AstNode::Symbol("sub1".to_string())),
        cdr: Box::new(AstNode::Pair {
            car: Box::new(AstNode::Integer(10)),
            cdr: Box::new(AstNode::Nil),
        }),
    };

    let result = compiler.compile_function(&ast_node);
    assert!(result.is_ok());

    let code = result.unwrap();
    let encoded_result = emulator::run_code(&code).unwrap();
    let lisp_val = LispValue::from_raw_word(encoded_result);

    assert!(lisp_val.is_integer());
    assert_eq!(lisp_val.as_integer(), Some(9));
}

#[test]
fn test_nested_adds() {
    let mut compiler = Compiler::new();
    let val = 10;
    let expected = val + 2;
    // The tree for `(add1 (add1 10))`.
    let ast_node = AstNode::Pair {
        car: Box::new(AstNode::Symbol("add1".to_string())),
        cdr: Box::new(AstNode::Pair {
            car: Box::new(AstNode::Pair {
                car: Box::new(AstNode::Symbol("add1".to_string())),
                cdr: Box::new(AstNode::Pair {
                    car: Box::new(AstNode::Integer(val)),
                    cdr: Box::new(AstNode::Nil),
                }),
            }),
            cdr: Box::new(AstNode::Nil),
        }),
    };

    let result = compiler.compile_function(&ast_node);
    assert!(result.is_ok());

    let code = result.unwrap();
    let encoded_result = emulator::run_code(&code).unwrap();
    let lisp_val = LispValue::from_raw_word(encoded_result);

    assert!(lisp_val.is_integer());
    assert_eq!(lisp_val.as_integer(), Some(expected));
}

#[test]
fn test_int2char() {
    let ast_node = AstNode::Pair {
        car: Box::new(AstNode::Symbol("integer->char".to_string())),
        cdr: Box::new(AstNode::Pair {
            car: Box::new(AstNode::Integer(64)),
            cdr: Box::new(AstNode::Nil),
        }),
    };
    let lisp_val = compile_ast(ast_node);
    let char = lisp_val.as_char();
    // Code point 64 is `@`.
    assert_eq!(char, Some('@'));
}

#[test]
fn test_is_nill() {
    let ast_node = AstNode::Pair {
        car: Box::new(AstNode::Symbol("nil?".to_string())),
        cdr: Box::new(AstNode::Pair {
            car: Box::new(AstNode::Nil),
            cdr: Box::new(AstNode::Nil),
        }),
    };
    let lisp_val = compile_ast(ast_node);
    let bool = lisp_val.as_bool();
    assert!(bool.is_some());
    assert_eq!(bool.unwrap(), true);
}

#[test]
fn test_is_zero() {
    let ast_node = AstNode::Pair {
        car: Box::new(AstNode::Symbol("zero?".to_string())),
        cdr: Box::new(AstNode::Pair {
            car: Box::new(AstNode::Integer(0)),
            cdr: Box::new(AstNode::Nil),
        }),
    };
    let lisp_val = compile_ast(ast_node);
    let bool = lisp_val.as_bool();
    assert!(bool.is_some());
    assert_eq!(bool.unwrap(), true);
}

#[test]
fn test_is_int() {
    let ast_node = AstNode::Pair {
        car: Box::new(AstNode::Symbol("integer?".to_string())),
        cdr: Box::new(AstNode::Pair {
            car: Box::new(AstNode::Integer(19283)),
            cdr: Box::new(AstNode::Nil),
        }),
    };
    let lisp_val = compile_ast(ast_node);
    let bool = lisp_val.as_bool();
    assert!(bool.is_some());
    assert_eq!(bool.unwrap(), true);
}

#[test]
fn test_not_integer() {
    let ast_node = AstNode::Pair {
        car: Box::new(AstNode::Symbol("integer?".to_string())),
        cdr: Box::new(AstNode::Pair {
            car: Box::new(AstNode::Char('a')),
            cdr: Box::new(AstNode::Nil),
        }),
    };
    let lisp_val = compile_ast(ast_node);
    let bool = lisp_val.as_bool();
    assert!(bool.is_some());
    assert_eq!(bool.unwrap(), false);
}

#[test]
fn test_is_bool_true_and_false() {
    let yes = AstNode::Pair {
        car: Box::new(AstNode::Symbol("bool?".to_string())),
        cdr: Box::new(AstNode::Pair {
            car: Box::new(AstNode::Bool(true)),
            cdr: Box::new(AstNode::Nil),
        }),
    };
    assert_eq!(compile_ast(yes).as_bool(), Some(true));

    let no = AstNode::Pair {
        car: Box::new(AstNode::Symbol("bool?".to_string())),
        cdr: Box::new(AstNode::Pair {
            car: Box::new(AstNode::Integer(0)),
            cdr: Box::new(AstNode::Nil),
        }),
    };
    assert_eq!(compile_ast(no).as_bool(), Some(false));
}

#[test]
fn test_too_many_arguments_is_call_shape_error() {
    // `(add1 1 2)` has the wrong arity.
    let ast_node = AstNode::Pair {
        car: Box::new(AstNode::Symbol("add1".to_string())),
        cdr: Box::new(AstNode::Pair {
            car: Box::new(AstNode::Integer(1)),
            cdr: Box::new(AstNode::Pair {
                car: Box::new(AstNode::Integer(2)),
                cdr: Box::new(AstNode::Nil),
            }),
        }),
    };
    let mut compiler = Compiler::new();
    let result = compiler.compile_function(&ast_node);
    assert!(matches!(result, Err(CompilerError::InvalidArguments(_))));
}

#[test]
fn test_unknown_head_is_not_a_function() {
    // `(bogus 1)` names no primitive; the error carries the name.
    let ast_node = AstNode::Pair {
        car: Box::new(AstNode::Symbol("bogus".to_string())),
        cdr: Box::new(AstNode::Pair {
            car: Box::new(AstNode::Integer(1)),
            cdr: Box::new(AstNode::Nil),
        }),
    };
    let mut compiler = Compiler::new();
    match compiler.compile_function(&ast_node) {
        Err(CompilerError::NotAFunction(name)) => assert_eq!(name, "bogus"),
        other => panic!("expected a not-a-function error, got {:?}", other),
    }
}

#[test]
fn test_non_symbol_head_is_rejected() {
    // `((add1 1) 2)` has a pair in head position.
    let ast_node = AstNode::Pair {
        car: Box::new(AstNode::Pair {
            car: Box::new(AstNode::Symbol("add1".to_string())),
            cdr: Box::new(AstNode::Pair {
                car: Box::new(AstNode::Integer(1)),
                cdr: Box::new(AstNode::Nil),
            }),
        }),
        cdr: Box::new(AstNode::Pair {
            car: Box::new(AstNode::Integer(2)),
            cdr: Box::new(AstNode::Nil),
        }),
    };
    let mut compiler = Compiler::new();
    let result = compiler.compile_function(&ast_node);
    assert!(matches!(result, Err(CompilerError::NotASymbol)));
}

#[test]
fn test_integer_literal_out_of_range_fails_at_encode_time() {
    // One past the largest encodable payload.
    let too_large: i64 = 0x2000_0000_0000_0000;
    let mut compiler = Compiler::new();
    let result = compiler.compile_function(&AstNode::Integer(too_large));
    assert!(matches!(result, Err(CompilerError::IntegerTooLarge(v)) if v == too_large));

    let too_small: i64 = -0x2000_0000_0000_0001;
    let mut compiler = Compiler::new();
    let result = compiler.compile_function(&AstNode::Integer(too_small));
    assert!(matches!(result, Err(CompilerError::IntegerTooLarge(v)) if v == too_small));
}

#[test]
fn test_integer_literal_beyond_imm32_needs_wide_move() {
    // Encodable, but its tagged word does not fit a sign-extended
    // 32-bit immediate.
    let wide: i64 = 0x2000_0000;
    let mut compiler = Compiler::new();
    let result = compiler.compile_function(&AstNode::Integer(wide));
    assert!(matches!(result, Err(CompilerError::ValueRequires64BitMove)));
}

#[test]
fn test_negative_literal_round_trips_through_machine_code() {
    let lisp_val = compile_ast(AstNode::Integer(-7));
    assert_eq!(lisp_val.as_integer(), Some(-7));
}

#[test]
fn test_compiled_function_ends_in_ret() {
    let mut compiler = Compiler::new();
    let code = compiler.compile_function(&AstNode::Integer(5)).unwrap();
    assert_eq!(code.last(), Some(&0xc3));
}

#[test]
fn test_reused_compiler_accumulates_code() {
    let mut compiler = Compiler::new();
    let first = compiler.compile_function(&AstNode::Integer(1)).unwrap();
    let second = compiler.compile_function(&AstNode::Integer(2)).unwrap();
    // The second result begins with the first compilation's bytes.
    assert_eq!(&second[..first.len()], &first[..]);
    assert!(second.len() > first.len());
}

#[test]
fn test_symbol_compiles_to_no_code() {
    // A lone symbol is interned but loads nothing; only the return
    // instruction is emitted.
    let mut compiler = Compiler::new();
    let code = compiler
        .compile_function(&AstNode::Symbol("x".to_string()))
        .unwrap();
    assert_eq!(code, vec![0xc3]);
}
