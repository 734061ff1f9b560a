use lib::ast::AST;
use lib::ast_node::{
    BlockStatement, BreakStatement, ClassType, Expression, ExpressionStatement, GroupExpression,
    IdentifierLiteral, Keywords, NumberLiteral, SequenceExpression, Statement, StringLiteral,
    TemplateLiteralExpression, VariableFlag,
};
use lib::ast_token::{get_token_keyword, get_token_literal, Token};
use lib::ast_utils::{chars_to_string, get_hex_number_value, process_string_escapes};
use lib::builtins::array::{
    fill_range, get_array_indices, get_array_indices_in_range, index_to_string, relative_index,
    search_indices, slice_sources, sort_order, splice_plan, string_to_index,
};
use lib::builtins::promise::{
    promise_state, reaction_end, reaction_start, Handler, Outcome, PromiseState, ReactionEnd,
    ReactionStart,
};
use lib::builtins::number::format_int_radix;
use lib::bytecode::{ByteCode, EByteCodeop};
use lib::error::JSIErrorType;

fn tokens(code: &str) -> Vec<(Token, String)> {
    let mut ast = AST::new(String::from(code));
    let mut out = Vec::new();
    loop {
        let (token, literal) = ast.scan();
        if token == Token::EOF {
            assert_eq!(literal, "");
            break;
        }
        out.push((token, literal));
    }
    out
}

#[test]
fn scan_takes_the_longest_punctuator() {
    let t = tokens("a >>>= b");
    assert_eq!(t[0], (Token::Identifier, String::from("a")));
    assert_eq!(t[1], (Token::UnsignedShiftRightAssign, String::from(">>>=")));
    assert_eq!(t[2], (Token::Identifier, String::from("b")));
    assert_eq!(t.len(), 3);
    let t = tokens("a+++b");
    let kinds: Vec<Token> = t.iter().map(|p| p.0).collect();
    assert_eq!(kinds, vec![Token::Identifier, Token::Increment, Token::Plus, Token::Identifier]);
}

#[test]
fn scan_words_numbers_strings() {
    let t = tokens("let x = 12.5 + 'hi' ; null");
    let kinds: Vec<Token> = t.iter().map(|p| p.0).collect();
    assert_eq!(
        kinds,
        vec![
            Token::Let,
            Token::Identifier,
            Token::Assign,
            Token::Number,
            Token::Plus,
            Token::String,
            Token::Semicolon,
            Token::Null
        ]
    );
    assert_eq!(t[3].1, "12.5");
    assert_eq!(t[5].1, "'hi'");
    // a hexadecimal literal is one number
    let t = tokens("0x1F");
    assert_eq!(t, vec![(Token::Number, String::from("0x1F"))]);
    let mut ast = AST::new(String::from("0xff"));
    assert_eq!(ast.scan(), (Token::Number, String::from("0xff")));
    assert_eq!(ast.scan(), (Token::EOF, String::new()));
    assert_eq!(tokens("0X1g"), vec![(Token::Number, String::from("0X1")), (Token::Identifier, String::from("g"))]);
    assert_eq!(tokens("3.14"), vec![(Token::Number, String::from("3.14"))]);
}

#[test]
fn scan_of_empty_text_is_eof() {
    let mut ast = AST::new(String::new());
    assert_eq!(ast.scan(), (Token::EOF, String::new()));
    assert_eq!(ast.scan(), (Token::EOF, String::new()));
}

#[test]
fn scan_reads_nothing_past_the_end() {
    let t = tokens("a +");
    assert_eq!(t[1], (Token::Plus, String::from("+")));
}

#[test]
fn read_moves_through_the_text() {
    let mut ast = AST::new(String::from("ab"));
    assert!(ast.read());
    assert!(ast.read());
    assert!(!ast.read());
    assert!(!ast.read());
}

#[test]
fn parse_statements_of_each_kind() {
    let program = AST::new(String::from(
        "var a = 1, b; let c; const d = 2; if (a) { b; } else c; while (a) { break; } do { continue; } while (b); for (var i = 0; i < 3; i++) { } switch (a) { case 1: b; default: c; } try { a; } catch (e) { b; } throw a; return a; x: a;",
    ))
    .parse()
    .unwrap();
    assert_eq!(program.body.len(), 12);
    match &program.body[0] {
        Statement::Var(v) => {
            assert_eq!(v.flag, VariableFlag::Var);
            assert_eq!(v.list.len(), 2);
        },
        _ => panic!("a declaration"),
    }
    match &program.body[1] {
        Statement::Var(v) => assert_eq!(v.flag, VariableFlag::Let),
        _ => panic!("a declaration"),
    }
    match &program.body[2] {
        Statement::Var(v) => assert_eq!(v.flag, VariableFlag::Const),
        _ => panic!("a declaration"),
    }
    assert!(matches!(program.body[3], Statement::If(_)));
    match &program.body[4] {
        Statement::For(f) => {
            assert!(!f.post_judgment);
            assert_eq!(*f.initializer, Statement::Unknown);
        },
        _ => panic!("a loop"),
    }
    match &program.body[5] {
        Statement::For(f) => assert!(f.post_judgment),
        _ => panic!("a loop"),
    }
    assert!(matches!(program.body[6], Statement::For(_)));
    match &program.body[7] {
        Statement::Switch(s) => {
            assert_eq!(s.clauses.len(), 2);
            assert_eq!(s.default_index, 1);
        },
        _ => panic!("a switch"),
    }
    assert!(matches!(program.body[8], Statement::Try(_)));
    assert!(matches!(program.body[9], Statement::Throw(_)));
    assert!(matches!(program.body[10], Statement::Return(_)));
    assert!(matches!(program.body[11], Statement::Label(_)));
}

#[test]
fn parse_semicolons_inside_statements() {
    let program = AST::new(String::from(
        "var x; if (false) x = 1; else if (x) x = 2; else x = 3; switch (x) { case 1: x = 'one'; break; default: x += 1; }",
    ))
    .parse()
    .unwrap();
    assert_eq!(program.body.len(), 3);
    match &program.body[2] {
        Statement::Switch(s) => {
            assert_eq!(s.clauses.len(), 2);
            assert_eq!(s.clauses[0].statements.len(), 2);
            assert_eq!(s.clauses[1].statements.len(), 1);
        },
        _ => panic!("a switch"),
    }
}

#[test]
fn parse_block_with_break() {
    let program = AST::new(String::from("{ break; }")).parse().unwrap();
    assert_eq!(
        program.body,
        vec![Statement::Block(BlockStatement {
            statements: vec![Statement::Break(BreakStatement { label: None })]
        })]
    );
}

#[test]
fn parse_hoists_named_functions() {
    let program = AST::new(String::from("function f(a, b) { function g() {} } var h = function () {};"))
        .parse()
        .unwrap();
    assert_eq!(program.body.len(), 2);
    // `f` goes to the program, `g` to the body of `f`
    assert_eq!(program.declarations.len(), 1);
    match &program.body[0] {
        Statement::Function(f) => {
            assert!(!f.is_anonymous);
            assert_eq!(f.name.literal, "f");
            assert_eq!(f.parameters.len(), 2);
            assert_eq!(f.declarations.len(), 1);
        },
        _ => panic!("a function"),
    }
}

#[test]
fn parse_string_literal() {
    let program = AST::new(String::from("\"abc\";")).parse().unwrap();
    assert_eq!(
        program.body,
        vec![Statement::Expression(ExpressionStatement {
            expression: Expression::String(StringLiteral {
                literal: String::from("\"abc\""),
                value: String::from("abc"),
            })
        })]
    );
}

#[test]
fn parse_template_literal() {
    let program = AST::new(String::from("`a${b}c`;")).parse().unwrap();
    assert_eq!(
        program.body,
        vec![Statement::Expression(ExpressionStatement {
            expression: Expression::TemplateLiteral(TemplateLiteralExpression {
                spans: vec![
                    Expression::String(StringLiteral {
                        literal: String::from("a"),
                        value: String::from("a")
                    }),
                    Expression::Identifier(IdentifierLiteral { literal: String::from("b") }),
                    Expression::String(StringLiteral {
                        literal: String::from("c"),
                        value: String::from("c")
                    }),
                ]
            })
        })]
    );
}

#[test]
fn parse_keywords_and_objects() {
    let program = AST::new(String::from("x = [true, , null]; y = { a, 'b': 1, [c]: this };"))
        .parse()
        .unwrap();
    assert_eq!(program.body.len(), 2);
    match &program.body[0] {
        Statement::Expression(e) => match &e.expression {
            Expression::Assign(a) => match &*a.right {
                Expression::Array(arr) => {
                    assert_eq!(arr.elements.len(), 3);
                    assert_eq!(arr.elements[0], Expression::Keyword(Keywords::True));
                    assert_eq!(arr.elements[1], Expression::Keyword(Keywords::Undefined));
                    assert_eq!(arr.elements[2], Expression::Keyword(Keywords::Null));
                },
                _ => panic!("an array"),
            },
            _ => panic!("an assignment"),
        },
        _ => panic!("an expression"),
    }
    match &program.body[1] {
        Statement::Expression(e) => match &e.expression {
            Expression::Assign(a) => match &*a.right {
                Expression::Object(o) => assert_eq!(o.properties.len(), 3),
                _ => panic!("an object"),
            },
            _ => panic!("an assignment"),
        },
        _ => panic!("an expression"),
    }
}

#[test]
fn parse_errors_are_syntax_errors() {
    let e = AST::new(String::from("let 1;")).parse().unwrap_err();
    assert_eq!(e.error_type, JSIErrorType::SyntaxError);
    assert_eq!(e.message, "Unexpected number");
    let e = AST::new(String::from("x = ;")).parse().unwrap_err();
    assert_eq!(e.message, "Unexpected token Semicolon");
    let e = AST::new(String::from("if (a b")).parse().unwrap_err();
    assert_eq!(e.message, "Unexpected identifier 'b'");
    let e = AST::new(String::from("var a = 'x")).parse();
    assert!(e.is_ok());
    let e = AST::new(String::from("a = '")).parse().unwrap_err();
    assert_eq!(e.message, "Invalid or unexpected token");
    let e = AST::new(String::from("a.1")).parse().unwrap_err();
    assert_eq!(e.message, "Unexpected number");
}

#[test]
fn parse_inserts_semicolons_at_line_breaks() {
    let program = AST::new(String::from("var a = 1\nvar b = 2\n")).parse().unwrap();
    assert_eq!(program.body.len(), 2);
    assert!(AST::new(String::from("var a = 1 var b = 2")).parse().is_err());
}

#[test]
fn parse_stops_at_unopened_brace() {
    let program = AST::new(String::from("a; } b;")).parse().unwrap();
    assert_eq!(program.body.len(), 1);
}

#[test]
fn keyword_and_class_type_text() {
    assert_eq!(Keywords::Undefined.to_string(), "undefined");
    assert_eq!(Keywords::This.to_string(), "this");
    assert_eq!(ClassType::Function.to_string(), "Function");
    assert_eq!(ClassType::Null.to_string(), "Null");
}

#[test]
fn token_lookup() {
    assert_eq!(get_token_keyword(&String::from("let"), true), Token::Let);
    assert_eq!(get_token_keyword(&String::from("let"), false), Token::ILLEGAL);
    assert_eq!(get_token_keyword(&String::from("while"), false), Token::While);
    assert_eq!(get_token_keyword(&String::from("whale"), true), Token::ILLEGAL);
    assert_eq!(get_token_literal(&String::from("undefined")), Token::Undefined);
    assert_eq!(get_token_literal(&String::from("nil")), Token::ILLEGAL);
    assert_eq!(Token::Plus.to_string(), "+");
}

#[test]
fn hex_digits_and_char_ranges() {
    assert_eq!(get_hex_number_value('7'), 7);
    assert_eq!(get_hex_number_value('b'), 11);
    assert_eq!(get_hex_number_value('F'), 15);
    assert_eq!(get_hex_number_value('g'), 16);
    let chars: Vec<char> = "hello".chars().collect();
    assert_eq!(chars_to_string(&chars, 1, 4), "ell");
    assert_eq!(chars_to_string(&chars, 2, 2), "");
}

#[test]
fn escapes_are_replaced() {
    assert_eq!(process_string_escapes("a\\nb\\tc"), "a\nb\tc");
    assert_eq!(process_string_escapes("\\x41\\u0042"), "AB");
    assert_eq!(process_string_escapes("\\q\\\\"), "\\q\\");
    assert_eq!(process_string_escapes("end\\"), "end");
    assert_eq!(process_string_escapes("\\uD800!"), "!");
    assert_eq!(process_string_escapes("\\x4"), "");
    assert_eq!(process_string_escapes("\\u41"), "A");
    // a text without a backslash is left as it is
    assert_eq!(process_string_escapes("plain text"), "plain text");
}

#[test]
fn index_text_round_trip() {
    assert_eq!(index_to_string(0), "0");
    assert_eq!(index_to_string(42), "42");
    assert_eq!(index_to_string(-5), "-5");
    assert_eq!(index_to_string(i32::MIN), "-2147483648");
    for i in [0, 7, 10, 99, 100, 12345, i32::MAX] {
        assert_eq!(string_to_index(&index_to_string(i)), Some(i as u64));
    }
    assert_eq!(string_to_index("4294967295"), Some(4294967295));
    assert_eq!(string_to_index("4294967296"), None);
    assert_eq!(string_to_index("042"), None);
    assert_eq!(string_to_index("+1"), None);
    assert_eq!(string_to_index(""), None);
    assert_eq!(string_to_index("1a"), None);
    assert_eq!(string_to_index("99999999999999999999999"), None);
}

#[test]
fn integers_in_other_bases() {
    assert_eq!(format_int_radix(255, 16), "ff");
    assert_eq!(format_int_radix(0, 2), "0");
    assert_eq!(format_int_radix(5, 2), "101");
    assert_eq!(format_int_radix(35, 36), "z");
    assert_eq!(format_int_radix(-3, 10), "");
    assert_eq!(format_int_radix(i64::MAX, 36), "1y2p0ij32e8e7");
}

#[test]
fn bytecode_equality_is_by_operator() {
    let a = ByteCode { op: EByteCodeop::OpAdd, args: vec![String::from("x")], line: 1 };
    let b = ByteCode { op: EByteCodeop::OpAdd, args: vec![], line: 9 };
    let c = ByteCode { op: EByteCodeop::OpSub, args: vec![String::from("x")], line: 1 };
    assert!(a == b);
    assert!(a != c);
    assert_eq!(EByteCodeop::OpAdd.to_string(), "Add");
    assert_eq!(EByteCodeop::OpGoto.to_string(), "Unknown");
}

fn keys(list: &[&str]) -> Vec<String> {
    list.iter().map(|k| String::from(*k)).collect()
}

#[test]
fn array_indices_are_sorted_index_keys() {
    let k = keys(&["10", "length", "2", "01", "0", "4294967295", "4294967296", "-1", "7"]);
    assert_eq!(get_array_indices(&k), vec![0, 2, 7, 10, 4294967295]);
    assert_eq!(get_array_indices_in_range(&k, 2, 10), vec![2, 7]);
    assert_eq!(get_array_indices_in_range(&k, 5, 5), Vec::<u64>::new());
}

#[test]
fn relative_positions() {
    assert_eq!(relative_index(-2, 5), 3);
    assert_eq!(relative_index(-9, 5), 0);
    assert_eq!(relative_index(9, 5), 5);
    assert_eq!(relative_index(2, 5), 2);
    assert_eq!(fill_range(5, Some(-2), None), (3, 5));
    assert_eq!(fill_range(5, Some(1), Some(-1)), (1, 4));
    assert_eq!(fill_range(5, None, Some(99)), (0, 5));
}

#[test]
fn slice_copies_the_range() {
    let k = keys(&["0", "1", "3", "length"]);
    assert_eq!(slice_sources(&k, 5, Some(1), Some(-1)), vec![1, 2, 3]);
    assert_eq!(slice_sources(&k, 5, None, None), vec![0, 1, 2, 3, 4]);
    assert_eq!(slice_sources(&k, 5, Some(3), Some(1)), Vec::<u64>::new());
    // a long range copies only the elements that are present
    let k = keys(&["5000", "3", "2000", "1"]);
    assert_eq!(slice_sources(&k, 6000, Some(2), None), vec![3, 2000, 5000]);
}

#[test]
fn splice_plans() {
    let k = keys(&["0", "1", "2", "3", "4", "length"]);
    // remove two from index 1, insert one
    let p = splice_plan(&k, 5, Some(1), Some(2), 1);
    assert_eq!(p.start, 1);
    assert_eq!(p.delete_count, 2);
    assert_eq!(p.deleted, vec![1, 2]);
    assert_eq!(p.moves, vec![(3, 2), (4, 3)]);
    assert_eq!(p.new_length, 4);
    // insert three at the end-relative index -2, removing none
    let p = splice_plan(&k, 5, Some(-2), Some(0), 3);
    assert_eq!(p.start, 3);
    assert_eq!(p.deleted, Vec::<u64>::new());
    assert_eq!(p.moves, vec![(4, 7), (3, 6)]);
    assert_eq!(p.new_length, 8);
    // without a count, everything from the start goes
    let p = splice_plan(&k, 5, Some(2), None, 0);
    assert_eq!(p.delete_count, 3);
    assert_eq!(p.deleted, vec![2, 3, 4]);
    assert_eq!(p.moves, Vec::<(u64, u64)>::new());
    assert_eq!(p.new_length, 2);
    // a negative count removes nothing
    let p = splice_plan(&k, 5, Some(0), Some(-3), 0);
    assert_eq!(p.delete_count, 0);
    assert_eq!(p.new_length, 5);
}

#[test]
fn search_positions() {
    let k = keys(&["0", "1", "2"]);
    assert_eq!(search_indices(&k, 3, None), vec![0, 1, 2]);
    assert_eq!(search_indices(&k, 3, Some(-1)), vec![2]);
    assert_eq!(search_indices(&k, 3, Some(7)), Vec::<u64>::new());
    let k = keys(&["2000", "10"]);
    assert_eq!(search_indices(&k, 3000, Some(5)), vec![10, 2000]);
}

#[test]
fn parse_labelled_loops() {
    let program = AST::new(String::from(
        "\
  let a = [];
  let i = 0;
  outer:
  while(i < 3) {
    i ++;
    let j = 0;
    while(j < 5) {
      j ++;
      if (j == 1 && i == 1) {
        continue outer
      }
      if (j == 4) break
      if (j == 3 && i == 2) {
        break outer
      }
      a.push(i * j);
    }
  }
  a.join(':')",
    ))
    .parse()
    .unwrap();
    assert_eq!(program.body.len(), 4);
    assert!(matches!(program.body[2], Statement::Label(_)));
}

#[test]
fn parse_comma_operator_in_parentheses() {
    let program = AST::new(String::from("(1, 2, 3)")).parse().unwrap();
    let number = |text: &str| Expression::Number(NumberLiteral { literal: String::from(text) });
    assert_eq!(
        program.body,
        vec![Statement::Expression(ExpressionStatement {
            expression: Expression::Group(GroupExpression {
                expression: Box::new(Expression::Sequence(SequenceExpression {
                    expressions: vec![number("1"), number("2"), number("3")]
                }))
            })
        })]
    );
    assert!(AST::new(String::from("var x = (1, 2); x")).parse().is_ok());
    // declarations and arguments keep the comma as a separator
    let program = AST::new(String::from("var a = 1, b = 2; f(a, b);")).parse().unwrap();
    assert_eq!(program.body.len(), 2);
}

#[test]
fn scan_skips_comments_and_blanks() {
    let mut a = AST::new(String::from("/* comment */ var x = 10; x"));
    assert_eq!(a.scan(), (Token::Var, String::from("var")));
    let mut b = AST::new(String::from("// comment\n x"));
    assert_eq!(b.scan(), (Token::Identifier, String::from("x")));
    let mut c = AST::new(String::from(" \t\n  \n"));
    assert_eq!(c.scan(), (Token::EOF, String::new()));
    assert_eq!(c.scan(), (Token::EOF, String::new()));
    assert_eq!(tokens("1>>>=1;"), vec![
        (Token::Number, String::from("1")),
        (Token::UnsignedShiftRightAssign, String::from(">>>=")),
        (Token::Number, String::from("1")),
        (Token::Semicolon, String::from(";")),
    ]);
}

#[test]
fn parse_of_blank_text_is_empty() {
    let program = AST::new(String::from("  // nothing\n /* here */ ")).parse().unwrap();
    assert_eq!(program.body.len(), 0);
    assert_eq!(program.declarations.len(), 0);
}

#[test]
fn sort_order_is_stable_by_text() {
    let k = keys(&["b", "a", "10", "9", "a", ""]);
    assert_eq!(sort_order(&k), vec![5, 2, 3, 1, 4, 0]);
    assert_eq!(sort_order(&Vec::new()), Vec::<usize>::new());
}

#[test]
fn promise_reaction_steps() {
    assert_eq!(reaction_start(Handler::Missing, true), ReactionStart::PassOn);
    assert_eq!(reaction_start(Handler::Missing, false), ReactionStart::FailWithTypeError);
    assert_eq!(reaction_start(Handler::Function, false), ReactionStart::CallHandler);
    assert_eq!(reaction_start(Handler::NotCallable, false), ReactionStart::PassOn);
    assert_eq!(promise_state(&String::from("fulfilled")), PromiseState::Fulfilled);
    assert_eq!(promise_state(&String::from("rejected")), PromiseState::Rejected);
    assert_eq!(promise_state(&String::from("pending")), PromiseState::Pending);
    assert_eq!(reaction_end(Outcome::Value), ReactionEnd::ResolveWithValue);
    assert_eq!(reaction_end(Outcome::Promise(PromiseState::Pending)), ReactionEnd::ChainThen);
    assert_eq!(reaction_end(Outcome::Failed), ReactionEnd::RejectWithError);
    assert_eq!(reaction_end(Outcome::PromiseWithoutState), ReactionEnd::Nothing);
}
