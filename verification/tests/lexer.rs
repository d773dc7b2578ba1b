use latex_analyzer::lex::{Lex, LexError, Token};

fn s(text: &str) -> String {
    text.to_string()
}

fn lex(text: &str) -> Vec<Token> {
    Lex::new(text.to_string()).parse()
}

fn expr(text: &str) -> Token {
    Token::Expression(text.to_string())
}

fn fun(name: &str, optional: &[&str], required: &[&str]) -> Token {
    Token::Function(
        name.to_string(),
        optional.iter().map(|t| t.to_string()).collect(),
        required.iter().map(|t| t.to_string()).collect(),
    )
}

#[test]
fn read_char_test() {
    let mut l = Lex::new("ax^2 + bx + c = 0".to_string());
    let mut res = String::new();
    loop {
        match l.read_char() {
            '\0' => break,
            t => res.push(t),
        }
    }

    assert_eq!(res, "ax^2 + bx + c = 0".to_string());
}

#[test]
fn read_pure_string_test() {
    let mut l = Lex::new("ax^2".to_string());

    assert_eq!(l.read_pure_string(), "ax".to_string());
}

#[test]
fn read_until_brace_r_test() {
    let mut l = Lex::new("{aaa}".to_string());
    let mut l1 = Lex::new("a_b^c".to_string());

    assert_eq!(l.read_until_brace_r(), "aaa".to_string());
    assert_eq!(l1.read_until_brace_r(), "a_b^c".to_string());
}

#[test]
fn read_function_test() {
    let mut l = Lex::new("\\frac{1}{2} + \\sqrt[2]{1} + \\rho".to_string());
    l.read_char();

    assert_eq!(
        l.read_function(),
        Token::Function("frac".to_string(), vec![], vec!["1".to_string(), "2".to_string()],)
    );

    l.read_char();
    l.read_char();
    l.read_char();
    l.read_char();

    assert_eq!(
        l.read_function(),
        Token::Function("sqrt".to_string(), vec!["2".to_string()], vec!["1".to_string()],)
    );

    l.read_char();
    l.read_char();
    l.read_char();
    l.read_char();

    assert_eq!(l.read_function(), Token::Function("rho".to_string(), vec![], vec![],));
}

#[test]
fn parse_test1() {
    let test = "\\frac{k}{k_0} = \\left(\\frac{T}{T_0}\\right)^{1.5}\\left(\\frac{T_0 + T_s}{T + T_{s}}\\right)
                ".to_string();
    let mut l = Lex::new(test);
    let v = l.parse();

    for i in v.iter() {
        println!("{:?}", i);
    }
    assert_eq!(
        v,
        vec![
            fun("frac", &[], &["k", "k_0"]),
            Token::Equal,
            Token::ParL,
            fun("frac", &[], &["T", "T_0"]),
            Token::ParR,
            Token::Superscript(s("1.5")),
            Token::ParL,
            fun("frac", &[], &["T_0 + T_s", "T + T_{s}"]),
            Token::ParR,
            Token::Eos,
        ]
    );
}

#[test]
fn parse_test2() {
    let test = "Pr = \\frac{\\mu{}c_p}{k}".to_string();
    let mut l = Lex::new(test);
    let v = l.parse();

    for i in v.iter() {
        println!("{:?}", i);
    }
    assert_eq!(
        v,
        vec![expr("Pr"), Token::Equal, fun("frac", &[], &["\\mu{}c_p", "k"]), Token::Eos]
    );
}

#[test]
fn parse_test3() {
    let test = "\\vec{u}_A(x + \\Delta{}x, y + \\Delta{}y, z + \\Delta{}z, t)".to_string();
    let mut l = Lex::new(test);
    let v = l.parse();

    for i in v.iter() {
        println!("{:?}", i);
    }
    assert_eq!(
        v,
        vec![
            fun("vec", &[], &["u"]),
            Token::Subscript(s("A")),
            Token::ParL,
            expr("x"),
            Token::Add,
            fun("Delta", &[], &[]),
            expr("x"),
            Token::Comma,
            expr("y"),
            Token::Add,
            fun("Delta", &[], &[]),
            expr("y"),
            Token::Comma,
            expr("z"),
            Token::Add,
            fun("Delta", &[], &[]),
            expr("z"),
            Token::Comma,
            expr("t"),
            Token::ParR,
            Token::Eos,
        ]
    );
}

#[test]
fn parse_test4() {
    let test = "\\int_a^b{x}\\di{x}".to_string();
    let mut l = Lex::new(test);
    let v = l.parse();

    for i in v.iter() {
        println!("{:?}", i);
    }
    assert_eq!(
        v,
        vec![fun("int", &["a", "b"], &[]), expr("x"), fun("di", &[], &["x"]), Token::Eos]
    );
}

#[test]
fn lex_parse_test4() {
    let test4 = "\\int_a^b{x}\\d{}x".to_string();
    let mut l4 = Lex::new(test4);
    let v4 = l4.parse();

    for i in v4.iter() {
        println!("{:?}", i);
    }
    assert_eq!(
        v4,
        vec![fun("int", &["a", "b"], &[]), expr("x"), fun("d", &[], &[]), expr("x"), Token::Eos]
    );
}

#[test]
fn parse_test5() {
    let test = "\\frac{1}{2} + \\sqrt[3]{4}".to_string();
    let mut l = Lex::new(test);
    let v = l.parse();

    for i in v.iter() {
        println!("{:?}", i);
    }
    assert_eq!(
        v,
        vec![fun("frac", &[], &["1", "2"]), Token::Add, fun("sqrt", &["3"], &["4"]), Token::Eos]
    );
}

#[test]
fn parse_test6() {
    let test = "\\left(a + \\frac{b}{c}\\right) + d".to_string();
    let mut l = Lex::new(test);
    let v = l.parse();

    for i in v.iter() {
        println!("{:?}", i);
    }
    assert_eq!(
        v,
        vec![
            Token::ParL,
            expr("a"),
            Token::Add,
            fun("frac", &[], &["b", "c"]),
            Token::ParR,
            Token::Add,
            expr("d"),
            Token::Eos,
        ]
    );
}

#[test]
fn parse_test7() {
    let test = "a+1\\var{a=1}".to_string();
    let mut l = Lex::new(test);
    let v = l.parse();

    for i in v.iter() {
        println!("{:?}", i);
    }
    assert_eq!(v, vec![expr("a"), Token::Add, expr("1"), Token::Var(s("a=1")), Token::Eos]);
}

#[test]
fn empty_braces_are_invisible() {
    assert_eq!(lex("{}x"), lex("x"));
    assert_eq!(lex("{}x"), vec![expr("x"), Token::Eos]);
    assert_eq!(lex("a^2{}b"), vec![expr("a"), Token::Superscript(s("2")), expr("b"), Token::Eos]);
}

#[test]
fn bound_order_is_irrelevant() {
    let a = lex("\\int_a^b{x}");
    let b = lex("\\int^b_a{x}");
    assert_eq!(a, b);
    assert_eq!(a, vec![fun("int", &["a", "b"], &[]), expr("x"), Token::Eos]);
    assert_eq!(lex("\\sum_{i}^{n}"), vec![fun("sum", &["i", "n"], &[]), Token::Eos]);
    assert_eq!(lex("\\prod^{n}_{i}"), vec![fun("prod", &["i", "n"], &[]), Token::Eos]);
}

#[test]
fn missing_bounds_are_rejected() {
    assert_eq!(Lex::new(s("\\int_a{x}")).try_parse(), Err(LexError::MissingBounds));
    assert_eq!(Lex::new(s("\\sum")).try_parse(), Err(LexError::MissingBounds));
    assert_eq!(Lex::new(s("\\prod_a_b")).try_parse(), Err(LexError::MissingBounds));
}

#[test]
fn unreadable_character_is_rejected() {
    assert_eq!(Lex::new(s("a # b")).try_parse(), Err(LexError::UnreadableChar('#')));
    assert_eq!(Lex::new(s("a\tb")).try_parse(), Err(LexError::UnreadableChar('\t')));
}

#[test]
fn binding_without_text_is_rejected() {
    assert_eq!(Lex::new(s("a\\var")).try_parse(), Err(LexError::EmptyBinding));
    assert_eq!(Lex::new(s("a\\var{}")).try_parse(), Err(LexError::EmptyBinding));
}

#[test]
fn script_at_the_terminator_runs_out_of_text() {
    assert_eq!(Lex::new(s("2^")).try_parse(), Err(LexError::UnexpectedEnd));
}

#[test]
fn bindings_move_to_the_end_in_order() {
    assert_eq!(
        lex("\\var{a=1}a+\\var{b=2}b"),
        vec![
            expr("a"),
            Token::Add,
            expr("b"),
            Token::Var(s("a=1")),
            Token::Var(s("b=2")),
            Token::Eos,
        ]
    );
}

#[test]
fn single_symbols_and_line_break() {
    assert_eq!(
        lex("= + - / * ( ) [ ] , . }\nrest"),
        vec![
            Token::Equal,
            Token::Add,
            Token::Sub,
            Token::Div,
            Token::Times,
            Token::ParL,
            Token::ParR,
            Token::SquareL,
            Token::SquareR,
            Token::Comma,
            Token::Dot,
            Token::BraceR,
            Token::Eos,
        ]
    );
}

#[test]
fn words_numbers_and_scripts() {
    assert_eq!(
        lex("ab1.c 12.5x x_{ij}^2 y^{a+b}+1"),
        vec![
            expr("ab1.c"),
            expr("12.5"),
            expr("x"),
            expr("x"),
            Token::Subscript(s("ij")),
            Token::Superscript(s("2")),
            expr("y"),
            Token::Superscript(s("a+b")),
            Token::Add,
            expr("1"),
            Token::Eos,
        ]
    );
}

#[test]
fn brace_groups_strip_one_pair() {
    assert_eq!(lex("{{a}}"), vec![expr("{a}"), Token::Eos]);
    assert_eq!(lex("{a+b}c"), vec![expr("a+b"), expr("c"), Token::Eos]);
    assert_eq!(lex("\\frac{{a}}{b}"), vec![fun("frac", &[], &["a", "b"]), Token::Eos]);
    let mut l = Lex::new(s("a}b"));
    assert_eq!(l.read_until_brace_r(), s("a"));
    assert_eq!(l.read_char(), '}');
}

#[test]
fn sizing_hints_vanish() {
    assert_eq!(lex("\\left(x\\right)"), vec![Token::ParL, expr("x"), Token::ParR, Token::Eos]);
}

#[test]
fn read_subscript_and_number() {
    let mut l = Lex::new(s("{22}x"));
    assert_eq!(l.read_subscript(), s("22"));
    assert_eq!(l.read_subscript(), s("x"));
    let mut l = Lex::new(s("1.5+2"));
    assert_eq!(l.read_pure_number(), s("1.5"));
    l.put_back();
    assert_eq!(l.read_char(), '5');
    assert_eq!(l.next(), Ok(Token::Add));
}

#[test]
fn post_process_fuses_and_closes() {
    let raw = vec![fun("int", &["9"], &["z"]), Token::Superscript(s("b")), Token::Subscript(s("a"))];
    assert_eq!(Lex::post_process(raw), Ok(vec![fun("int", &["a", "b"], &[]), Token::Eos]));
    assert_eq!(Lex::post_process(vec![fun("int", &[], &[])]), Err(LexError::MissingBounds));
}

#[test]
fn lex_read_pure_string_test() {
    let mut l = Lex::new("ax^2".to_string());

    assert_eq!(l.read_pure_string(), "ax".to_string());
    assert_eq!(l.read_char(), '^');
    assert_eq!(l.read_pure_string(), "2".to_string());
    assert_eq!(l.read_pure_string(), "".to_string());
}

#[test]
fn lex_read_until_brace_r_test() {
    let mut l = Lex::new("{aaa}".to_string());
    let mut l1 = Lex::new("a_b^c".to_string());

    assert_eq!(l.read_until_brace_r(), "aaa".to_string());
    assert_eq!(l1.read_until_brace_r(), "a_b^c".to_string());
    assert_eq!(l.read_char(), '\0');
    assert_eq!(l1.read_char(), '\0');
}

#[test]
fn lex_parse_test1() {
    let test1 = "\\frac{k}{k_0} = \\left(\\frac{T}{T_0}\\right)^{1.5}\\left(\\frac{T_0 + T_s}{T + T_{s}}\\right)
                ".to_string();
    let mut l1 = Lex::new(test1);
    let v1 = l1.parse();

    for i in v1.iter() {
        println!("{:?}", i);
    }
    assert_eq!(v1.len(), 10);
    assert_eq!(v1[9], Token::Eos);
}

#[test]
fn lex_parse_test2() {
    let test2 = "Pr = \\frac{\\mu{}c_p}{k}".to_string();
    let mut l2 = Lex::new(test2);
    let v2 = l2.parse();

    for i in v2.iter() {
        println!("{:?}", i);
    }
    assert_eq!(v2.len(), 4);
}

#[test]
fn lex_parse_test3() {
    let test3 = "\\vec{u}_A(x + \\Delta{}x, y + \\Delta{}y, z + \\Delta{}z, t)".to_string();
    let mut l3 = Lex::new(test3);
    let v3 = l3.parse();

    for i in v3.iter() {
        println!("{:?}", i);
    }
    assert_eq!(v3.len(), 21);
}

#[test]
fn lex_parse_test5() {
    let test5 = "\\frac{1}{2} + \\sqrt[3]{4}".to_string();
    let mut l5 = Lex::new(test5);
    let v5 = l5.parse();

    for i in v5.iter() {
        println!("{:?}", i);
    }
    assert_eq!(v5.len(), 4);
}

#[test]
fn letters_and_digits_beyond_ascii_continue_a_run() {
    assert_eq!(lex("x\u{3b1}1 + 2"), vec![expr("x\u{3b1}1"), Token::Add, expr("2"), Token::Eos]);
    assert_eq!(lex("1\u{b2}x"), vec![expr("1\u{b2}"), expr("x"), Token::Eos]);
    assert_eq!(lex("1x"), vec![expr("1"), expr("x"), Token::Eos]);
    assert_eq!(
        Lex::new(s("\u{3b1}")).try_parse(),
        Err(LexError::UnreadableChar('\u{3b1}'))
    );
}

#[test]
fn next_reads_token_by_token() {
    let mut l = Lex::new(s("  a_1 \\sqrt[3]{8}"));
    assert_eq!(l.next(), Ok(expr("a")));
    assert_eq!(l.next(), Ok(Token::Subscript(s("1"))));
    assert_eq!(l.next(), Ok(fun("sqrt", &["3"], &["8"])));
    assert_eq!(l.next(), Ok(Token::Eos));
    assert_eq!(l.next(), Err(LexError::UnexpectedEnd));
}
