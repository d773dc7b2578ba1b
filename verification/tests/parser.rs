use latex_analyzer::ast::{BuildError, Node, NodeKind, AST};
use latex_analyzer::lex::{Lex, LexError, Token};
use latex_analyzer::parser::{ParseError, Parser};

fn s(text: &str) -> String {
    text.to_string()
}

fn expr(text: &str) -> Token {
    Token::Expression(text.to_string())
}

fn fun(name: &str, optional: &[&str], required: &[&str]) -> Token {
    Token::Function(
        name.to_string(),
        optional.iter().map(|t| t.to_string()).collect(),
        required.iter().map(|t| t.to_string()).collect(),
    )
}

fn postfix(text: &str) -> Result<Vec<Token>, ParseError> {
    Parser::from_proto(Lex::new(text.to_string()).parse()).try_to_postfix_proto()
}

fn show(node: &Node) -> String {
    match node.node_kind {
        NodeKind::Num => match node.value.as_ref().unwrap() {
            Token::Expression(text) => text.clone(),
            Token::Function(name, _, _) => format!("\\{}", name),
            other => format!("{:?}", other),
        },
        NodeKind::Op => {
            let op = match node.op.as_ref().unwrap() {
                Token::Add => "+",
                Token::Sub => "-",
                Token::Times => "*",
                Token::Div => "/",
                Token::Superscript(_) => "^",
                _ => "?",
            };
            format!(
                "({} {} {})",
                show(node.left.as_ref().unwrap()),
                op,
                show(node.right.as_ref().unwrap())
            )
        }
    }
}

fn tree(text: &str) -> Result<String, BuildError> {
    AST::try_new(postfix(text).unwrap()).map(|ast| show(&ast.0))
}

#[test]
fn to_postfix_proto_test1() {
    let mut lex = Lex::new(r"a + b * (c - d) / e".to_string());
    let parser = Parser::from_lex(&mut lex);
    let proto = parser.to_postfix_proto();

    // abcd-*e/+
    for p in proto.iter() {
        println!("{:?}", p);
    }
    assert_eq!(
        proto,
        vec![
            expr("a"),
            expr("b"),
            expr("c"),
            expr("d"),
            Token::Sub,
            Token::Times,
            expr("e"),
            Token::Div,
            Token::Add,
            Token::Eos,
        ]
    );
}

#[test]
fn to_postfix_proto_test2() {
    let mut lex = Lex::new(r"a + (\frac{1}{2} + 3) * \sqrt[3]{2}".to_string());
    let parser = Parser::from_proto(lex.parse());
    let proto = parser.to_postfix_proto();

    for p in proto.iter() {
        println!("{:?}", p);
    }
    assert_eq!(
        proto,
        vec![
            expr("a"),
            fun("frac", &[], &["1", "2"]),
            expr("3"),
            Token::Add,
            fun("sqrt", &["3"], &["2"]),
            Token::Times,
            Token::Add,
            Token::Eos,
        ]
    );
}

#[test]
fn parser_to_postfix_proto_test1() {
    let mut lex = Lex::new("a + b * (c - d) / e".to_string());
    let parser = Parser::new(lex.parse());
    let proto = parser.to_postfix_proto();

    // abcd-*e/+
    for p in proto.iter() {
        println!("{:?}", p);
    }
    assert_eq!(proto.len(), 10);
    assert_eq!(proto[4], Token::Sub);
    assert_eq!(proto[8], Token::Add);
}

#[test]
fn parser_to_postfix_proto_test2() {
    let mut lex = Lex::new("a + (\\frac{1}{2} + 3) * \\sqrt[3]{2}".to_string());
    let parser = Parser::new(lex.parse());
    let proto = parser.to_postfix_proto();

    for p in proto.iter() {
        println!("{:?}", p);
    }
    assert_eq!(proto.len(), 8);
    assert_eq!(proto[5], Token::Times);
}

#[test]
fn weights_order_the_operators() {
    assert_eq!(Parser::weight(&Token::Add), 1);
    assert_eq!(Parser::weight(&Token::Sub), 1);
    assert_eq!(Parser::weight(&Token::Times), 2);
    assert_eq!(Parser::weight(&Token::Div), 2);
    assert_eq!(Parser::weight(&Token::Superscript(s("2"))), 3);
    assert_eq!(Parser::weight(&Token::ParL), 0);
    assert_eq!(Parser::weight(&expr("x")), 0);
}

#[test]
fn equal_precedence_pops_to_the_left() {
    assert_eq!(
        postfix("a - b + c"),
        Ok(vec![expr("a"), expr("b"), Token::Sub, expr("c"), Token::Add, Token::Eos])
    );
    assert_eq!(
        postfix("a^2^3"),
        Ok(vec![
            expr("a"),
            Token::Superscript(s("2")),
            Token::Superscript(s("3")),
            Token::Eos
        ])
    );
    assert_eq!(tree("a^2^3"), Ok(s("((a ^ 2) ^ 3)")));
    assert_eq!(tree("a*b^2"), Ok(s("(a * (b ^ 2))")));
}

#[test]
fn bindings_follow_the_operators() {
    assert_eq!(
        postfix("a+1\\var{a=1}"),
        Ok(vec![expr("a"), expr("1"), Token::Add, Token::Var(s("a=1")), Token::Eos])
    );
}

#[test]
fn stray_tokens_are_rejected() {
    assert_eq!(postfix("a = b"), Err(ParseError::UnexpectedToken));
    assert_eq!(postfix("a, b"), Err(ParseError::UnexpectedToken));
    assert_eq!(postfix("a_1"), Err(ParseError::UnexpectedToken));
    assert_eq!(postfix("a }"), Err(ParseError::UnexpectedToken));
    assert_eq!(postfix("[a]"), Err(ParseError::UnexpectedToken));
}

#[test]
fn unbalanced_grouping_is_rejected() {
    assert_eq!(postfix("(a + b"), Err(ParseError::UnbalancedGrouping));
    assert_eq!(postfix("a + b)"), Err(ParseError::UnbalancedGrouping));
    assert_eq!(
        postfix("((a))"),
        Ok(vec![expr("a"), Token::Eos])
    );
}

#[test]
fn tokens_behind_the_end_are_not_read() {
    let proto = vec![expr("a"), Token::Eos, Token::Equal];
    assert_eq!(
        Parser::from_proto(proto).try_to_postfix_proto(),
        Ok(vec![expr("a"), Token::Eos])
    );
}

#[test]
fn try_from_lex_reports_the_lexer() {
    let mut lex = Lex::new(s("a ? b"));
    assert!(matches!(Parser::try_from_lex(&mut lex), Err(LexError::UnreadableChar('?'))));
    let mut lex = Lex::new(s("a + b"));
    let parser = Parser::try_from_lex(&mut lex).ok().unwrap();
    assert_eq!(parser.to_postfix_proto().len(), 4);
}

#[test]
fn tree_follows_precedence() {
    assert_eq!(tree("a + b * (c - d) / e"), Ok(s("(a + ((b * (c - d)) / e))")));
    assert_eq!(tree("\\frac{1}{2} + \\sqrt[3]{4} - \\frac{1}{3}"), Ok(s("((\\frac + \\sqrt) - \\frac)")));
}

#[test]
fn doubled_operator_fails_to_build() {
    assert_eq!(tree("\\frac{1}{2} ++ \\sqrt[3]{4}"), Err(BuildError::MissingOperand));
}

#[test]
fn build_errors() {
    assert_eq!(tree("a b"), Err(BuildError::NotOneTree));
    assert_eq!(tree(""), Err(BuildError::NotOneTree));
    assert_eq!(tree("^2"), Err(BuildError::MissingOperand));
    assert_eq!(tree("+"), Err(BuildError::MissingOperand));
    let bad = vec![expr("a"), Token::ParL, Token::Eos];
    assert!(matches!(AST::try_new(bad), Err(BuildError::UnexpectedToken)));
    assert!(matches!(Node::new_value_node(Token::Add), Err(BuildError::UnexpectedToken)));
    let a = Node::new_value_node(expr("a")).unwrap();
    let b = Node::new_value_node(expr("b")).unwrap();
    assert!(matches!(Node::new_op_node(expr("x"), a, b), Err(BuildError::UnexpectedToken)));
}

#[test]
fn ast_holds_tree_and_bindings() {
    let proto = postfix("a+1\\var{a=1}\\var{b=2}").unwrap();
    let ast = AST::new(proto);
    assert_eq!(show(&ast.0), "(a + 1)");
    assert_eq!(ast.1, vec![s("a=1"), s("b=2")]);
    let (node, vars) = Node::parse_rpn(postfix("x^n").unwrap()).unwrap();
    assert_eq!(node.node_kind, NodeKind::Op);
    assert_eq!(show(&node), "(x ^ n)");
    assert!(vars.is_empty());
}
