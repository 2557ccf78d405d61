use truthtable::ast::{Component, Environment, Operation, VarOrExpr};
use truthtable::pipeline::{parse_expr, parse_str};
use truthtable::token::{ErrorKind, Token, TokenKind};

fn kind_text(k: &TokenKind) -> String {
    match k {
        TokenKind::LeftParen => "(".to_string(),
        TokenKind::RightParen => ")".to_string(),
        TokenKind::Identifier(n) => n.clone(),
        TokenKind::And => "&".to_string(),
        TokenKind::Or => "|".to_string(),
        TokenKind::Not => "!".to_string(),
        TokenKind::Xor => "^".to_string(),
        TokenKind::EndOfInput => "$".to_string(),
    }
}

fn render(op: &Operation) -> String {
    let mut out = String::from("[");
    for (i, c) in op.components.iter().enumerate() {
        if i > 0 {
            out.push_str(&kind_text(&op.ops[i - 1].kind));
        }
        if c.negated {
            out.push('!');
        }
        match &c.value {
            VarOrExpr::Var(n) => out.push_str(n),
            VarOrExpr::Expr(sub) => out.push_str(&render(sub)),
        }
    }
    out.push(']');
    out
}

fn env_of(pairs: &[(&str, bool)]) -> Environment {
    Environment { vars: pairs.iter().map(|(n, b)| (n.to_string(), *b)).collect() }
}

fn eval_str(src: &str, pairs: &[(&str, bool)]) -> bool {
    let op = parse_str(src.to_string()).ok().unwrap();
    op.eval(&env_of(pairs)).ok().unwrap()
}

fn results(src: &str) -> Vec<bool> {
    let a = parse_expr(src.to_string()).ok().unwrap();
    a.table.unwrap().iter().map(|r| r.1).collect()
}

#[test]
fn table_has_two_to_the_n_rows() {
    let a = parse_expr("a & b | c".to_string()).ok().unwrap();
    let rows = a.table.unwrap();
    assert_eq!(rows.len(), 8);
    for (c, row) in rows.iter().enumerate() {
        let vars = &row.0.vars;
        assert_eq!(vars.len(), 3);
        assert_eq!(vars[0].0, "a");
        assert_eq!(vars[1].0, "b");
        assert_eq!(vars[2].0, "c");
        assert_eq!(vars[0].1, (c >> 2) & 1 == 1);
        assert_eq!(vars[1].1, (c >> 1) & 1 == 1);
        assert_eq!(vars[2].1, c & 1 == 1);
    }
}

#[test]
fn table_rows_of_and() {
    assert_eq!(results("a & b"), vec![false, false, false, true]);
    assert_eq!(results("a | b"), vec![false, true, true, true]);
    assert_eq!(results("a ^ b"), vec![false, true, true, false]);
    assert_eq!(results("!a"), vec![true, false]);
}

#[test]
fn repeated_variable_counts_once() {
    let a = parse_expr("a & a".to_string()).ok().unwrap();
    assert_eq!(a.variables, vec!["a".to_string()]);
    assert_eq!(a.table.unwrap().len(), 2);
}

#[test]
fn operators_group_left_to_right() {
    assert_eq!(results("a & b | c"), results("(a & b) | c"));
    let flat = [("a", false), ("b", true), ("c", true)];
    assert!(eval_str("a & b | c", &flat));
    assert!(!eval_str("a & (b | c)", &flat));
    assert_eq!(results("a | b & c"), results("(a | b) & c"));
    assert_ne!(results("a | b & c"), results("a | (b & c)"));
}

#[test]
fn double_negation_cancels() {
    assert_eq!(results("!!a"), results("a"));
    assert_eq!(results("!!!a"), results("!a"));
    let a = parse_str("!!a".to_string()).ok().unwrap();
    assert_eq!(render(&a), "[a]");
}

#[test]
fn undefined_variable_is_false() {
    assert!(!eval_str("a", &[]));
    assert!(eval_str("!a", &[("b", true)]));
    assert!(eval_str("a | b", &[("b", true)]));
    let env = env_of(&[("x", true)]);
    assert!(!env.get_variable(&"y".to_string()));
    assert!(env.get_variable(&"x".to_string()));
}

#[test]
fn first_entry_wins_in_lookup() {
    let env = env_of(&[("x", true), ("x", false)]);
    assert!(env.get_variable(&"x".to_string()));
}

#[test]
fn synonyms_give_identical_trees() {
    let pairs = [("a & b", "a * b"), ("a | b", "a + b"), ("!a", "~a"), ("!(a & b) | c", "~(a * b) + c")];
    for (x, y) in pairs.iter() {
        let tx = parse_str(x.to_string()).ok().unwrap();
        let ty = parse_str(y.to_string()).ok().unwrap();
        assert_eq!(render(&tx), render(&ty));
    }
    assert_eq!(render(&parse_str("a * b".to_string()).ok().unwrap()), "[a&b]");
}

#[test]
fn unexpected_character_position() {
    let e = parse_str("a $ b".to_string()).err().unwrap();
    assert!(matches!(e.kind, ErrorKind::UnexpectedCharacter('$')));
    assert_eq!(e.line, 1);
    assert_eq!(e.col_range, (3, 3));
}

#[test]
fn unbalanced_parenthesis_expects_right_paren() {
    let e = parse_str("(a & b".to_string()).err().unwrap();
    assert!(matches!(e.kind, ErrorKind::UnexpectedToken(TokenKind::EndOfInput)));
    assert_eq!(e.line, 1);
    assert_eq!(e.col_range, (6, 6));
}

#[test]
fn wrong_token_inside_parentheses() {
    let e = parse_str("(a b)".to_string()).err().unwrap();
    match e.kind {
        ErrorKind::UnexpectedToken(TokenKind::Identifier(n)) => assert_eq!(n, "b"),
        _ => panic!("wrong error"),
    }
    assert_eq!(e.col_range, (4, 4));
}

#[test]
fn missing_operand_is_unexpected_token() {
    let e = parse_str("a &".to_string()).err().unwrap();
    assert!(matches!(e.kind, ErrorKind::UnexpectedToken(TokenKind::EndOfInput)));
    let e = parse_str(")".to_string()).err().unwrap();
    assert!(matches!(e.kind, ErrorKind::UnexpectedToken(TokenKind::RightParen)));
    assert_eq!(e.col_range, (1, 1));
    let e = parse_str("".to_string()).err().unwrap();
    assert!(matches!(e.kind, ErrorKind::UnexpectedToken(TokenKind::EndOfInput)));
    assert_eq!(e.col_range, (0, 0));
}

#[test]
fn error_on_later_line() {
    let e = parse_str("a &\nb &\n 1".to_string()).err().unwrap();
    assert!(matches!(e.kind, ErrorKind::UnexpectedCharacter('1')));
    assert_eq!(e.line, 3);
    assert_eq!(e.col_range, (2, 2));
}

#[test]
fn trailing_tokens_are_not_read() {
    let a = parse_str("a b".to_string()).ok().unwrap();
    assert_eq!(render(&a), "[a]");
}

#[test]
fn discovery_order_is_first_occurrence() {
    let a = parse_expr("b & a".to_string()).ok().unwrap();
    assert_eq!(a.variables, vec!["b".to_string(), "a".to_string()]);
    assert_eq!(a.header, vec!["a".to_string(), "b".to_string()]);
}

#[test]
fn discovery_goes_depth_first() {
    let a = parse_expr("c & (b | (a ^ c)) & d & b".to_string()).ok().unwrap();
    assert_eq!(a.variables, vec!["c", "b", "a", "d"]);
    assert_eq!(a.header, vec!["a", "b", "c", "d"]);
}

#[test]
fn header_sorts_by_code_point() {
    let a = parse_expr("beta | Zed | alpha | al".to_string()).ok().unwrap();
    assert_eq!(a.header, vec!["Zed", "al", "alpha", "beta"]);
}

#[test]
fn unexpected_operation_in_hand_built_tree() {
    let leaf = |n: &str| Component { value: VarOrExpr::Var(n.to_string()), negated: false };
    let op = Operation {
        components: vec![leaf("a"), leaf("b")],
        ops: vec![Token { kind: TokenKind::Not, col: 7, line: 2 }],
    };
    let e = op.eval(&env_of(&[])).err().unwrap();
    assert!(matches!(e.kind, ErrorKind::UnexpectedOperation(TokenKind::Not)));
    assert_eq!(e.line, 2);
    assert_eq!(e.col_range, (7, 7));
}

#[test]
fn empty_operation_is_false() {
    let op = Operation { components: vec![], ops: vec![] };
    assert!(!op.eval(&env_of(&[])).ok().unwrap());
}

#[test]
fn nested_negated_group() {
    let a = parse_str("!(a | b) & c".to_string()).ok().unwrap();
    assert_eq!(render(&a), "[![a|b]&c]");
    assert_eq!(results("!(a | b) & c"), vec![false, true, false, false, false, false, false, false]);
}

#[test]
fn error_messages_name_what_was_found() {
    let e = parse_str("a $ b".to_string()).err().unwrap();
    assert_eq!(e.message(), "Unexpected character: $");
    let e = parse_str("(a & b".to_string()).err().unwrap();
    assert_eq!(e.message(), "Unexpected token: EndOfInput");
    let e = parse_str("(a xy)".to_string()).err().unwrap();
    assert_eq!(e.message(), "Unexpected token: Identifier(xy)");
    assert_eq!(TokenKind::RightParen.text(), "RightParen");
    let op = Operation {
        components: vec![
            Component { value: VarOrExpr::Var("a".to_string()), negated: false },
            Component { value: VarOrExpr::Var("b".to_string()), negated: true },
        ],
        ops: vec![Token { kind: TokenKind::LeftParen, col: 1, line: 1 }],
    };
    let e = op.eval(&env_of(&[])).err().unwrap();
    assert_eq!(e.message(), "Unexpected operation: LeftParen");
}
