use mini_imp::ast::{Expr, ParseError, Program, Stmt};
use mini_imp::reader::{make_canonical_loop, parse_assignment, parse_lines, parse_program};

fn var(name: &str) -> Expr {
    Expr::Var(name.to_string())
}

fn binop(op: &str, left: Expr, right: Expr) -> Expr {
    Expr::BinOp(op.to_string(), Box::new(left), Box::new(right))
}

fn assign(target: &str, value: Expr) -> Stmt {
    Stmt::Assign(target.to_string(), value)
}

fn the_loop() -> Stmt {
    Stmt::While(
        binop(">", var("x"), Expr::Int(0)),
        vec![
            assign("y", binop("*", var("y"), var("x"))),
            assign("x", binop("-", var("x"), Expr::Int(1))),
        ],
    )
}

fn statements(input: &str) -> Vec<Stmt> {
    match parse_program(input) {
        Ok(program) => program.statements().clone(),
        Err(e) => panic!("unexpected failure: {:?}", e),
    }
}

#[test]
fn reads_the_factorial_program() {
    let program =
        parse_program("x = 5;\ny = 1;\nwhile (x > 0) {\n y = y * x;\n x = x - 1;\n}").unwrap();
    let expected =
        Program::new(vec![assign("x", Expr::Int(5)), assign("y", Expr::Int(1)), the_loop()]);
    assert_eq!(program, expected);
}

#[test]
fn reads_the_indented_factorial_program() {
    let input = "
        x = 5;
        y = 1;
        while (x > 0) {
            y = y * x;
            x = x - 1;
        }
    ";
    assert_eq!(
        statements(input),
        vec![assign("x", Expr::Int(5)), assign("y", Expr::Int(1)), the_loop()]
    );
}

#[test]
fn a_word_for_a_number_is_an_invalid_number() {
    let r = parse_program("x = five;");
    assert!(matches!(r, Err(ParseError::InvalidNumber(_))));
    assert_eq!(
        r,
        Err(ParseError::InvalidNumber("Invalid number in 'x = five;': 'five'".to_string()))
    );
}

#[test]
fn an_unknown_variable_is_passed_over() {
    assert_eq!(parse_program("z = 5;"), Ok(Program::new(vec![])));
    assert_eq!(statements("z = 5;\nx = 1;\nz = oops"), vec![assign("x", Expr::Int(1))]);
}

#[test]
fn an_assignment_without_equals_sign_is_invalid() {
    let r = parse_assignment("x 5", "x");
    assert!(matches!(r, Err(ParseError::InvalidAssignment(_))));
    assert_eq!(
        r,
        Err(ParseError::InvalidAssignment("Missing value in assignment: 'x 5'".to_string()))
    );
}

#[test]
fn a_line_without_equals_sign_is_no_assignment_to_the_reader() {
    assert_eq!(parse_program("x 5"), Ok(Program::new(vec![])));
}

#[test]
fn a_line_with_another_prefix_is_an_invalid_assignment() {
    assert_eq!(
        parse_assignment("y = 1;", "x ="),
        Err(ParseError::InvalidAssignment("Expected 'x =', got 'y = 1;'".to_string()))
    );
    assert!(matches!(parse_assignment("", "x ="), Err(ParseError::InvalidAssignment(_))));
    assert!(matches!(parse_assignment("x", "x ="), Err(ParseError::InvalidAssignment(_))));
}

#[test]
fn reading_twice_gives_equal_programs() {
    let input = "x = 5;\ny = 1;\nwhile (x > 0) {\n y = y * x;\n x = x - 1;\n}";
    assert_eq!(parse_program(input), parse_program(input));
    assert_eq!(parse_program("x = ?"), parse_program("x = ?"));
    assert_ne!(parse_program("x = 1"), parse_program("x = 2"));
    assert_ne!(parse_program("x = 1"), parse_program("y = 1"));
}

#[test]
fn blank_lines_and_padding_change_nothing() {
    let plain = parse_program("x = 5;\ny = 1;");
    assert_eq!(parse_program("\n\nx = 5;\n\n\ny = 1;\n\n"), plain);
    assert_eq!(parse_program("   x = 5;  \n\t y = 1;\t"), plain);
    assert_eq!(parse_program("x = 5;\r\ny = 1;\r\n"), plain);
    assert_eq!(parse_program(" \t \nx = 5;\n \u{a0}\u{3000} \n\u{2003}y = 1;\u{2028}"), plain);
    assert_eq!(parse_program(""), Ok(Program::new(vec![])));
    assert_eq!(parse_program(" \n \n\t"), Ok(Program::new(vec![])));
}

#[test]
fn one_statement_for_each_recognised_line() {
    assert_eq!(statements("x = 1\ny = 2\nx = 3\n}\n;\ny = 4").len(), 4);
    assert_eq!(statements("}\n{\nfoo").len(), 0);
    assert_eq!(statements("while\na\nb\nc\nd\nwhile\na\nb\nc\nd\nx = 1").len(), 3);
}

#[test]
fn statements_keep_the_order_of_their_lines() {
    assert_eq!(
        statements("y = 2\nx = 1\ny = 3"),
        vec![assign("y", Expr::Int(2)), assign("x", Expr::Int(1)), assign("y", Expr::Int(3))]
    );
}

#[test]
fn a_loop_takes_up_five_lines() {
    let input = "while (x > 0) {\nx = 1\nx = 2\nx = 3\nx = 4\nx = 9";
    assert_eq!(statements(input), vec![the_loop(), assign("x", Expr::Int(9))]);
}

#[test]
fn the_lines_of_a_loop_are_not_read() {
    let input = "while whatever\nx = oops\ny = oops\nwhile\nx";
    assert_eq!(statements(input), vec![the_loop()]);
}

#[test]
fn a_loop_may_be_cut_short_by_the_end() {
    assert_eq!(statements("x = 2\nwhile"), vec![assign("x", Expr::Int(2)), the_loop()]);
    assert_eq!(statements("while (x > 0) {\n}"), vec![the_loop()]);
}

#[test]
fn blank_lines_do_not_count_among_the_five() {
    let input = "while (x > 0) {\n\n y = y * x;\n\n x = x - 1;\n\n}\n\nz\n\nx = 7";
    assert_eq!(statements(input), vec![the_loop(), assign("x", Expr::Int(7))]);
}

#[test]
fn the_canonical_loop_is_the_fixed_one() {
    assert_eq!(make_canonical_loop(), the_loop());
}

#[test]
fn the_first_failure_ends_the_reading() {
    assert_eq!(
        parse_program("x = 1\ny = a\nx = b"),
        Err(ParseError::InvalidNumber("Invalid number in 'y = a': 'a'".to_string()))
    );
    assert_eq!(
        parse_program("x = b\ny = a"),
        Err(ParseError::InvalidNumber("Invalid number in 'x = b': 'b'".to_string()))
    );
}

#[test]
fn the_message_holds_the_trimmed_line() {
    assert_eq!(
        parse_program("   x = 1.5;   "),
        Err(ParseError::InvalidNumber("Invalid number in 'x = 1.5;': '1.5'".to_string()))
    );
}

#[test]
fn integer_literals_at_the_limits() {
    assert_eq!(statements("x = 2147483647;"), vec![assign("x", Expr::Int(2147483647))]);
    assert_eq!(statements("x = -2147483648;"), vec![assign("x", Expr::Int(-2147483648))]);
    assert!(matches!(parse_program("x = 2147483648;"), Err(ParseError::InvalidNumber(_))));
    assert!(matches!(parse_program("x = -2147483649;"), Err(ParseError::InvalidNumber(_))));
    assert!(matches!(
        parse_program("x = 99999999999999999999999999;"),
        Err(ParseError::InvalidNumber(_))
    ));
}

#[test]
fn integer_literals_in_their_forms() {
    assert_eq!(statements("x = +7"), vec![assign("x", Expr::Int(7))]);
    assert_eq!(statements("x = -0"), vec![assign("x", Expr::Int(0))]);
    assert_eq!(statements("x = 0000000000000042"), vec![assign("x", Expr::Int(42))]);
    assert_eq!(statements("x =5"), vec![assign("x", Expr::Int(5))]);
    assert_eq!(statements("y = 5;;"), vec![assign("y", Expr::Int(5))]);
    assert_eq!(statements("y = ;1;2;"), vec![assign("y", Expr::Int(12))]);
}

#[test]
fn values_that_are_no_literals() {
    for input in ["x =", "x = ;", "x = -", "x = +", "x = 5 ;", "x = 1 2", "x = 0x10", "x = --1",
        "x = 1-", "x = y", "x = 5 = 6", "x = \u{663}"]
    {
        assert!(
            matches!(parse_program(input), Err(ParseError::InvalidNumber(_))),
            "{}",
            input
        );
    }
}

#[test]
fn the_prefix_must_match_exactly() {
    assert_eq!(statements("x=5"), vec![]);
    assert_eq!(statements("x  = 5"), vec![]);
    assert_eq!(statements("X = 5"), vec![]);
    assert_eq!(statements("xy = 5"), vec![]);
    assert_eq!(statements("whil"), vec![]);
    assert_eq!(statements("whilex"), vec![the_loop()]);
}

#[test]
fn the_target_is_what_the_prefix_names() {
    assert_eq!(parse_assignment("x = 3;", "x ="), Ok(assign("x", Expr::Int(3))));
    assert_eq!(parse_assignment("y = 3;", "y ="), Ok(assign("y", Expr::Int(3))));
    assert_eq!(parse_assignment("total = 3;", "total"), Ok(assign("total", Expr::Int(3))));
    assert_eq!(parse_assignment("  n  = 3;", "  n  ="), Ok(assign("n", Expr::Int(3))));
    assert_eq!(parse_assignment("= 3", ""), Ok(assign("", Expr::Int(3))));
}

#[test]
fn lines_given_by_their_characters() {
    let lines: Vec<Vec<char>> =
        vec!["x = 1".chars().collect(), "}".chars().collect(), "y = -2;".chars().collect()];
    assert_eq!(
        parse_lines(&lines),
        Ok(Program::new(vec![assign("x", Expr::Int(1)), assign("y", Expr::Int(-2))]))
    );
}
