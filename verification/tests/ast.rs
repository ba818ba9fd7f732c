use mini_imp::ast::{
    clone_expr, clone_stmt, clone_stmts, same_expr, same_stmt, same_stmts, Expr, ParseError,
    Program, Stmt,
};
use mini_imp::reader::parse_program;

fn sample() -> Vec<Stmt> {
    vec![
        Stmt::assign("x", Expr::integer(5)),
        Stmt::conditional(
            Expr::binary("<", Expr::variable("x"), Expr::integer(3)),
            vec![Stmt::assign("y", Expr::integer(1))],
            vec![Stmt::block(vec![]), Stmt::assign("y", Expr::variable("x"))],
        ),
        Stmt::while_loop(
            Expr::binary(">", Expr::variable("x"), Expr::integer(0)),
            vec![Stmt::assign("x", Expr::binary("-", Expr::variable("x"), Expr::integer(1)))],
        ),
        Stmt::block(vec![Stmt::assign("z", Expr::integer(-1))]),
    ]
}

#[test]
fn constructors_build_the_variants() {
    assert_eq!(Expr::integer(7), Expr::Int(7));
    assert_eq!(Expr::variable("total"), Expr::Var("total".to_string()));
    assert_eq!(
        Expr::binary("+", Expr::integer(1), Expr::variable("a")),
        Expr::BinOp("+".to_string(), Box::new(Expr::Int(1)), Box::new(Expr::Var("a".to_string())))
    );
    assert_eq!(
        Stmt::assign("a", Expr::integer(2)),
        Stmt::Assign("a".to_string(), Expr::Int(2))
    );
    assert_eq!(
        Stmt::conditional(Expr::integer(1), vec![], vec![Stmt::block(vec![])]),
        Stmt::If(Expr::Int(1), vec![], vec![Stmt::Block(vec![])])
    );
    assert_eq!(
        Stmt::while_loop(Expr::integer(0), vec![Stmt::assign("a", Expr::integer(2))]),
        Stmt::While(Expr::Int(0), vec![Stmt::Assign("a".to_string(), Expr::Int(2))])
    );
}

#[test]
fn a_program_keeps_its_statements_in_order() {
    let program = Program::new(sample());
    assert_eq!(program.len(), 4);
    assert_eq!(program.statements(), &sample());
    assert_eq!(Program::new(vec![]).len(), 0);
}

#[test]
fn a_copy_is_the_same_tree() {
    let stmts = sample();
    assert_eq!(clone_stmts(&stmts), stmts);
    for s in &stmts {
        assert_eq!(&clone_stmt(s), s);
        assert_eq!(&s.clone(), s);
    }
    let e = Expr::binary(
        "*",
        Expr::variable("y"),
        Expr::binary("-", Expr::integer(1), Expr::integer(2)),
    );
    assert_eq!(clone_expr(&e), e);
    assert_eq!(e.clone(), e);
    let program = Program::new(stmts);
    assert_eq!(program.clone(), program);
    assert!(program.clone().same_as(&program));
}

#[test]
fn sameness_is_structural_equality() {
    let exprs = vec![
        Expr::integer(0),
        Expr::integer(1),
        Expr::variable("x"),
        Expr::variable("y"),
        Expr::variable(""),
        Expr::binary("+", Expr::integer(0), Expr::integer(1)),
        Expr::binary("-", Expr::integer(0), Expr::integer(1)),
        Expr::binary("+", Expr::integer(1), Expr::integer(0)),
        Expr::binary(
            "+",
            Expr::variable("x"),
            Expr::binary("+", Expr::integer(0), Expr::integer(1)),
        ),
    ];
    for a in &exprs {
        for b in &exprs {
            assert_eq!(same_expr(a, b), a == b);
        }
    }
    let mut stmts = sample();
    stmts.push(Stmt::block(vec![]));
    stmts.push(Stmt::block(vec![Stmt::assign("z", Expr::integer(1))]));
    stmts.push(Stmt::assign("y", Expr::integer(5)));
    stmts.push(Stmt::conditional(Expr::integer(1), vec![], vec![Stmt::block(vec![])]));
    stmts.push(Stmt::conditional(Expr::integer(1), vec![Stmt::block(vec![])], vec![]));
    stmts.push(Stmt::while_loop(Expr::integer(1), vec![]));
    for a in &stmts {
        for b in &stmts {
            assert_eq!(same_stmt(a, b), a == b);
        }
    }
    assert!(same_stmts(&sample(), &sample()));
    assert!(!same_stmts(&sample(), &stmts));
    assert!(!same_stmts(&stmts, &sample()));
    assert!(same_stmts(&vec![], &vec![]));
}

#[test]
fn two_readings_are_the_same_tree() {
    let input = "x = 5;\ny = 1;\nwhile (x > 0) {\n y = y * x;\n x = x - 1;\n}";
    let first = parse_program(input).unwrap();
    let second = parse_program(input).unwrap();
    assert!(first.same_as(&second));
    assert!(!first.same_as(&parse_program("x = 5;").unwrap()));
}

#[test]
fn a_failure_gives_its_message() {
    let e = ParseError::InvalidNumber("no number".to_string());
    assert_eq!(e.message(), "no number");
    let e = ParseError::InvalidAssignment("no assignment".to_string());
    assert_eq!(e.message(), "no assignment");
    assert_eq!(e.clone(), e);
    assert_ne!(
        ParseError::InvalidNumber("m".to_string()),
        ParseError::InvalidAssignment("m".to_string())
    );
    match parse_program("y = 1e3") {
        Err(e) => assert_eq!(e.message(), "Invalid number in 'y = 1e3': '1e3'"),
        Ok(_) => panic!("read a program"),
    }
}
