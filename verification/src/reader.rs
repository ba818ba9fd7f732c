//! The reader: from a source text to a program, or to the first failure.
//!
//! The reader acts on three shapes of line only. A line that begins with
//! `x =` or with `y =` is an assignment of an integer literal. A line that
//! begins with `while` opens a construct of five lines, which is read as one
//! fixed loop whatever its four other lines say. Every other line is passed
//! over: it yields no statement and no failure.
//!
//! This holds of a line such as `z = 5;` too, and of `x 5`: neither begins
//! as the reader expects, so neither is read, and neither is a failure. Lines
//! are trimmed, and blank lines left out, before any of this.

use crate::ast::{
    expr_well_formed, stmt_views, stmt_well_formed, stmts_well_formed, Expr, ExprView,
    ParseError, ParseErrorView, Program, Stmt, StmtView,
};
use crate::number::{decimal_i32, parse_i32};
use crate::text::{
    chars_of, copy_without, find, find_in, push_range, rows, significant_lines, split_lines,
    starts_with, string_of, trim, trim_bounds, without,
};
use vstd::prelude::*;
use vstd::string::*;

verus! {

/// The sign that parts the target of an assignment from its value.
pub open spec fn equals_sign() -> char {
    '='
}

/// The character that may end a statement, and is left out of its value.
pub open spec fn semicolon() -> char {
    ';'
}

/// The beginning of an assignment to `x`.
pub open spec fn x_prefix() -> Seq<char> {
    seq!['x', ' ', '=']
}

/// The beginning of an assignment to `y`.
pub open spec fn y_prefix() -> Seq<char> {
    seq!['y', ' ', '=']
}

/// The beginning of the header of a loop.
pub open spec fn while_prefix() -> Seq<char> {
    seq!['w', 'h', 'i', 'l', 'e']
}

/// The variable that a prefix names: what stands before its equals sign, or
/// the whole of it where it has none, trimmed.
pub open spec fn target_of(prefix: Seq<char>) -> Seq<char> {
    trim(prefix.take(find(prefix, equals_sign())))
}

/// The text of the value of an assignment: what follows the first equals sign
/// of the line, trimmed, and then without its semicolons.
pub open spec fn value_text(line: Seq<char>) -> Seq<char> {
    without(trim(line.skip(find(line, equals_sign()) + 1)), semicolon())
}

/// The message for a line that does not begin with the expected prefix.
pub open spec fn prefix_message(line: Seq<char>, prefix: Seq<char>) -> Seq<char> {
    "Expected '"@ + prefix + "', got '"@ + line + "'"@
}

/// The message for a line without an equals sign.
pub open spec fn missing_value_message(line: Seq<char>) -> Seq<char> {
    "Missing value in assignment: '"@ + line + "'"@
}

/// The message for a line whose value is no 32-bit integer literal.
pub open spec fn number_message(line: Seq<char>) -> Seq<char> {
    "Invalid number in '"@ + line + "': '"@ + value_text(line) + "'"@
}

/// What reading one line as an assignment gives.
pub open spec fn assignment_of(line: Seq<char>, prefix: Seq<char>) -> Result<
    StmtView,
    ParseErrorView,
> {
    if !prefix.is_prefix_of(line) {
        Err(ParseErrorView::InvalidAssignment(prefix_message(line, prefix)))
    } else if find(line, equals_sign()) >= line.len() {
        Err(ParseErrorView::InvalidAssignment(missing_value_message(line)))
    } else {
        match decimal_i32(value_text(line)) {
            Some(value) => Ok(StmtView::Assign(target_of(prefix), ExprView::Int(value))),
            None => Err(ParseErrorView::InvalidNumber(number_message(line))),
        }
    }
}

/// The binary operation `left op right` on two operands.
pub open spec fn binary(op: char, left: ExprView, right: ExprView) -> ExprView {
    ExprView::BinOp(seq![op], Box::new(left), Box::new(right))
}

/// The variable named by the single character `name`.
pub open spec fn variable(name: char) -> ExprView {
    ExprView::Var(seq![name])
}

/// The loop that stands for every loop construct:
/// `while x > 0 { y = y * x; x = x - 1 }`.
pub open spec fn canonical_loop() -> StmtView {
    StmtView::While(
        binary('>', variable('x'), ExprView::Int(0)),
        seq![
            StmtView::Assign(seq!['y'], binary('*', variable('y'), variable('x'))),
            StmtView::Assign(seq!['x'], binary('-', variable('x'), ExprView::Int(1))),
        ],
    )
}

/// A statement followed by the statements that come after it; the first
/// failure in that order where there is one.
pub open spec fn followed_by(
    first: Result<StmtView, ParseErrorView>,
    rest: Result<Seq<StmtView>, ParseErrorView>,
) -> Result<Seq<StmtView>, ParseErrorView> {
    match first {
        Err(e) => Err(e),
        Ok(stmt) => match rest {
            Err(e) => Err(e),
            Ok(stmts) => Ok(seq![stmt] + stmts),
        },
    }
}

/// Whether the reader acts on `line`: it begins an assignment to `x` or to
/// `y`, or a loop.
pub open spec fn is_recognized(line: Seq<char>) -> bool {
    x_prefix().is_prefix_of(line) || y_prefix().is_prefix_of(line) || while_prefix().is_prefix_of(
        line,
    )
}

/// What the recognized line `line` is read as.
pub open spec fn statement_of(line: Seq<char>) -> Result<StmtView, ParseErrorView> {
    if x_prefix().is_prefix_of(line) {
        assignment_of(line, x_prefix())
    } else if y_prefix().is_prefix_of(line) {
        assignment_of(line, y_prefix())
    } else {
        Ok(canonical_loop())
    }
}

/// How many lines the construct that `line` begins takes up: five for a
/// loop, its header included, and one for any other line.
pub open spec fn span_of(line: Seq<char>) -> int {
    if !x_prefix().is_prefix_of(line) && !y_prefix().is_prefix_of(line)
        && while_prefix().is_prefix_of(line) {
        5
    } else {
        1
    }
}

/// What reading the lines from the `i`-th on gives: the statement of the
/// first line that the reader acts on, followed by what reading the lines
/// after its construct gives.
pub open spec fn statements_from(lines: Seq<Seq<char>>, i: int) -> Result<
    Seq<StmtView>,
    ParseErrorView,
>
    decreases
        (if i < lines.len() {
            lines.len() - i
        } else {
            0
        }),
{
    if i < 0 || i >= lines.len() {
        Ok(Seq::empty())
    } else if is_recognized(lines[i]) {
        followed_by(statement_of(lines[i]), statements_from(lines, i + span_of(lines[i])))
    } else {
        statements_from(lines, i + 1)
    }
}

/// What reading the source text `source` gives.
pub open spec fn program_of(source: Seq<char>) -> Result<Seq<StmtView>, ParseErrorView> {
    statements_from(significant_lines(source), 0)
}

/// A binary operation on well-formed operands is well formed.
pub proof fn lemma_binary_well_formed(op: char, left: ExprView, right: ExprView)
    requires
        expr_well_formed(left),
        expr_well_formed(right),
    ensures
        expr_well_formed(binary(op, left, right)),
{
    assert(seq![op].len() == 1);
}

/// The loop that stands for every loop construct is well formed.
pub proof fn lemma_canonical_loop_well_formed()
    ensures
        stmt_well_formed(canonical_loop()),
{
    let x = variable('x');
    let y = variable('y');
    let zero = ExprView::Int(0);
    let one = ExprView::Int(1);
    assert(expr_well_formed(x) && expr_well_formed(y));
    assert(expr_well_formed(zero) && expr_well_formed(one));
    lemma_binary_well_formed('>', x, zero);
    lemma_binary_well_formed('*', y, x);
    lemma_binary_well_formed('-', x, one);
    let body = canonical_loop()->While_1;
    assert(stmt_well_formed(body[0]));
    assert(stmt_well_formed(body[1]));
}

/// Every statement that reading gives is well formed: no operator in it is
/// empty.
pub proof fn lemma_statements_well_formed(lines: Seq<Seq<char>>, i: int)
    requires
        0 <= i,
        statements_from(lines, i) is Ok,
    ensures
        stmts_well_formed(statements_from(lines, i)->Ok_0),
    decreases
        (if i < lines.len() {
            lines.len() - i
        } else {
            0
        }),
{
    if i < lines.len() {
        let line = lines[i];
        let stmts = statements_from(lines, i)->Ok_0;
        if is_recognized(line) {
            lemma_statements_well_formed(lines, i + span_of(line));
            let rest = statements_from(lines, i + span_of(line))->Ok_0;
            lemma_canonical_loop_well_formed();
            assert forall|k: int| 0 <= k < stmts.len() implies stmt_well_formed(
                #[trigger] stmts[k],
            ) by {
                if k > 0 {
                    assert(stmts[k] == rest[k - 1]);
                }
            }
        } else {
            lemma_statements_well_formed(lines, i + 1);
        }
    }
}

/// The positions, from `i` on, of the lines that the reader acts on: the
/// recognized lines that no loop construct before them takes up.
pub open spec fn recognized_from(lines: Seq<Seq<char>>, i: int) -> Seq<int>
    decreases
        (if i < lines.len() {
            lines.len() - i
        } else {
            0
        }),
{
    if i < 0 || i >= lines.len() {
        Seq::empty()
    } else if is_recognized(lines[i]) {
        seq![i] + recognized_from(lines, i + span_of(lines[i]))
    } else {
        recognized_from(lines, i + 1)
    }
}

/// Where reading succeeds, the statements are as many as the lines that the
/// reader acts on, and the `k`-th statement is what the `k`-th of those lines
/// is read as: one statement for each such line, in the order of the lines.
pub proof fn lemma_one_statement_per_recognized_line(lines: Seq<Seq<char>>, i: int)
    requires
        0 <= i,
        statements_from(lines, i) is Ok,
    ensures
        statements_from(lines, i)->Ok_0.len() == recognized_from(lines, i).len(),
        forall|k: int|
            0 <= k < recognized_from(lines, i).len() ==> statement_of(
                lines[#[trigger] recognized_from(lines, i)[k]],
            ) == Ok::<StmtView, ParseErrorView>(statements_from(lines, i)->Ok_0[k]),
    decreases
        (if i < lines.len() {
            lines.len() - i
        } else {
            0
        }),
{
    if i < lines.len() {
        if is_recognized(lines[i]) {
            lemma_one_statement_per_recognized_line(lines, i + span_of(lines[i]));
        } else {
            lemma_one_statement_per_recognized_line(lines, i + 1);
        }
    }
}

/// The value of the outcome of reading one line.
pub open spec fn stmt_outcome(r: Result<Stmt, ParseError>) -> Result<StmtView, ParseErrorView> {
    match r {
        Ok(stmt) => Ok(stmt@),
        Err(e) => Err(e@),
    }
}

/// The value of the outcome of reading a text.
pub open spec fn outcome(r: Result<Program, ParseError>) -> Result<Seq<StmtView>, ParseErrorView> {
    match r {
        Ok(program) => Ok(program@),
        Err(e) => Err(e@),
    }
}

/// Reads the line `line`, given by its characters, as an assignment that
/// begins with `prefix`.
pub fn parse_assignment_chars(line: &Vec<char>, prefix: &Vec<char>) -> (r: Result<
    Stmt,
    ParseError,
>)
    ensures
        stmt_outcome(r) == assignment_of(line@, prefix@),
{
    let n: usize = line.len();
    if !starts_with(line, prefix) {
        let mut message = String::from_str("Expected '");
        push_range(&mut message, prefix, 0, prefix.len());
        message.append("', got '");
        push_range(&mut message, line, 0, n);
        message.append("'");
        proof {
            assert(prefix@.subrange(0, prefix@.len() as int) =~= prefix@);
            assert(line@.subrange(0, n as int) =~= line@);
        }
        return Err(ParseError::InvalidAssignment(message));
    }
    let eq: usize = find_in(line, 0, n, '=');
    proof {
        assert(line@.subrange(0, n as int) =~= line@);
    }
    if eq >= n {
        let mut message = String::from_str("Missing value in assignment: '");
        push_range(&mut message, line, 0, n);
        message.append("'");
        return Err(ParseError::InvalidAssignment(message));
    }
    let (a, b) = trim_bounds(line, eq + 1, n);
    let text = copy_without(line, a, b, ';');
    proof {
        assert(line@.subrange(eq + 1, n as int) =~= line@.skip(eq + 1));
        assert(text@ == value_text(line@));
    }
    match parse_i32(&text) {
        None => {
            let mut message = String::from_str("Invalid number in '");
            push_range(&mut message, line, 0, n);
            message.append("': '");
            push_range(&mut message, &text, 0, text.len());
            message.append("'");
            proof {
                assert(text@.subrange(0, text@.len() as int) =~= text@);
            }
            Err(ParseError::InvalidNumber(message))
        },
        Some(value) => {
            let stop: usize = find_in(prefix, 0, prefix.len(), '=');
            let (from, to) = trim_bounds(prefix, 0, stop);
            let target = string_of(prefix, from, to);
            proof {
                assert(prefix@.subrange(0, prefix@.len() as int) =~= prefix@);
                assert(prefix@.subrange(0, stop as int) =~= prefix@.take(stop as int));
            }
            Ok(Stmt::Assign(target, Expr::Int(value)))
        },
    }
}

/// Reads `line` as an assignment that begins with `expected_prefix`.
///
/// Fails with `InvalidAssignment` where the line does not begin with the
/// prefix or holds no equals sign, and with `InvalidNumber` where its value is
/// no 32-bit integer literal. Otherwise gives the assignment of that integer
/// to the variable that the prefix names.
pub fn parse_assignment(line: &str, expected_prefix: &str) -> (r: Result<Stmt, ParseError>)
    ensures
        stmt_outcome(r) == assignment_of(line@, expected_prefix@),
{
    let line_chars = chars_of(line);
    let prefix_chars = chars_of(expected_prefix);
    parse_assignment_chars(&line_chars, &prefix_chars)
}

/// Builds the loop that stands for every loop construct.
pub fn make_canonical_loop() -> (stmt: Stmt)
    ensures
        stmt@ == canonical_loop(),
{
    proof {
        reveal_strlit("x");
        reveal_strlit("y");
        reveal_strlit(">");
        reveal_strlit("*");
        reveal_strlit("-");
        assert("x"@ =~= seq!['x']);
        assert("y"@ =~= seq!['y']);
        assert(">"@ =~= seq!['>']);
        assert("*"@ =~= seq!['*']);
        assert("-"@ =~= seq!['-']);
    }
    let product = Expr::binary("*", Expr::variable("y"), Expr::variable("x"));
    let difference = Expr::binary("-", Expr::variable("x"), Expr::integer(1));
    let condition = Expr::binary(">", Expr::variable("x"), Expr::integer(0));
    let first = Stmt::assign("y", product);
    let second = Stmt::assign("x", difference);
    let mut body: Vec<Stmt> = Vec::new();
    body.push(first);
    body.push(second);
    assert(stmt_views(body@) =~= seq![first@, second@]);
    Stmt::while_loop(condition, body)
}

/// Reads the lines `lines`, each given by its characters, as they stand.
pub fn parse_lines(lines: &Vec<Vec<char>>) -> (r: Result<Program, ParseError>)
    ensures
        outcome(r) == statements_from(rows(lines@), 0),
        r is Ok ==> stmts_well_formed(r->Ok_0@),
        r is Ok ==> r->Ok_0@.len() == recognized_from(rows(lines@), 0).len(),
{
    proof {
        if statements_from(rows(lines@), 0) is Ok {
            lemma_statements_well_formed(rows(lines@), 0);
            lemma_one_statement_per_recognized_line(rows(lines@), 0);
        }
    }
    let x_assign: Vec<char> = vec!['x', ' ', '='];
    let y_assign: Vec<char> = vec!['y', ' ', '='];
    let while_word: Vec<char> = vec!['w', 'h', 'i', 'l', 'e'];
    assert(x_assign@ =~= x_prefix());
    assert(y_assign@ =~= y_prefix());
    assert(while_word@ =~= while_prefix());
    let ghost all = rows(lines@);
    let n: usize = lines.len();
    let mut stmts: Vec<Stmt> = Vec::new();
    let mut i: usize = 0;
    proof {
        assert(stmt_views(stmts@) =~= Seq::<StmtView>::empty());
        if let Ok(rest) = statements_from(all, 0) {
            assert(stmt_views(stmts@) + rest =~= rest);
        }
    }
    while i < n
        invariant
            n == lines.len(),
            i <= n,
            all == rows(lines@),
            x_assign@ == x_prefix(),
            y_assign@ == y_prefix(),
            while_word@ == while_prefix(),
            statements_from(all, 0) == match statements_from(all, i as int) {
                Ok(rest) => Ok(stmt_views(stmts@) + rest),
                Err(e) => Err(e),
            },
        decreases n - i,
    {
        let line = &lines[i];
        let ghost before = stmt_views(stmts@);
        let ghost here = i as int;
        assert(all[here] == line@);
        if starts_with(line, &x_assign) {
            match parse_assignment_chars(line, &x_assign) {
                Err(e) => {
                    return Err(e);
                },
                Ok(stmt) => {
                    stmts.push(stmt);
                    i += 1;
                },
            }
        } else if starts_with(line, &y_assign) {
            match parse_assignment_chars(line, &y_assign) {
                Err(e) => {
                    return Err(e);
                },
                Ok(stmt) => {
                    stmts.push(stmt);
                    i += 1;
                },
            }
        } else if starts_with(line, &while_word) {
            stmts.push(make_canonical_loop());
            if n - i <= 5 {
                i = n;
            } else {
                i += 5;
            }
        } else {
            i += 1;
        }
        proof {
            let next = statements_from(all, i as int);
            if i - here >= 5 || i == n {
                assert(statements_from(all, here + 5) == next);
            }
            if stmts@.len() > before.len() {
                let added = stmts@.last();
                assert(stmt_views(stmts@) =~= before.push(added@));
                assert(statements_from(all, here) == followed_by(Ok(added@), next));
                if let Ok(rest) = next {
                    assert(stmt_views(stmts@) + rest =~= before + (seq![added@] + rest));
                }
            } else {
                assert(statements_from(all, here) == next);
            }
        }
    }
    assert(stmt_views(stmts@) + Seq::<StmtView>::empty() =~= stmt_views(stmts@));
    Ok(Program::new(stmts))
}

/// Reads the source text `input`: the program that its lines make, in their
/// order, or the first failure, after which no further line is looked at.
///
/// The program holds one statement for each line that the reader acts on, and
/// none for any other line.
pub fn parse_program(input: &str) -> (r: Result<Program, ParseError>)
    ensures
        outcome(r) == program_of(input@),
        r is Ok ==> stmts_well_formed(r->Ok_0@),
        r is Ok ==> r->Ok_0@.len() == recognized_from(significant_lines(input@), 0).len(),
{
    let chars = chars_of(input);
    let lines = split_lines(&chars);
    parse_lines(&lines)
}

} // verus!
