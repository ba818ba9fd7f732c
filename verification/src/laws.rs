//! What holds of the reader on every text, proved from the definitions that
//! its contracts are stated with.

use crate::ast::{ExprView, ParseError, ParseErrorView, Program, StmtView};
use crate::reader::{
    canonical_loop, equals_sign, is_recognized, outcome, program_of, recognized_from, span_of,
    statement_of, statements_from, target_of, x_prefix, y_prefix,
};
use crate::text::{
    all_space, find, is_space, leading_space, lemma_find, lemma_leading_space,
    lemma_trailing_space, newline, significant_lines, trailing_space, trim,
};
use vstd::prelude::*;

verus! {

/// The positions that `recognized_from` gives lie at or after `i` and within
/// the lines, each is that of a recognized line, and they increase.
pub proof fn lemma_recognized_positions(lines: Seq<Seq<char>>, i: int)
    requires
        0 <= i,
    ensures
        forall|k: int|
            0 <= k < recognized_from(lines, i).len() ==> i <= #[trigger] recognized_from(
                lines,
                i,
            )[k] < lines.len() && is_recognized(lines[recognized_from(lines, i)[k]]),
        forall|j: int, k: int|
            0 <= j < k < recognized_from(lines, i).len() ==> recognized_from(lines, i)[j]
                < recognized_from(lines, i)[k],
    decreases
        (if i < lines.len() {
            lines.len() - i
        } else {
            0
        }),
{
    let here = recognized_from(lines, i);
    if i < lines.len() {
        if is_recognized(lines[i]) {
            let there = recognized_from(lines, i + span_of(lines[i]));
            lemma_recognized_positions(lines, i + span_of(lines[i]));
            assert(here[0] == i);
            assert forall|k: int| 0 <= k < here.len() implies i <= #[trigger] here[k] < lines.len()
                && is_recognized(lines[here[k]]) by {
                if k > 0 {
                    assert(here[k] == there[k - 1]);
                }
            }
            assert forall|j: int, k: int| 0 <= j < k < here.len() implies here[j] < here[k] by {
                assert(here[k] == there[k - 1]);
                if j > 0 {
                    assert(here[j] == there[j - 1]);
                }
            }
        } else {
            lemma_recognized_positions(lines, i + 1);
        }
    }
}

/// Where reading fails, the failure is that of the first line, among those
/// that the reader acts on, which cannot be read: every such line before it
/// can.
pub proof fn lemma_first_failure(lines: Seq<Seq<char>>, i: int)
    requires
        0 <= i,
        statements_from(lines, i) is Err,
    ensures
        exists|k: int|
            0 <= k < recognized_from(lines, i).len() && statement_of(
                lines[#[trigger] recognized_from(lines, i)[k]],
            ) == Err::<StmtView, ParseErrorView>(statements_from(lines, i)->Err_0) && forall|j: int|
                0 <= j < k ==> statement_of(lines[#[trigger] recognized_from(lines, i)[j]]) is Ok,
    decreases
        (if i < lines.len() {
            lines.len() - i
        } else {
            0
        }),
{
    let here = recognized_from(lines, i);
    if i < lines.len() {
        if is_recognized(lines[i]) {
            if statement_of(lines[i]) is Err {
                assert(here[0] == i);
            } else {
                let next = i + span_of(lines[i]);
                lemma_first_failure(lines, next);
                let there = recognized_from(lines, next);
                let k = choose|k: int|
                    0 <= k < there.len() && statement_of(lines[#[trigger] there[k]]) == Err::<
                        StmtView,
                        ParseErrorView,
                    >(statements_from(lines, next)->Err_0) && forall|j: int|
                        0 <= j < k ==> statement_of(lines[#[trigger] there[j]]) is Ok;
                assert(here[k + 1] == there[k]);
                assert forall|j: int| 0 <= j < k + 1 implies statement_of(
                    lines[#[trigger] here[j]],
                ) is Ok by {
                    if j > 0 {
                        assert(here[j] == there[j - 1]);
                    }
                }
            }
        } else {
            lemma_first_failure(lines, i + 1);
        }
    }
}

/// The prefix of an assignment to `x` names the variable `x`, and that of an
/// assignment to `y` the variable `y`.
pub proof fn lemma_targets_of_the_prefixes()
    ensures
        target_of(x_prefix()) == seq!['x'],
        target_of(y_prefix()) == seq!['y'],
{
    lemma_target_of_prefix('x');
    lemma_target_of_prefix('y');
}

/// A prefix made of a letter that is no white space and no equals sign, a
/// blank and an equals sign names the variable of that letter.
pub proof fn lemma_target_of_prefix(name: char)
    requires
        !is_space(name),
        name != equals_sign(),
    ensures
        target_of(seq![name, ' ', '=']) == seq![name],
{
    let prefix = seq![name, ' ', '='];
    lemma_find(prefix, equals_sign(), 2);
    let before = prefix.take(2);
    assert(is_space(' '));
    lemma_leading_space(before, 0);
    lemma_trailing_space(before, 1);
    assert(before.subrange(0, 1) =~= seq![name]);
}

/// A line that the reader acts on is read as an assignment of an integer
/// literal to `x` or to `y`, or as the canonical loop, or it fails as an
/// invalid number: a line that the reader takes for an assignment begins with
/// its prefix and holds an equals sign, so it never fails as an invalid
/// assignment.
pub proof fn lemma_statement_shapes(line: Seq<char>)
    requires
        is_recognized(line),
    ensures
        match statement_of(line) {
            Ok(StmtView::Assign(target, ExprView::Int(_))) => target == seq!['x'] || target
                == seq!['y'],
            Ok(stmt) => stmt == canonical_loop(),
            Err(e) => e is InvalidNumber,
        },
{
    lemma_targets_of_the_prefixes();
    lemma_find_bounds(line, equals_sign());
    if x_prefix().is_prefix_of(line) {
        assert(line[2] == x_prefix()[2]);
    } else if y_prefix().is_prefix_of(line) {
        assert(line[2] == y_prefix()[2]);
    }
}

/// Reading a text never fails as an invalid assignment: a line without the
/// prefix of an assignment is passed over, and a failure is always an
/// invalid number.
pub proof fn lemma_reading_fails_on_numbers_only(source: Seq<char>)
    requires
        program_of(source) is Err,
    ensures
        program_of(source)->Err_0 is InvalidNumber,
{
    let lines = significant_lines(source);
    lemma_first_failure(lines, 0);
    lemma_recognized_positions(lines, 0);
    let here = recognized_from(lines, 0);
    let k = choose|k: int|
        0 <= k < here.len() && statement_of(lines[#[trigger] here[k]]) == Err::<
            StmtView,
            ParseErrorView,
        >(statements_from(lines, 0)->Err_0);
    lemma_statement_shapes(lines[here[k]]);
}

/// Reading is a function of the text: two readings of one text have the same
/// value, be it a program or a failure.
pub proof fn lemma_reading_is_a_function(
    source: Seq<char>,
    first: Result<Program, ParseError>,
    second: Result<Program, ParseError>,
)
    requires
        outcome(first) == program_of(source),
        outcome(second) == program_of(source),
    ensures
        outcome(first) == outcome(second),
        first is Ok <==> second is Ok,
        first is Ok ==> first->Ok_0@ == second->Ok_0@,
        first is Err ==> first->Err_0@ == second->Err_0@,
{
}

/// Two texts, one on the lines after the other.
pub open spec fn joined(a: Seq<char>, b: Seq<char>) -> Seq<char> {
    a + seq![newline()] + b
}

/// `find` gives a position within the text or its length; no `c` stands
/// before that position, and one stands at it unless the text ends there.
pub proof fn lemma_find_bounds(s: Seq<char>, c: char)
    ensures
        0 <= find(s, c) <= s.len(),
        forall|i: int| 0 <= i < find(s, c) ==> s[i] != c,
        find(s, c) < s.len() ==> s[find(s, c)] == c,
    decreases s.len(),
{
    if s.len() > 0 && s[0] != c {
        let rest = s.drop_first();
        lemma_find_bounds(rest, c);
        assert forall|i: int| 0 <= i < find(s, c) implies s[i] != c by {
            if i > 0 {
                assert(s[i] == rest[i - 1]);
            }
        }
        if find(s, c) < s.len() {
            assert(s[find(s, c)] == rest[find(rest, c)]);
        }
    }
}

/// The first `c` of two texts in a row is the first one of the first text,
/// and where that holds none, the first one of the second.
pub proof fn lemma_find_in_concat(a: Seq<char>, b: Seq<char>, c: char)
    ensures
        find(a + b, c) == if find(a, c) < a.len() {
            find(a, c)
        } else {
            a.len() + find(b, c)
        },
{
    lemma_find_bounds(a, c);
    lemma_find_bounds(b, c);
    if find(a, c) < a.len() {
        lemma_find(a + b, c, find(a, c));
    } else {
        lemma_find(a + b, c, a.len() + find(b, c));
    }
}

/// The white space that a text begins with ends within the text, is white
/// space throughout, and is followed by a character that is none.
pub proof fn lemma_leading_space_bounds(s: Seq<char>)
    ensures
        0 <= leading_space(s) <= s.len(),
        forall|i: int| 0 <= i < leading_space(s) ==> is_space(s[i]),
        leading_space(s) < s.len() ==> !is_space(s[leading_space(s)]),
    decreases s.len(),
{
    if s.len() > 0 && is_space(s[0]) {
        let rest = s.drop_first();
        lemma_leading_space_bounds(rest);
        assert forall|i: int| 0 <= i < leading_space(s) implies is_space(s[i]) by {
            if i > 0 {
                assert(s[i] == rest[i - 1]);
                assert(is_space(rest[i - 1]));
            }
        }
        if leading_space(s) < s.len() {
            assert(s[leading_space(s)] == rest[leading_space(rest)]);
            assert(!is_space(rest[leading_space(rest)]));
        }
    }
}

/// The white space that a text ends with begins within the text, is white
/// space throughout, and is preceded by a character that is none.
pub proof fn lemma_trailing_space_bounds(s: Seq<char>)
    ensures
        0 <= trailing_space(s) <= s.len(),
        forall|i: int| s.len() - trailing_space(s) <= i < s.len() ==> is_space(s[i]),
        trailing_space(s) < s.len() ==> !is_space(s[s.len() - trailing_space(s) - 1]),
    decreases s.len(),
{
    if s.len() > 0 && is_space(s[s.len() - 1]) {
        let rest = s.drop_last();
        lemma_trailing_space_bounds(rest);
        assert forall|i: int| s.len() - trailing_space(s) <= i < s.len() implies is_space(s[i]) by {
            if i < s.len() - 1 {
                assert(s[i] == rest[i]);
                assert(is_space(rest[i]));
            }
        }
        if trailing_space(s) < s.len() {
            let at = s.len() - trailing_space(s) - 1;
            assert(s[at] == rest[at]);
            assert(!is_space(rest[rest.len() - trailing_space(rest) - 1]));
        }
    }
}

/// Trimming a text of white space alone leaves nothing.
pub proof fn lemma_trim_of_space(s: Seq<char>)
    requires
        all_space(s),
    ensures
        trim(s) == Seq::<char>::empty(),
{
    lemma_leading_space(s, s.len() as int);
}

/// White space before and after a text does not change what trimming leaves
/// of it.
pub proof fn lemma_trim_ignores_space_around(left: Seq<char>, body: Seq<char>, right: Seq<char>)
    requires
        all_space(left),
        all_space(right),
    ensures
        trim(left + body + right) == trim(body),
{
    let whole = left + body + right;
    lemma_leading_space_bounds(body);
    lemma_trailing_space_bounds(body);
    let p = leading_space(body);
    let q = trailing_space(body);
    if p == body.len() {
        assert forall|i: int| 0 <= i < whole.len() implies is_space(whole[i]) by {
            if left.len() <= i < left.len() + body.len() {
                assert(is_space(body[i - left.len()]));
            }
        }
        lemma_leading_space(whole, whole.len() as int);
    } else {
        assert(!is_space(body[p]));
        if q == body.len() {
            assert(is_space(body[p]));
        }
        assert forall|i: int| 0 <= i < left.len() + p implies is_space(whole[i]) by {
            if left.len() <= i {
                assert(is_space(body[i - left.len()]));
            }
        }
        assert(whole[left.len() + p] == body[p]);
        lemma_leading_space(whole, left.len() + p);
        assert forall|i: int| whole.len() - (right.len() + q) <= i < whole.len() implies is_space(
            whole[i],
        ) by {
            if i < left.len() + body.len() {
                assert(is_space(body[i - left.len()]));
            }
        }
        assert(whole[whole.len() - (right.len() + q) - 1] == body[body.len() - q - 1]);
        assert(!is_space(body[body.len() - q - 1]));
        lemma_trailing_space(whole, right.len() + q);
        assert(whole.subrange(left.len() + p, whole.len() - (right.len() + q)) =~= body.subrange(
            p,
            body.len() - q,
        ));
    }
}

/// The significant lines of two texts, one on the lines after the other, are
/// those of the first followed by those of the second.
pub proof fn lemma_lines_of_joined(a: Seq<char>, b: Seq<char>)
    ensures
        significant_lines(joined(a, b)) == significant_lines(a) + significant_lines(b),
    decreases a.len(),
{
    let s = joined(a, b);
    let k = find(a, newline());
    lemma_find_bounds(a, newline());
    lemma_find(s, newline(), k);
    assert(s.take(k) =~= a.take(k));
    if k == a.len() {
        assert(s.skip(k + 1) =~= b);
        assert(significant_lines(s) =~= significant_lines(a) + significant_lines(b));
    } else {
        let rest = a.skip(k + 1);
        assert(s.skip(k + 1) =~= joined(rest, b));
        lemma_lines_of_joined(rest, b);
        assert(significant_lines(s) =~= significant_lines(a) + significant_lines(b));
    }
}

/// A text of white space alone has no significant line.
pub proof fn lemma_lines_of_space(w: Seq<char>)
    requires
        all_space(w),
    ensures
        significant_lines(w) == Seq::<Seq<char>>::empty(),
    decreases w.len(),
{
    let k = find(w, newline());
    lemma_find_bounds(w, newline());
    lemma_trim_of_space(w.take(k));
    if k < w.len() {
        lemma_lines_of_space(w.skip(k + 1));
    }
}

/// White space before a text, line breaks among it or not, does not change
/// its significant lines.
pub proof fn lemma_lines_ignore_space_before(left: Seq<char>, body: Seq<char>)
    requires
        all_space(left),
    ensures
        significant_lines(left + body) == significant_lines(body),
    decreases left.len(),
{
    let s = left + body;
    let k = find(left, newline());
    lemma_find_bounds(left, newline());
    lemma_find_bounds(body, newline());
    lemma_find_in_concat(left, body, newline());
    if k < left.len() {
        assert(s.take(k) =~= left.take(k));
        lemma_trim_of_space(left.take(k));
        assert(s.skip(k + 1) =~= left.skip(k + 1) + body);
        lemma_lines_ignore_space_before(left.skip(k + 1), body);
    } else {
        let j = find(body, newline());
        assert(s.take(k + j) =~= left + body.take(j) + Seq::<char>::empty());
        lemma_trim_ignores_space_around(left, body.take(j), Seq::empty());
        if j < body.len() {
            assert(s.skip(k + j + 1) =~= body.skip(j + 1));
        }
    }
}

/// White space after a text, line breaks among it or not, does not change its
/// significant lines.
pub proof fn lemma_lines_ignore_space_after(body: Seq<char>, right: Seq<char>)
    requires
        all_space(right),
    ensures
        significant_lines(body + right) == significant_lines(body),
    decreases body.len(),
{
    let s = body + right;
    let k = find(body, newline());
    lemma_find_bounds(body, newline());
    lemma_find_bounds(right, newline());
    lemma_find_in_concat(body, right, newline());
    if k < body.len() {
        assert(s.take(k) =~= body.take(k));
        assert(s.skip(k + 1) =~= body.skip(k + 1) + right);
        lemma_lines_ignore_space_after(body.skip(k + 1), right);
    } else {
        let j = find(right, newline());
        assert(body.take(k) =~= body);
        assert(s.take(k + j) =~= Seq::<char>::empty() + body + right.take(j));
        lemma_trim_ignores_space_around(Seq::empty(), body, right.take(j));
        if j < right.len() {
            assert(s.skip(k + j + 1) =~= right.skip(j + 1));
            lemma_lines_of_space(right.skip(j + 1));
        }
    }
}

/// White space around a text never changes what it is read as.
pub proof fn lemma_space_around_is_ignored(left: Seq<char>, body: Seq<char>, right: Seq<char>)
    requires
        all_space(left),
        all_space(right),
    ensures
        significant_lines(left + body + right) == significant_lines(body),
        program_of(left + body + right) == program_of(body),
{
    lemma_lines_ignore_space_after(left + body, right);
    lemma_lines_ignore_space_before(left, body);
}

/// White space around any part of a text that stands on lines of its own,
/// such as a single line, never changes what the text is read as.
pub proof fn lemma_padding_is_ignored(
    before: Seq<char>,
    left: Seq<char>,
    body: Seq<char>,
    right: Seq<char>,
    after: Seq<char>,
)
    requires
        all_space(left),
        all_space(right),
    ensures
        program_of(joined(before, joined(left + body + right, after))) == program_of(
            joined(before, joined(body, after)),
        ),
{
    lemma_space_around_is_ignored(left, body, right);
    lemma_lines_of_joined(left + body + right, after);
    lemma_lines_of_joined(body, after);
    lemma_lines_of_joined(before, joined(left + body + right, after));
    lemma_lines_of_joined(before, joined(body, after));
}

/// A blank line never changes what a text is read as, be it between other
/// lines, the first line or the last.
pub proof fn lemma_blank_line_is_ignored(before: Seq<char>, blank: Seq<char>, after: Seq<char>)
    requires
        all_space(blank),
    ensures
        program_of(joined(before, joined(blank, after))) == program_of(joined(before, after)),
        program_of(joined(blank, after)) == program_of(after),
        program_of(joined(before, blank)) == program_of(before),
{
    lemma_lines_of_space(blank);
    lemma_lines_of_joined(blank, after);
    lemma_lines_of_joined(before, blank);
    lemma_lines_of_joined(before, joined(blank, after));
    lemma_lines_of_joined(before, after);
    assert(significant_lines(blank) + significant_lines(after) =~= significant_lines(after));
    assert(significant_lines(before) + significant_lines(blank) =~= significant_lines(before));
}

} // verus!
