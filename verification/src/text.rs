//! Text as sequences of characters: white space, trimming, searching, and the
//! division of a source text into its significant lines.

use vstd::prelude::*;

verus! {

/// The line separator.
pub open spec fn newline() -> char {
    '\n'
}

/// Whether `c` is a white space character (the Unicode property White_Space).
pub open spec fn is_space(c: char) -> bool {
    let n = c as u32;
    ||| 0x09 <= n <= 0x0D
    ||| n == 0x20
    ||| n == 0x85
    ||| n == 0xA0
    ||| n == 0x1680
    ||| 0x2000 <= n <= 0x200A
    ||| n == 0x2028
    ||| n == 0x2029
    ||| n == 0x202F
    ||| n == 0x205F
    ||| n == 0x3000
}

/// Whether every character of `s` is white space.
pub open spec fn all_space(s: Seq<char>) -> bool {
    forall|i: int| 0 <= i < s.len() ==> is_space(#[trigger] s[i])
}

/// The number of white space characters that `s` begins with.
pub open spec fn leading_space(s: Seq<char>) -> int
    decreases s.len(),
{
    if s.len() > 0 && is_space(s[0]) {
        1 + leading_space(s.drop_first())
    } else {
        0
    }
}

/// The number of white space characters that `s` ends with.
pub open spec fn trailing_space(s: Seq<char>) -> int
    decreases s.len(),
{
    if s.len() > 0 && is_space(s.last()) {
        1 + trailing_space(s.drop_last())
    } else {
        0
    }
}

/// `s` without the white space at its two ends.
pub open spec fn trim(s: Seq<char>) -> Seq<char> {
    if leading_space(s) >= s.len() {
        Seq::empty()
    } else {
        s.subrange(leading_space(s), s.len() - trailing_space(s))
    }
}

/// The index of the first `c` in `s`, or the length of `s` where it holds none.
pub open spec fn find(s: Seq<char>, c: char) -> int
    decreases s.len(),
{
    if s.len() == 0 || s[0] == c {
        0
    } else {
        1 + find(s.drop_first(), c)
    }
}

/// The lines of `s` that are left once each line has been trimmed and the
/// blank ones have been discarded, in their order.
pub open spec fn significant_lines(s: Seq<char>) -> Seq<Seq<char>>
    decreases s.len(),
{
    let k = find(s, newline());
    let head = trim(s.take(k));
    let rest = if 0 <= k < s.len() {
        significant_lines(s.skip(k + 1))
    } else {
        Seq::empty()
    };
    if head.len() > 0 {
        seq![head] + rest
    } else {
        rest
    }
}

/// `s` without any occurrence of `c`.
pub open spec fn without(s: Seq<char>, c: char) -> Seq<char>
    decreases s.len(),
{
    if s.len() == 0 {
        s
    } else if s.last() == c {
        without(s.drop_last(), c)
    } else {
        without(s.drop_last(), c).push(s.last())
    }
}

/// The contents of a list of lines.
pub open spec fn rows(lines: Seq<Vec<char>>) -> Seq<Seq<char>> {
    lines.map_values(|l: Vec<char>| l@)
}

/// `leading_space` is the one index before which all is white space and at
/// which white space ends.
pub proof fn lemma_leading_space(s: Seq<char>, k: int)
    requires
        0 <= k <= s.len(),
        forall|i: int| 0 <= i < k ==> is_space(s[i]),
        k < s.len() ==> !is_space(s[k]),
    ensures
        leading_space(s) == k,
    decreases k,
{
    if k > 0 {
        lemma_leading_space(s.drop_first(), k - 1);
    }
}

/// `trailing_space` is the one count of final characters that are all white
/// space and before which white space ends.
pub proof fn lemma_trailing_space(s: Seq<char>, k: int)
    requires
        0 <= k <= s.len(),
        forall|i: int| s.len() - k <= i < s.len() ==> is_space(s[i]),
        k < s.len() ==> !is_space(s[s.len() - k - 1]),
    ensures
        trailing_space(s) == k,
    decreases k,
{
    if k > 0 {
        lemma_trailing_space(s.drop_last(), k - 1);
    }
}

/// `find` is the one index before which no `c` stands and at which one does,
/// or the text ends.
pub proof fn lemma_find(s: Seq<char>, c: char, k: int)
    requires
        0 <= k <= s.len(),
        forall|i: int| 0 <= i < k ==> s[i] != c,
        k < s.len() ==> s[k] == c,
    ensures
        find(s, c) == k,
    decreases k,
{
    if k > 0 {
        lemma_find(s.drop_first(), c, k - 1);
    }
}

/// `String::push` of the standard library: the string afterwards holds the
/// characters it held before, followed by `c`.
pub assume_specification[ String::push ](s: &mut String, c: char)
    ensures
        final(s)@ == old(s)@.push(c),
;

/// Tells whether `c` is a white space character.
pub fn is_whitespace(c: char) -> (b: bool)
    ensures
        b == is_space(c),
{
    let n: u32 = c as u32;
    (0x09 <= n && n <= 0x0D) || n == 0x20 || n == 0x85 || n == 0xA0 || n == 0x1680 || (0x2000 <= n
        && n <= 0x200A) || n == 0x2028 || n == 0x2029 || n == 0x202F || n == 0x205F || n == 0x3000
}

/// The characters of `s`, in order.
pub fn chars_of(s: &str) -> (v: Vec<char>)
    ensures
        v@ == s@,
{
    let mut v: Vec<char> = Vec::new();
    for c in it: s.chars()
        invariant
            it.seq() == s@,
            v@ == it.seq().take(it.index() as int),
    {
        v.push(c);
        assert(it.seq().take(it.index() + 1) =~= it.seq().take(it.index() as int).push(c));
    }
    assert(s@.take(s@.len() as int) =~= s@);
    v
}

/// The position of the first `c` at or after `from` and before `to`, or `to`
/// where there is none.
pub fn find_in(s: &Vec<char>, from: usize, to: usize, c: char) -> (k: usize)
    requires
        from <= to <= s.len(),
    ensures
        from <= k <= to,
        k - from == find(s@.subrange(from as int, to as int), c),
{
    let mut k: usize = from;
    while k < to && s[k] != c
        invariant
            from <= k <= to <= s.len(),
            forall|i: int| from <= i < k ==> s[i] != c,
        decreases to - k,
    {
        k += 1;
    }
    proof {
        lemma_find(s@.subrange(from as int, to as int), c, k - from);
    }
    k
}

/// The bounds of what is left of `s[from..to]` once it has been trimmed.
pub fn trim_bounds(s: &Vec<char>, from: usize, to: usize) -> (r: (usize, usize))
    requires
        from <= to <= s.len(),
    ensures
        from <= r.0 <= r.1 <= to,
        s@.subrange(r.0 as int, r.1 as int) == trim(s@.subrange(from as int, to as int)),
{
    let ghost part = s@.subrange(from as int, to as int);
    let mut a: usize = from;
    while a < to && is_whitespace(s[a])
        invariant
            from <= a <= to <= s.len(),
            forall|i: int| from <= i < a ==> is_space(s[i]),
        decreases to - a,
    {
        a += 1;
    }
    proof {
        lemma_leading_space(part, a - from);
    }
    if a == to {
        assert(s@.subrange(a as int, a as int) =~= Seq::<char>::empty());
        return (a, a);
    }
    let mut b: usize = to;
    while b > a + 1 && is_whitespace(s[b - 1])
        invariant
            from <= a < b <= to <= s.len(),
            !is_space(s[a as int]),
            forall|i: int| b <= i < to ==> is_space(s[i]),
        decreases b,
    {
        b -= 1;
    }
    proof {
        lemma_trailing_space(part, to - b);
        assert(s@.subrange(a as int, b as int) =~= part.subrange(a - from, part.len() - (to - b)));
    }
    (a, b)
}

/// A copy of `s[from..to]`.
pub fn copy_range(s: &Vec<char>, from: usize, to: usize) -> (v: Vec<char>)
    requires
        from <= to <= s.len(),
    ensures
        v@ == s@.subrange(from as int, to as int),
{
    let mut v: Vec<char> = Vec::new();
    let mut i: usize = from;
    while i < to
        invariant
            from <= i <= to <= s.len(),
            v@ == s@.subrange(from as int, i as int),
        decreases to - i,
    {
        v.push(s[i]);
        i += 1;
        assert(s@.subrange(from as int, i as int) =~= s@.subrange(from as int, i - 1).push(
            s[i - 1],
        ));
    }
    v
}

/// A copy of `s[from..to]` that leaves out every `c`.
pub fn copy_without(s: &Vec<char>, from: usize, to: usize, c: char) -> (v: Vec<char>)
    requires
        from <= to <= s.len(),
    ensures
        v@ == without(s@.subrange(from as int, to as int), c),
{
    let mut v: Vec<char> = Vec::new();
    let mut i: usize = from;
    while i < to
        invariant
            from <= i <= to <= s.len(),
            v@ == without(s@.subrange(from as int, i as int), c),
        decreases to - i,
    {
        if s[i] != c {
            v.push(s[i]);
        }
        i += 1;
        assert(s@.subrange(from as int, i as int).drop_last() =~= s@.subrange(
            from as int,
            i - 1,
        ));
    }
    v
}

/// Appends the characters `s[from..to]` to `out`.
pub fn push_range(out: &mut String, s: &Vec<char>, from: usize, to: usize)
    requires
        from <= to <= s.len(),
    ensures
        final(out)@ == old(out)@ + s@.subrange(from as int, to as int),
{
    let mut i: usize = from;
    assert(out@ =~= old(out)@ + s@.subrange(from as int, from as int));
    while i < to
        invariant
            from <= i <= to <= s.len(),
            out@ == old(out)@ + s@.subrange(from as int, i as int),
        decreases to - i,
    {
        out.push(s[i]);
        i += 1;
        assert(out@ =~= old(out)@ + s@.subrange(from as int, i as int));
    }
}

/// The string made of the characters `s[from..to]`.
pub fn string_of(s: &Vec<char>, from: usize, to: usize) -> (out: String)
    requires
        from <= to <= s.len(),
    ensures
        out@ == s@.subrange(from as int, to as int),
{
    let mut out = String::new();
    push_range(&mut out, s, from, to);
    assert(out@ =~= s@.subrange(from as int, to as int));
    out
}

/// Whether `s` begins with `prefix`.
pub fn starts_with(s: &Vec<char>, prefix: &Vec<char>) -> (b: bool)
    ensures
        b == prefix@.is_prefix_of(s@),
{
    if prefix.len() > s.len() {
        return false;
    }
    let mut i: usize = 0;
    while i < prefix.len()
        invariant
            i <= prefix.len() <= s.len(),
            forall|j: int| 0 <= j < i ==> s[j] == prefix[j],
        decreases prefix.len() - i,
    {
        if s[i] != prefix[i] {
            assert(s@.subrange(0, prefix@.len() as int)[i as int] != prefix@[i as int]);
            return false;
        }
        i += 1;
    }
    assert(s@.subrange(0, prefix@.len() as int) =~= prefix@);
    true
}

/// The significant lines of a text: each line trimmed, blank lines left out.
pub fn split_lines(s: &Vec<char>) -> (lines: Vec<Vec<char>>)
    ensures
        rows(lines@) == significant_lines(s@),
{
    let n: usize = s.len();
    let mut lines: Vec<Vec<char>> = Vec::new();
    let mut pos: usize = 0;
    let mut done: bool = false;
    assert(s@.skip(0) =~= s@);
    assert(rows(lines@) + significant_lines(s@) =~= significant_lines(s@));
    while !done
        invariant
            n == s.len(),
            pos <= n,
            !done ==> rows(lines@) + significant_lines(s@.skip(pos as int)) == significant_lines(
                s@,
            ),
            done ==> rows(lines@) == significant_lines(s@),
        decreases n - pos + (if done { 0int } else { 1int }),
    {
        let k: usize = find_in(s, pos, n, '\n');
        let (a, b) = trim_bounds(s, pos, k);
        let ghost tail = s@.skip(pos as int);
        let ghost before = rows(lines@);
        proof {
            assert(s@.subrange(pos as int, n as int) =~= tail);
            assert(tail.take(k - pos) =~= s@.subrange(pos as int, k as int));
            if k < n {
                assert(tail.skip(k - pos + 1) =~= s@.skip(k + 1));
            }
        }
        if a < b {
            let line = copy_range(s, a, b);
            lines.push(line);
            assert(rows(lines@) =~= before + seq![line@]);
        }
        if k < n {
            pos = k + 1;
            assert(rows(lines@) + significant_lines(s@.skip(pos as int)) =~= before
                + significant_lines(tail));
        } else {
            done = true;
            assert(rows(lines@) =~= before + significant_lines(tail));
        }
    }
    lines
}

} // verus!
