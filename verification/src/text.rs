//! Character-level helpers: whitespace, trimming and comparison of texts.

use vstd::prelude::*;

verus! {

/// The characters that count as blank inside a line and around a tag's name.
pub open spec fn is_blank(c: char) -> bool {
    c == ' ' || c == '\t' || c == '\r' || c == '\n'
}

/// Executable test for a blank character.
pub fn blank(c: char) -> (r: bool)
    ensures
        r == is_blank(c),
{
    c == ' ' || c == '\t' || c == '\r' || c == '\n'
}

/// The length of the run of blank characters of `s` that starts at `i`.
pub open spec fn blank_run(s: Seq<char>, i: int) -> int
    decreases s.len() - i,
{
    if 0 <= i < s.len() && is_blank(s[i]) {
        1 + blank_run(s, i + 1)
    } else {
        0
    }
}

/// The length of the run of blank characters of `s` that ends just before `j`.
pub open spec fn blank_run_back(s: Seq<char>, j: int) -> int
    decreases j,
{
    if 0 < j <= s.len() && is_blank(s[j - 1]) {
        1 + blank_run_back(s, j - 1)
    } else {
        0
    }
}

/// `s` without its leading and trailing blank characters.
pub open spec fn trimmed(s: Seq<char>) -> Seq<char> {
    let a = blank_run(s, 0);
    if a >= s.len() {
        Seq::empty()
    } else {
        s.subrange(a, s.len() - blank_run_back(s, s.len() as int))
    }
}

/// Blanks that end before `j` and come after a character that is no blank
/// do not reach back to it.
pub proof fn lemma_blank_run_back_bounds(s: Seq<char>, j: int, stop: int)
    requires
        0 <= stop < j <= s.len(),
        !is_blank(s[stop]),
    ensures
        0 <= blank_run_back(s, j) <= j - stop - 1,
    decreases j,
{
    if is_blank(s[j - 1]) {
        lemma_blank_run_back_bounds(s, j - 1, stop);
    }
}

/// Copies the part of `s` between `from` and `to`.
pub fn slice_of(s: &Vec<char>, from: usize, to: usize) -> (r: Vec<char>)
    requires
        from <= to <= s.len(),
    ensures
        r@ == s@.subrange(from as int, to as int),
{
    let mut r: Vec<char> = Vec::new();
    let mut i: usize = from;
    while i < to
        invariant
            from <= i <= to <= s.len(),
            r@ == s@.subrange(from as int, i as int),
        decreases to - i,
    {
        r.push(s[i]);
        i += 1;
        assert(r@ =~= s@.subrange(from as int, i as int));
    }
    r
}

/// A copy of `s`.
pub fn copy_text(s: &Vec<char>) -> (r: Vec<char>)
    ensures
        r@ == s@,
{
    let r = slice_of(s, 0, s.len());
    assert(s@.subrange(0, s@.len() as int) =~= s@);
    r
}

/// The characters of `s`, in their order.
pub fn chars_of(s: &str) -> (r: Vec<char>)
    ensures
        r@ == s@,
{
    let mut r: Vec<char> = Vec::new();
    for c in it: s.chars()
        invariant
            it.seq() == s@,
            r@ == it.seq().take(it.index() as int),
    {
        r.push(c);
        assert(r@ =~= it.seq().take(it.index() + 1));
    }
    assert(r@ =~= s@);
    r
}

/// `String::push` of the standard library: puts the character `c` at the
/// end of `s` and leaves the rest of `s` as it was.
#[verifier::external_body]
fn push_char(s: &mut String, c: char)
    ensures
        final(s)@ == old(s)@.push(c),
{
    s.push(c)
}

/// The string made of the characters of `v`.
pub fn text_of(v: &Vec<char>) -> (r: String)
    ensures
        r@ == v@,
{
    let mut r = String::new();
    let mut i: usize = 0;
    while i < v.len()
        invariant
            i <= v@.len(),
            r@ == v@.subrange(0, i as int),
        decreases v@.len() - i,
    {
        push_char(&mut r, v[i]);
        i += 1;
        assert(r@ =~= v@.subrange(0, i as int));
    }
    assert(v@.subrange(0, v@.len() as int) =~= v@);
    r
}

/// Removes the blank characters at both ends of `s`.
pub fn trim(s: &Vec<char>) -> (r: Vec<char>)
    ensures
        r@ == trimmed(s@),
{
    let n: usize = s.len();
    let mut a: usize = 0;
    while a < n && blank(s[a])
        invariant
            a <= n == s.len(),
            a + blank_run(s@, a as int) == blank_run(s@, 0),
        decreases n - a,
    {
        a += 1;
    }
    if a >= n {
        return Vec::new();
    }
    let mut b: usize = n;
    proof {
        lemma_blank_run_back_bounds(s@, n as int, a as int);
    }
    while b > a + 1 && blank(s[b - 1])
        invariant
            a < b <= n == s.len(),
            !is_blank(s@[a as int]),
            (n - b) + blank_run_back(s@, b as int) == blank_run_back(s@, n as int),
        decreases b,
    {
        b -= 1;
    }
    proof {
        if b == a + 1 {
            assert(blank_run_back(s@, a as int + 1) == 0);
        }
    }
    slice_of(s, a, b)
}

/// Tells whether two texts hold the same characters.
pub fn same_text(a: &Vec<char>, b: &Vec<char>) -> (r: bool)
    ensures
        r == (a@ == b@),
{
    if a.len() != b.len() {
        return false;
    }
    let mut i: usize = 0;
    while i < a.len()
        invariant
            i <= a.len() == b.len(),
            a@.subrange(0, i as int) == b@.subrange(0, i as int),
        decreases a.len() - i,
    {
        if a[i] != b[i] {
            return false;
        }
        i += 1;
        assert(a@.subrange(0, i as int) =~= a@.subrange(0, i - 1).push(a@[i - 1]));
        assert(b@.subrange(0, i as int) =~= b@.subrange(0, i - 1).push(b@[i - 1]));
    }
    assert(a@ =~= a@.subrange(0, a.len() as int));
    assert(b@ =~= b@.subrange(0, b.len() as int));
    true
}

/// Appends the characters of `extra` to `buf`.
pub fn append_text(buf: &mut Vec<char>, extra: &Vec<char>, upto: usize)
    requires
        upto <= extra.len(),
    ensures
        final(buf)@ == old(buf)@ + extra@.subrange(0, upto as int),
{
    let mut i: usize = 0;
    while i < upto
        invariant
            i <= upto <= extra.len(),
            buf@ == old(buf)@ + extra@.subrange(0, i as int),
        decreases upto - i,
    {
        buf.push(extra[i]);
        i += 1;
        assert(buf@ =~= old(buf)@ + extra@.subrange(0, i as int));
    }
}

} // verus!
