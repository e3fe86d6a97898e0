//! Character-level text helpers: whitespace, trimming, line joining and
//! words in any case.

use vstd::prelude::*;

pub mod laws;

verus! {

/// `String::push` adds the character at the end of the string.
pub assume_specification[ String::push ](s: &mut String, ch: char)
    ensures
        final(s)@ == old(s)@.push(ch),
;

/// Whether `c` carries the Unicode `White_Space` property.
pub open spec fn is_whitespace(c: char) -> bool {
    let n: u32 = c as u32;
    (0x09 <= n <= 0x0d) || n == 0x20 || n == 0x85 || n == 0xa0 || n == 0x1680 || (0x2000 <= n
        <= 0x200a) || n == 0x2028 || n == 0x2029 || n == 0x202f || n == 0x205f || n == 0x3000
}

/// Whether every character of `s` is whitespace.
pub open spec fn all_whitespace(s: Seq<char>) -> bool {
    forall|i: int| 0 <= i < s.len() ==> is_whitespace(#[trigger] s[i])
}

/// `s` without its leading whitespace.
pub open spec fn trim_start(s: Seq<char>) -> Seq<char>
    decreases s.len(),
{
    if s.len() > 0 && is_whitespace(s[0]) {
        trim_start(s.drop_first())
    } else {
        s
    }
}

/// `s` without its trailing whitespace.
pub open spec fn trim_end(s: Seq<char>) -> Seq<char>
    decreases s.len(),
{
    if s.len() > 0 && is_whitespace(s.last()) {
        trim_end(s.drop_last())
    } else {
        s
    }
}

/// `s` without leading and trailing whitespace.
pub open spec fn trim(s: Seq<char>) -> Seq<char> {
    trim_end(trim_start(s))
}

/// Whether `s` neither begins nor ends with whitespace.
pub open spec fn tight(s: Seq<char>) -> bool {
    s.len() > 0 ==> !is_whitespace(s[0]) && !is_whitespace(s.last())
}

/// Whether `s` holds no line feed.
pub open spec fn one_line(s: Seq<char>) -> bool {
    forall|i: int| 0 <= i < s.len() ==> #[trigger] s[i] != '\n'
}

/// Index of the first line feed of `s`, or `s.len()` where `s` holds none.
pub open spec fn line_end(s: Seq<char>) -> int
    decreases s.len(),
{
    if s.len() == 0 || s[0] == '\n' {
        0
    } else {
        1 + line_end(s.drop_first())
    }
}

/// The lines of `s`, each trimmed, written one after another with nothing
/// between them. A line ends at a line feed or at the end of `s`.
pub open spec fn join_lines(s: Seq<char>) -> Seq<char>
    decreases s.len(),
{
    let n = line_end(s);
    if 0 <= n < s.len() {
        trim(s.take(n)) + join_lines(s.skip(n + 1))
    } else {
        trim(s)
    }
}

/// Whether `s` holds an opening or a closing brace.
pub open spec fn has_brace(s: Seq<char>) -> bool {
    exists|i: int| 0 <= i < s.len() && (#[trigger] s[i] == '{' || s[i] == '}')
}

/// The code point of `c`, with an ASCII capital folded to its small letter.
pub open spec fn fold_case(c: char) -> u32 {
    let n: u32 = c as u32;
    if 0x41 <= n <= 0x5a {
        (n + 0x20) as u32
    } else {
        n
    }
}

/// Whether `s` spells `word` when the case of ASCII letters is set aside.
pub open spec fn spells(s: Seq<char>, word: Seq<char>) -> bool {
    s.len() == word.len() && forall|i: int|
        0 <= i < s.len() ==> fold_case(#[trigger] s[i]) == word[i] as u32
}

/// `trim_start` drops exactly the leading run of whitespace.
pub proof fn lemma_trim_start(s: Seq<char>, k: int)
    requires
        0 <= k <= s.len(),
        forall|i: int| 0 <= i < k ==> is_whitespace(#[trigger] s[i]),
        k == s.len() || !is_whitespace(s[k]),
    ensures
        trim_start(s) == s.skip(k),
    decreases k,
{
    if k == 0 {
        assert(s.skip(0) == s);
    } else {
        let r = s.drop_first();
        assert(forall|i: int| 0 <= i < k - 1 ==> is_whitespace(#[trigger] r[i])) by {
            assert forall|i: int| 0 <= i < k - 1 implies is_whitespace(#[trigger] r[i]) by {
                assert(r[i] == s[i + 1]);
            }
        }
        lemma_trim_start(r, k - 1);
        assert(r.skip(k - 1) == s.skip(k));
    }
}

/// `trim_end` drops exactly the trailing run of whitespace.
pub proof fn lemma_trim_end(s: Seq<char>, k: int)
    requires
        0 <= k <= s.len(),
        forall|i: int| k <= i < s.len() ==> is_whitespace(#[trigger] s[i]),
        k == 0 || !is_whitespace(s[k - 1]),
    ensures
        trim_end(s) == s.take(k),
    decreases s.len() - k,
{
    if k == s.len() {
        assert(s.take(k) == s);
    } else {
        let r = s.drop_last();
        lemma_trim_end(r, k);
        assert(r.take(k) == s.take(k));
    }
}

/// `line_end` is the position of the first line feed.
pub proof fn lemma_line_end(s: Seq<char>, n: int)
    requires
        0 <= n <= s.len(),
        forall|i: int| 0 <= i < n ==> #[trigger] s[i] != '\n',
        n == s.len() || s[n] == '\n',
    ensures
        line_end(s) == n,
    decreases n,
{
    if n > 0 {
        let r = s.drop_first();
        assert forall|i: int| 0 <= i < n - 1 implies #[trigger] r[i] != '\n' by {
            assert(r[i] == s[i + 1]);
        }
        lemma_line_end(r, n - 1);
    }
}

/// Whether `c` carries the Unicode `White_Space` property.
pub fn char_is_whitespace(c: char) -> (b: bool)
    ensures
        b == is_whitespace(c),
{
    let n: u32 = c as u32;
    (0x09 <= n && n <= 0x0d) || n == 0x20 || n == 0x85 || n == 0xa0 || n == 0x1680 || (0x2000 <= n
        && n <= 0x200a) || n == 0x2028 || n == 0x2029 || n == 0x202f || n == 0x205f || n == 0x3000
}

/// The characters of `s`, in order.
pub fn to_chars(s: &str) -> (v: Vec<char>)
    ensures
        v@ == s@,
{
    let mut v: Vec<char> = Vec::new();
    for c in it: s.chars()
        invariant
            it.seq() == s@,
            v@ == s@.take(it.index()),
    {
        v.push(c);
    }
    assert(s@.take(s@.len() as int) == s@);
    v
}

/// The text made of `v[from..to]`.
pub fn to_text(v: &Vec<char>, from: usize, to: usize) -> (s: String)
    requires
        from <= to <= v.len(),
    ensures
        s@ == v@.subrange(from as int, to as int),
{
    let mut s = String::new();
    let mut i: usize = from;
    while i < to
        invariant
            from <= i <= to <= v.len(),
            s@ == v@.subrange(from as int, i as int),
        decreases to - i,
    {
        s.push(v[i]);
        i += 1;
    }
    s
}

/// The bounds `(a, b)` of `v[from..to]` without its leading and trailing
/// whitespace.
pub fn trim_bounds(v: &Vec<char>, from: usize, to: usize) -> (r: (usize, usize))
    requires
        from <= to <= v.len(),
    ensures
        from <= r.0 <= r.1 <= to,
        v@.subrange(r.0 as int, r.1 as int) == trim(v@.subrange(from as int, to as int)),
{
    let mut a: usize = from;
    while a < to && char_is_whitespace(v[a])
        invariant
            from <= a <= to <= v.len(),
            forall|i: int| from <= i < a ==> is_whitespace(#[trigger] v@[i]),
        decreases to - a,
    {
        a += 1;
    }
    let mut b: usize = to;
    while b > a && char_is_whitespace(v[b - 1])
        invariant
            a <= b <= to <= v.len(),
            forall|i: int| b <= i < to ==> is_whitespace(#[trigger] v@[i]),
        decreases b - a,
    {
        b -= 1;
    }
    proof {
        let s = v@.subrange(from as int, to as int);
        lemma_trim_start(s, a - from);
        let m = s.skip(a - from);
        assert(m == v@.subrange(a as int, to as int));
        lemma_trim_end(m, b - a);
        assert(m.take(b - a) == v@.subrange(a as int, b as int));
    }
    (a, b)
}

/// `s` without leading and trailing whitespace.
pub fn trimmed(s: &str) -> (r: String)
    ensures
        r@ == trim(s@),
{
    let v = to_chars(s);
    assert(v@.subrange(0, v.len() as int) == v@);
    let (a, b) = trim_bounds(&v, 0, v.len());
    to_text(&v, a, b)
}

/// Whether `s` holds an opening or a closing brace.
pub fn holds_brace(s: &str) -> (b: bool)
    ensures
        b == has_brace(s@),
{
    let v = to_chars(s);
    let mut i: usize = 0;
    while i < v.len()
        invariant
            i <= v.len(),
            v@ == s@,
            forall|k: int| 0 <= k < i ==> !(#[trigger] v@[k] == '{' || v@[k] == '}'),
        decreases v.len() - i,
    {
        if v[i] == '{' || v[i] == '}' {
            return true;
        }
        i += 1;
    }
    false
}

/// Joins the trimmed lines of `v`.
pub fn join_trimmed_lines(v: &Vec<char>) -> (out: Vec<char>)
    ensures
        out@ == join_lines(v@),
{
    let mut out: Vec<char> = Vec::new();
    let mut pos: usize = 0;
    let mut done: bool = false;
    proof {
        assert(v@.skip(0) == v@);
        assert(out@ + join_lines(v@) == join_lines(v@));
    }
    while !done
        invariant
            pos <= v.len(),
            !done ==> join_lines(v@) == out@ + join_lines(v@.skip(pos as int)),
            done ==> join_lines(v@) == out@,
        decreases v.len() - pos + (if done { 0int } else { 1int }),
    {
        let mut e: usize = pos;
        while e < v.len() && v[e] != '\n'
            invariant
                pos <= e <= v.len(),
                forall|i: int| pos <= i < e ==> #[trigger] v@[i] != '\n',
            decreases v.len() - e,
        {
            e += 1;
        }
        let (a, b) = trim_bounds(v, pos, e);
        let ghost before = out@;
        let mut i: usize = a;
        while i < b
            invariant
                a <= i <= b <= v.len(),
                out@ == before + v@.subrange(a as int, i as int),
            decreases b - i,
        {
            out.push(v[i]);
            i += 1;
        }
        proof {
            let rest = v@.skip(pos as int);
            lemma_line_end(rest, e - pos);
            assert(rest.take(e - pos) == v@.subrange(pos as int, e as int));
            if e < v.len() {
                assert(rest.skip(e - pos + 1) == v@.skip(e + 1));
                assert(before + (trim(rest.take(e - pos)) + join_lines(rest.skip(e - pos + 1)))
                    == (before + trim(rest.take(e - pos))) + join_lines(rest.skip(e - pos + 1)));
            } else {
                assert(rest.take(e - pos) == rest);
            }
        }
        if e < v.len() {
            pos = e + 1;
        } else {
            pos = e;
            done = true;
        }
    }
    out
}

/// Whether `s` spells `word` when the case of ASCII letters is set aside.
pub fn spells_word(s: &Vec<char>, word: &Vec<char>) -> (b: bool)
    ensures
        b == spells(s@, word@),
{
    if s.len() != word.len() {
        return false;
    }
    let mut i: usize = 0;
    while i < s.len()
        invariant
            i <= s.len(),
            s.len() == word.len(),
            forall|k: int| 0 <= k < i ==> fold_case(#[trigger] s@[k]) == word@[k] as u32,
        decreases s.len() - i,
    {
        let n: u32 = s[i] as u32;
        let folded: u32 = if 0x41 <= n && n <= 0x5a {
            n + 0x20
        } else {
            n
        };
        if folded != word[i] as u32 {
            return false;
        }
        i += 1;
    }
    true
}

} // verus!
