//! What holds of trimmed texts and of joined lines.

use vstd::prelude::*;
use crate::text::{
    all_whitespace, is_whitespace, join_lines, lemma_line_end, lemma_trim_end, lemma_trim_start,
    line_end, one_line, tight, trim, trim_end, trim_start,
};

verus! {

/// The length of the leading run of whitespace.
pub proof fn lemma_trim_start_index(s: Seq<char>) -> (k: int)
    ensures
        0 <= k <= s.len(),
        forall|i: int| 0 <= i < k ==> is_whitespace(#[trigger] s[i]),
        k == s.len() || !is_whitespace(s[k]),
        trim_start(s) == s.skip(k),
    decreases s.len(),
{
    if s.len() > 0 && is_whitespace(s[0]) {
        let r = s.drop_first();
        let j = lemma_trim_start_index(r);
        assert forall|i: int| 0 <= i < j + 1 implies is_whitespace(#[trigger] s[i]) by {
            if i > 0 {
                assert(s[i] == r[i - 1]);
            }
        }
        assert(r.skip(j) == s.skip(j + 1));
        j + 1
    } else {
        assert(s.skip(0) == s);
        0
    }
}

/// Where the trailing run of whitespace begins.
pub proof fn lemma_trim_end_index(s: Seq<char>) -> (k: int)
    ensures
        0 <= k <= s.len(),
        forall|i: int| k <= i < s.len() ==> is_whitespace(#[trigger] s[i]),
        k == 0 || !is_whitespace(s[k - 1]),
        trim_end(s) == s.take(k),
    decreases s.len(),
{
    if s.len() > 0 && is_whitespace(s.last()) {
        let r = s.drop_last();
        let j = lemma_trim_end_index(r);
        assert forall|i: int| j <= i < s.len() implies is_whitespace(#[trigger] s[i]) by {
            if i < s.len() - 1 {
                assert(s[i] == r[i]);
            }
        }
        assert(r.take(j) == s.take(j));
        j
    } else {
        assert(s.take(s.len() as int) == s);
        s.len() as int
    }
}

/// Where the trimmed part of a text lies: `trim(s)` is `s[a..b]`. A text
/// of whitespace has `a == b == 0`; any other begins its trimmed part at
/// its first and ends it behind its last character that is no whitespace.
pub proof fn lemma_trim_bounds(s: Seq<char>) -> (r: (int, int))
    ensures
        0 <= r.0 <= r.1 <= s.len(),
        trim(s) == s.subrange(r.0, r.1),
        trim_end(s) == s.take(r.1),
        forall|i: int| r.1 <= i < s.len() ==> is_whitespace(#[trigger] s[i]),
        r.0 < r.1 ==> trim_start(s) == s.skip(r.0) && !is_whitespace(s[r.0]) && !is_whitespace(
            s[r.1 - 1],
        ) && forall|i: int| 0 <= i < r.0 ==> is_whitespace(#[trigger] s[i]),
        r.0 == r.1 ==> r.0 == 0 && all_whitespace(s),
{
    let a = lemma_trim_start_index(s);
    let b = lemma_trim_end_index(s);
    if a == s.len() {
        assert(b == 0) by {
            if b > 0 {
                assert(is_whitespace(s[b - 1]));
            }
        }
        assert(trim_start(s) == Seq::<char>::empty());
        assert(trim(s) == s.subrange(0, 0));
        (0, 0)
    } else {
        assert(a < b) by {
            if b <= a {
                assert(is_whitespace(s[a]));
            }
        }
        let m = s.skip(a);
        lemma_trim_end(m, b - a);
        assert(m.take(b - a) == s.subrange(a, b));
        (a, b)
    }
}

/// The trimmed part of a text, from where it lies.
pub proof fn lemma_trim_of(s: Seq<char>, a: int, b: int)
    requires
        0 <= a <= b <= s.len(),
        forall|i: int| 0 <= i < a ==> is_whitespace(#[trigger] s[i]),
        forall|i: int| b <= i < s.len() ==> is_whitespace(#[trigger] s[i]),
        a < b ==> !is_whitespace(s[a]) && !is_whitespace(s[b - 1]),
    ensures
        trim(s) == s.subrange(a, b),
{
    if a < b {
        lemma_trim_start(s, a);
        let m = s.skip(a);
        lemma_trim_end(m, b - a);
        assert(m.take(b - a) == s.subrange(a, b));
    } else {
        lemma_trim_start(s, s.len() as int);
        assert(trim_start(s) == Seq::<char>::empty());
        assert(s.subrange(a, b) == Seq::<char>::empty());
    }
}

/// A trimmed text neither begins nor ends with whitespace, and holds no
/// line feed where the text held none.
pub proof fn lemma_trim_tight(s: Seq<char>)
    ensures
        tight(trim(s)),
        one_line(s) ==> one_line(trim(s)),
{
    let (a, b) = lemma_trim_bounds(s);
    if a < b {
        assert(trim(s)[0] == s[a]);
        assert(trim(s).last() == s[b - 1]);
    }
    if one_line(s) {
        assert forall|i: int| 0 <= i < trim(s).len() implies #[trigger] trim(s)[i] != '\n' by {
            assert(trim(s)[i] == s[a + i]);
        }
    }
}

/// Trimming leaves a text that neither begins nor ends with whitespace
/// as it is.
pub proof fn lemma_trim_of_tight(s: Seq<char>)
    requires
        tight(s),
    ensures
        trim(s) == s,
{
    lemma_trim_of(s, 0, s.len() as int);
    assert(s.subrange(0, s.len() as int) == s);
}

/// Trimming the end makes no text longer.
pub proof fn lemma_trim_end_len(s: Seq<char>)
    ensures
        trim_end(s).len() <= s.len(),
    decreases s.len(),
{
    if s.len() > 0 {
        lemma_trim_end_len(s.drop_last());
    }
}

/// Trimming makes no text longer.
pub proof fn lemma_trim_len(s: Seq<char>)
    ensures
        trim_start(s).len() <= s.len(),
        trim_end(s).len() <= s.len(),
        trim(s).len() <= s.len(),
    decreases s.len(),
{
    if s.len() > 0 {
        lemma_trim_len(s.drop_first());
        lemma_trim_len(s.drop_last());
    }
    lemma_trim_end_len(trim_start(s));
}

/// The first line feed lies within the text.
pub proof fn lemma_line_end_bounds(s: Seq<char>)
    ensures
        0 <= line_end(s) <= s.len(),
        line_end(s) < s.len() ==> s[line_end(s)] == '\n',
        forall|i: int| 0 <= i < line_end(s) ==> #[trigger] s[i] != '\n',
    decreases s.len(),
{
    if s.len() > 0 && s[0] != '\n' {
        let r = s.drop_first();
        lemma_line_end_bounds(r);
        assert forall|i: int| 0 <= i < line_end(s) implies #[trigger] s[i] != '\n' by {
            if i > 0 {
                assert(s[i] == r[i - 1]);
            }
        }
    }
}

/// Joining trimmed lines makes no text longer.
pub proof fn lemma_join_lines_len(s: Seq<char>)
    ensures
        join_lines(s).len() <= s.len(),
    decreases s.len(),
{
    let n = line_end(s);
    lemma_line_end_bounds(s);
    if 0 <= n < s.len() {
        lemma_trim_len(s.take(n));
        lemma_join_lines_len(s.skip(n + 1));
    } else {
        lemma_trim_len(s);
    }
}

/// A text without line feeds is its own only line.
pub proof fn lemma_join_one_line(s: Seq<char>)
    requires
        one_line(s),
    ensures
        join_lines(s) == trim(s),
{
    lemma_line_end(s, s.len() as int);
}

/// Joined lines hold no line feed, and neither begin nor end with
/// whitespace.
pub proof fn lemma_join_lines_tight(s: Seq<char>)
    ensures
        one_line(join_lines(s)),
        tight(join_lines(s)),
    decreases s.len(),
{
    let n = line_end(s);
    lemma_line_end_bounds(s);
    if 0 <= n < s.len() {
        let head = s.take(n);
        assert(one_line(head)) by {
            assert forall|i: int| 0 <= i < head.len() implies #[trigger] head[i] != '\n' by {
                assert(head[i] == s[i]);
            }
        }
        lemma_trim_tight(head);
        lemma_join_lines_tight(s.skip(n + 1));
        let a = trim(head);
        let b = join_lines(s.skip(n + 1));
        assert forall|i: int| 0 <= i < (a + b).len() implies #[trigger] (a + b)[i] != '\n' by {
            if i < a.len() {
                assert((a + b)[i] == a[i]);
            } else {
                assert((a + b)[i] == b[i - a.len()]);
            }
        }
        if a.len() > 0 && b.len() > 0 {
            assert((a + b)[0] == a[0]);
            assert((a + b).last() == b.last());
        } else if a.len() == 0 {
            assert(a + b == b);
        } else {
            assert(a + b == a);
        }
    } else {
        assert(one_line(s)) by {
            assert forall|i: int| 0 <= i < s.len() implies #[trigger] s[i] != '\n' by {}
        }
        lemma_trim_tight(s);
    }
}

/// Whitespace before a text plays no part in its joined lines.
pub proof fn lemma_join_lines_skips_whitespace(gap: Seq<char>, s: Seq<char>)
    requires
        all_whitespace(gap),
    ensures
        join_lines(gap + s) == join_lines(s),
    decreases gap.len(),
{
    if gap.len() == 0 {
        assert(gap + s == s);
    } else {
        let c = gap[0];
        let rest = gap.drop_first() + s;
        let all = gap + s;
        assert(all.drop_first() == rest);
        assert(all[0] == c);
        assert(all_whitespace(gap.drop_first())) by {
            assert forall|i: int| 0 <= i < gap.drop_first().len() implies is_whitespace(
                #[trigger] gap.drop_first()[i],
            ) by {
                assert(gap.drop_first()[i] == gap[i + 1]);
            }
        }
        lemma_join_lines_skips_whitespace(gap.drop_first(), s);
        lemma_line_end_bounds(rest);
        lemma_line_end_bounds(all);
        if c == '\n' {
            assert(line_end(all) == 0);
            assert(all.take(0) == Seq::<char>::empty());
            assert(trim(Seq::<char>::empty()) == Seq::<char>::empty());
            assert(all.skip(1) == rest);
            assert(Seq::<char>::empty() + join_lines(rest) == join_lines(rest));
        } else {
            let n = line_end(rest);
            assert(line_end(all) == n + 1);
            if n < rest.len() {
                assert(all.skip(n + 2) == rest.skip(n + 1));
                let (a, b) = lemma_trim_bounds(rest.take(n));
                let line = all.take(n + 1);
                assert(line.drop_first() == rest.take(n));
                assert forall|i: int| 0 <= i < a + 1 implies is_whitespace(#[trigger] line[i]) by {
                    if i > 0 {
                        assert(line[i] == rest.take(n)[i - 1]);
                    }
                }
                assert forall|i: int| b + 1 <= i < line.len() implies is_whitespace(
                    #[trigger] line[i],
                ) by {
                    assert(line[i] == rest.take(n)[i - 1]);
                }
                if a < b {
                    assert(line[a + 1] == rest.take(n)[a]);
                    assert(line[b] == rest.take(n)[b - 1]);
                    lemma_trim_of(line, a + 1, b + 1);
                    assert(line.subrange(a + 1, b + 1) == rest.take(n).subrange(a, b));
                } else {
                    lemma_trim_of(line, line.len() as int, line.len() as int);
                    assert(line.subrange(line.len() as int, line.len() as int) == rest.take(
                        n,
                    ).subrange(a, b));
                }
            } else {
                let (a, b) = lemma_trim_bounds(rest);
                assert forall|i: int| 0 <= i < a + 1 implies is_whitespace(#[trigger] all[i]) by {
                    if i > 0 {
                        assert(all[i] == rest[i - 1]);
                    }
                }
                assert forall|i: int| b + 1 <= i < all.len() implies is_whitespace(
                    #[trigger] all[i],
                ) by {
                    assert(all[i] == rest[i - 1]);
                }
                if a < b {
                    assert(all[a + 1] == rest[a]);
                    assert(all[b] == rest[b - 1]);
                    lemma_trim_of(all, a + 1, b + 1);
                    assert(all.subrange(a + 1, b + 1) == rest.subrange(a, b));
                } else {
                    lemma_trim_of(all, all.len() as int, all.len() as int);
                    assert(all.subrange(all.len() as int, all.len() as int) == rest.subrange(a, b));
                }
            }
        }
    }
}

} // verus!
