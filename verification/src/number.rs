//! The texts that spell a number: those that the standard library reads as
//! a number with a fraction, by the grammar that its documentation gives.

use vstd::prelude::*;
use crate::text::{spells, spells_word, to_chars};

verus! {

/// Whether `c` is one of the ten ASCII digits.
pub open spec fn is_digit(c: char) -> bool {
    0x30 <= c as u32 <= 0x39
}

/// Whether `c` is a plus or a minus sign.
pub open spec fn is_sign(c: char) -> bool {
    c == '+' || c == '-'
}

/// Whether `c` marks an exponent.
pub open spec fn is_exponent_mark(c: char) -> bool {
    c == 'e' || c == 'E'
}

/// Whether `s` holds digits only.
pub open spec fn all_digits(s: Seq<char>) -> bool {
    forall|i: int| 0 <= i < s.len() ==> is_digit(#[trigger] s[i])
}

/// Digits with at most one point among them, and at least one digit.
pub open spec fn is_mantissa(s: Seq<char>) -> bool {
    ||| s.len() >= 1 && all_digits(s)
    ||| s.len() >= 2 && exists|d: int|
        0 <= d < s.len() && #[trigger] s[d] == '.' && all_digits(s.take(d)) && all_digits(
            s.skip(d + 1),
        )
}

/// An exponent mark, an optional sign, and at least one digit.
pub open spec fn is_exponent(s: Seq<char>) -> bool {
    &&& s.len() >= 2
    &&& is_exponent_mark(s[0])
    &&& if is_sign(s[1]) {
        s.len() >= 3 && all_digits(s.skip(2))
    } else {
        all_digits(s.skip(1))
    }
}

/// A mantissa, alone or with an exponent behind it.
pub open spec fn is_decimal(s: Seq<char>) -> bool {
    ||| is_mantissa(s)
    ||| exists|k: int| 0 < k < s.len() && is_mantissa(#[trigger] s.take(k)) && is_exponent(s.skip(k))
}

/// `s` without the sign that it may begin with.
pub open spec fn unsigned(s: Seq<char>) -> Seq<char> {
    if s.len() > 0 && is_sign(s[0]) {
        s.skip(1)
    } else {
        s
    }
}

/// Whether `s` spells a number: an optional sign before `inf`,
/// `infinity` or `nan` in any case, or before a decimal.
pub open spec fn is_number_text(s: Seq<char>) -> bool {
    let body = unsigned(s);
    ||| spells(body, seq!['i', 'n', 'f'])
    ||| spells(body, seq!['i', 'n', 'f', 'i', 'n', 'i', 't', 'y'])
    ||| spells(body, seq!['n', 'a', 'n'])
    ||| is_decimal(body)
}

fn digit(c: char) -> (b: bool)
    ensures
        b == is_digit(c),
{
    let n: u32 = c as u32;
    0x30 <= n && n <= 0x39
}

/// The end of the run of digits of `s` that begins at `from`.
fn digit_run(s: &Vec<char>, from: usize) -> (to: usize)
    requires
        from <= s.len(),
    ensures
        from <= to <= s.len(),
        forall|i: int| from <= i < to ==> is_digit(#[trigger] s@[i]),
        to == s.len() || !is_digit(s@[to as int]),
{
    let mut to: usize = from;
    while to < s.len() && digit(s[to])
        invariant
            from <= to <= s.len(),
            forall|i: int| from <= i < to ==> is_digit(#[trigger] s@[i]),
        decreases s.len() - to,
    {
        to += 1;
    }
    to
}

/// Whether `s[from..]` is an exponent.
fn exponent_at(s: &Vec<char>, from: usize) -> (b: bool)
    requires
        from < s.len(),
    ensures
        b == is_exponent(s@.skip(from as int)),
{
    let ghost t = s@.skip(from as int);
    assert(t[0] == s@[from as int]);
    if !(s[from] == 'e' || s[from] == 'E') || s.len() - from < 2 {
        return false;
    }
    assert(t[1] == s@[from + 1]);
    let signed = s[from + 1] == '+' || s[from + 1] == '-';
    let first: usize = if signed {
        from + 2
    } else {
        from + 1
    };
    let end = digit_run(s, first);
    proof {
        let rest = s@.skip(first as int);
        assert(rest == if signed {
            t.skip(2)
        } else {
            t.skip(1)
        });
        if end == s.len() {
            assert forall|i: int| 0 <= i < rest.len() implies is_digit(#[trigger] rest[i]) by {
                assert(rest[i] == s@[first + i]);
            }
        } else {
            assert(rest[end - first] == s@[end as int]);
        }
    }
    first < s.len() && end == s.len()
}

/// Whether `s` is a decimal.
fn decimal(s: &Vec<char>) -> (b: bool)
    ensures
        b == is_decimal(s@),
{
    let d1 = digit_run(s, 0);
    let pointed = d1 < s.len() && s[d1] == '.';
    let m: usize = if pointed {
        digit_run(s, d1 + 1)
    } else {
        d1
    };
    let digits: usize = if pointed {
        m - 1
    } else {
        m
    };
    proof {
        // Every prefix that is a mantissa and ends where the text ends or
        // at an exponent mark ends at `m`, and `m` is such a prefix
        // exactly where it holds a digit.
        assert forall|k: int|
            0 <= k <= s.len() && is_mantissa(#[trigger] s@.take(k)) && (k == s.len()
                || !is_digit(s@[k]) && s@[k] != '.') implies k == m && digits > 0 by {
            let p = s@.take(k);
            if p.len() >= 1 && all_digits(p) {
                assert forall|i: int| 0 <= i < k implies is_digit(#[trigger] s@[i]) by {
                    assert(p[i] == s@[i]);
                }
                if d1 < k {
                    assert(is_digit(s@[d1 as int]));
                }
            } else {
                let d = choose|d: int|
                    0 <= d < p.len() && #[trigger] p[d] == '.' && all_digits(p.take(d))
                        && all_digits(p.skip(d + 1));
                assert(p[d] == s@[d]);
                assert forall|i: int| 0 <= i < d implies is_digit(#[trigger] s@[i]) by {
                    assert(p.take(d)[i] == s@[i]);
                }
                if d1 < d {
                    assert(is_digit(s@[d1 as int]));
                }
                assert(d1 == d);
                assert forall|i: int| d < i < k implies is_digit(#[trigger] s@[i]) by {
                    assert(p.skip(d + 1)[i - d - 1] == s@[i]);
                }
                if m < k {
                    assert(is_digit(s@[m as int]));
                }
            }
        }
        if digits > 0 {
            let p = s@.take(m as int);
            if pointed {
                assert(p[d1 as int] == '.');
                assert(all_digits(p.take(d1 as int))) by {
                    assert forall|i: int| 0 <= i < d1 implies is_digit(
                        #[trigger] p.take(d1 as int)[i],
                    ) by {
                        assert(p.take(d1 as int)[i] == s@[i]);
                    }
                }
                assert(all_digits(p.skip(d1 + 1))) by {
                    assert forall|i: int| 0 <= i < p.skip(d1 + 1).len() implies is_digit(
                        #[trigger] p.skip(d1 + 1)[i],
                    ) by {
                        assert(p.skip(d1 + 1)[i] == s@[d1 + 1 + i]);
                    }
                }
            } else {
                assert forall|i: int| 0 <= i < p.len() implies is_digit(#[trigger] p[i]) by {
                    assert(p[i] == s@[i]);
                }
            }
            assert(is_mantissa(p));
        }
        assert(s@.take(s.len() as int) == s@);
    }
    if digits == 0 {
        proof {
            if is_decimal(s@) {
                if !is_mantissa(s@) {
                    let k = choose|k: int|
                        0 < k < s.len() && is_mantissa(#[trigger] s@.take(k)) && is_exponent(
                            s@.skip(k),
                        );
                    assert(s@.skip(k)[0] == s@[k]);
                }
            }
        }
        return false;
    }
    if m == s.len() {
        return true;
    }
    let b = exponent_at(s, m);
    proof {
        if is_decimal(s@) {
            if !is_mantissa(s@) {
                let k = choose|k: int|
                    0 < k < s.len() && is_mantissa(#[trigger] s@.take(k)) && is_exponent(
                        s@.skip(k),
                    );
                assert(s@.skip(k)[0] == s@[k]);
            }
        }
        if b {
            assert(s@.skip(m as int)[0] == s@[m as int]);
        }
    }
    b
}

/// Whether `text` spells a number.
pub fn spells_number(text: &str) -> (b: bool)
    ensures
        b == is_number_text(text@),
{
    let v = to_chars(text);
    let from: usize = if v.len() > 0 && (v[0] == '+' || v[0] == '-') {
        1
    } else {
        0
    };
    let mut body: Vec<char> = Vec::new();
    let mut i: usize = from;
    while i < v.len()
        invariant
            from <= i <= v.len(),
            body@ == v@.subrange(from as int, i as int),
        decreases v.len() - i,
    {
        body.push(v[i]);
        i += 1;
    }
    assert(body@ == unsigned(v@)) by {
        assert(v@.subrange(0, v.len() as int) == v@);
        assert(v@.subrange(from as int, v.len() as int) == v@.skip(from as int));
    }
    let inf: Vec<char> = vec!['i', 'n', 'f'];
    let infinity: Vec<char> = vec!['i', 'n', 'f', 'i', 'n', 'i', 't', 'y'];
    let nan: Vec<char> = vec!['n', 'a', 'n'];
    assert(inf@ == seq!['i', 'n', 'f']);
    assert(infinity@ == seq!['i', 'n', 'f', 'i', 'n', 'i', 't', 'y']);
    assert(nan@ == seq!['n', 'a', 'n']);
    spells_word(&body, &inf) || spells_word(&body, &infinity) || spells_word(&body, &nan)
        || decimal(&body)
}

} // verus!
