//! Completeness of the framer on a stream of objects.

use vstd::prelude::*;
use crate::ingest::network_source::{
    closes_at, extract, first_close, first_object, first_open, lemma_first_object, opens_at,
    scan_state,
};
use crate::json::is_json;
use crate::text::laws::{
    lemma_join_lines_skips_whitespace, lemma_join_lines_tight, lemma_join_one_line,
    lemma_line_end_bounds, lemma_trim_bounds, lemma_trim_end_index, lemma_trim_of,
    lemma_trim_of_tight,
};
use crate::text::{
    all_whitespace, is_whitespace, join_lines, lemma_line_end, line_end, one_line, trim, trim_end,
};

verus! {

/// A complete object on one line, as the framer hands it on: it begins
/// with an opening brace, the brace that closes it is its last character
/// and no brace closes it before, it holds no line feed, and it is JSON.
pub open spec fn is_object_frame(o: Seq<char>) -> bool {
    &&& o.len() >= 2
    &&& o[0] == '{'
    &&& first_close(o, o.len() - 1)
    &&& one_line(o)
    &&& is_json(o)
}

/// A complete object as it stands in a stream, on one line or on several:
/// it begins and ends with a brace, and its joined lines are an object
/// frame.
pub open spec fn is_object_text(o: Seq<char>) -> bool {
    &&& o.len() >= 2
    &&& o[0] == '{'
    &&& o.last() == '}'
    &&& is_object_frame(join_lines(o))
}

/// The stream made of `objects` with `gaps` around them: the first gap,
/// the first object, the second gap, and so on to the last gap. There is
/// one gap more than there are objects.
pub open spec fn interleave(objects: Seq<Seq<char>>, gaps: Seq<Seq<char>>) -> Seq<char>
    decreases objects.len(),
{
    if objects.len() == 0 {
        gaps[0]
    } else {
        gaps[0] + objects[0] + interleave(objects.drop_first(), gaps.drop_first())
    }
}

/// What the framer takes out of `buffer` in at most `n` runs, each on what
/// the run before left, and what the last run leaves.
pub open spec fn drain(buffer: Seq<char>, n: nat) -> (Seq<Seq<char>>, Seq<char>)
    decreases n,
{
    if n == 0 {
        (Seq::empty(), buffer)
    } else {
        match extract(buffer) {
            Some((object, rest)) => {
                let (more, left) = drain(rest, (n - 1) as nat);
                (seq![object] + more, left)
            },
            None => (Seq::empty(), buffer),
        }
    }
}

/// What the joined lines of a text are behind a text that ends its line
/// with something other than whitespace: the first line keeps its leading
/// whitespace.
pub open spec fn join_behind(s: Seq<char>) -> Seq<char> {
    let n = line_end(s);
    if 0 <= n < s.len() {
        trim_end(s.take(n)) + join_lines(s.skip(n + 1))
    } else {
        trim_end(s)
    }
}

/// The scan of a text does not look ahead.
pub proof fn lemma_scan_prefix(a: Seq<char>, b: Seq<char>, n: int)
    requires
        0 <= n <= a.len(),
    ensures
        scan_state(a + b, n) == scan_state(a, n),
    decreases n,
{
    if n > 0 {
        lemma_scan_prefix(a, b, n - 1);
        assert((a + b)[n - 1] == a[n - 1]);
    }
}

/// An object frame at the head of a text is the text's first object.
pub proof fn lemma_first_object_of_frame(o: Seq<char>, rest: Seq<char>)
    requires
        is_object_frame(o),
    ensures
        first_object(o + rest) == Some((o, rest)),
{
    let s = o + rest;
    let last = o.len() - 1;
    assert forall|k: int| 0 <= k < o.len() implies (closes_at(s, k) <==> closes_at(o, k)) by {
        lemma_scan_prefix(o, rest, k);
        assert(s[k] == o[k]);
    }
    assert(opens_at(s, 0));
    assert(first_open(s, 0));
    assert(first_close(s, last));
    lemma_first_object(s, 0, last);
    assert(s.subrange(0, last + 1) == o);
    assert(s.skip(last + 1) == rest);
}

/// Trimming a text that stands behind a text that ends with something
/// other than whitespace.
pub proof fn lemma_trim_behind(o: Seq<char>, s: Seq<char>)
    requires
        o.len() > 0,
        !is_whitespace(o.last()),
    ensures
        trim(o + s) == trim(o) + trim_end(s),
{
    let (a, b) = lemma_trim_bounds(o);
    assert(b == o.len()) by {
        if b < o.len() {
            assert(is_whitespace(o[o.len() - 1]));
        }
    }
    let k = lemma_trim_end_index(s);
    let all = o + s;
    assert forall|i: int| 0 <= i < a implies is_whitespace(#[trigger] all[i]) by {
        assert(all[i] == o[i]);
    }
    assert forall|i: int| o.len() + k <= i < all.len() implies is_whitespace(
        #[trigger] all[i],
    ) by {
        assert(all[i] == s[i - o.len()]);
    }
    assert(all[a] == o[a]);
    if k > 0 {
        assert(all[o.len() + k - 1] == s[k - 1]);
    } else {
        assert(all[o.len() + k - 1] == o.last());
    }
    lemma_trim_of(all, a, o.len() + k);
    assert(all.subrange(a, o.len() + k) == o.subrange(a, b) + s.take(k));
}

/// The joined lines of a text that stands behind an object: the lines of
/// the object are joined as they are alone, and the text goes on behind
/// the object's last line.
pub proof fn lemma_join_lines_behind(o: Seq<char>, s: Seq<char>)
    requires
        o.len() > 0,
        !is_whitespace(o.last()),
    ensures
        join_lines(o + s) == join_lines(o) + join_behind(s),
    decreases o.len(),
{
    let all = o + s;
    let n = line_end(o);
    lemma_line_end_bounds(o);
    if n < o.len() {
        assert(n < o.len() - 1) by {
            assert(is_whitespace('\n'));
        }
        assert forall|i: int| 0 <= i < n implies #[trigger] all[i] != '\n' by {
            assert(all[i] == o[i]);
        }
        assert(all[n] == o[n]);
        lemma_line_end(all, n);
        assert(all.take(n) == o.take(n));
        let tail = o.skip(n + 1);
        assert(all.skip(n + 1) == tail + s);
        assert(tail.last() == o.last());
        lemma_join_lines_behind(tail, s);
        assert(trim(o.take(n)) + (join_lines(tail) + join_behind(s)) == (trim(o.take(n))
            + join_lines(tail)) + join_behind(s));
    } else {
        let m = line_end(s);
        lemma_line_end_bounds(s);
        assert forall|i: int| 0 <= i < o.len() + m implies #[trigger] all[i] != '\n' by {
            if i < o.len() {
                assert(all[i] == o[i]);
            } else {
                assert(all[i] == s[i - o.len()]);
            }
        }
        if m < s.len() {
            assert(all[o.len() + m] == s[m]);
        }
        lemma_line_end(all, o.len() + m);
        if m < s.len() {
            let line = all.take(o.len() + m);
            assert(line == o + s.take(m));
            assert(all.skip(o.len() + m + 1) == s.skip(m + 1));
            lemma_trim_behind(o, s.take(m));
            assert((trim(o) + trim_end(s.take(m))) + join_lines(s.skip(m + 1)) == trim(o) + (
            trim_end(s.take(m)) + join_lines(s.skip(m + 1))));
        } else {
            lemma_trim_behind(o, s);
        }
    }
}

/// Joining the lines of what stands behind an object again gives the
/// joined lines of the text.
pub proof fn lemma_join_behind_again(s: Seq<char>)
    ensures
        join_lines(join_behind(s)) == join_lines(s),
        all_whitespace(s) ==> join_behind(s) == Seq::<char>::empty(),
{
    let n = line_end(s);
    lemma_line_end_bounds(s);
    let line = if n < s.len() {
        s.take(n)
    } else {
        s
    };
    let more = if n < s.len() {
        join_lines(s.skip(n + 1))
    } else {
        Seq::<char>::empty()
    };
    assert(one_line(line)) by {
        assert forall|i: int| 0 <= i < line.len() implies #[trigger] line[i] != '\n' by {
            assert(line[i] == s[i]);
        }
    }
    if n < s.len() {
        lemma_join_lines_tight(s.skip(n + 1));
    } else {
        assert(trim_end(s) + more == trim_end(s));
        assert(trim(s) + more == trim(s));
    }
    let (a, b) = lemma_trim_bounds(line);
    let kept = line.take(b);
    let x = kept + more;
    assert(join_behind(s) == x);
    assert(join_lines(s) == trim(line) + more);
    assert(one_line(x)) by {
        assert forall|i: int| 0 <= i < x.len() implies #[trigger] x[i] != '\n' by {
            if i < kept.len() {
                assert(x[i] == line[i]);
            } else {
                assert(x[i] == more[i - kept.len()]);
            }
        }
    }
    lemma_join_one_line(x);
    if a < b {
        assert forall|i: int| 0 <= i < a implies is_whitespace(#[trigger] x[i]) by {
            assert(x[i] == line[i]);
        }
        assert(x[a] == line[a]);
        if more.len() > 0 {
            assert(x.last() == more.last());
        } else {
            assert(x.last() == line[b - 1]);
        }
        lemma_trim_of(x, a, x.len() as int);
        assert(x.subrange(a, x.len() as int) == line.subrange(a, b) + more);
    } else {
        assert(kept == Seq::<char>::empty());
        assert(x == more);
        lemma_trim_of_tight(more);
        assert(trim(line) + more == more);
    }
    if all_whitespace(s) {
        assert(a == b) by {
            if a < b {
                assert(line[a] == s[a]);
            }
        }
        if n < s.len() {
            assert(all_whitespace(s.skip(n + 1))) by {
                assert forall|i: int| 0 <= i < s.skip(n + 1).len() implies is_whitespace(
                    #[trigger] s.skip(n + 1)[i],
                ) by {
                    assert(s.skip(n + 1)[i] == s[n + 1 + i]);
                }
            }
            lemma_join_lines_skips_whitespace(s.skip(n + 1), Seq::<char>::empty());
            assert(s.skip(n + 1) + Seq::<char>::empty() == s.skip(n + 1));
            assert(join_lines(Seq::<char>::empty()) == Seq::<char>::empty()) by {
                lemma_join_one_line(Seq::<char>::empty());
            }
        }
    }
}

/// The framer takes an object that stands behind whitespace out of a
/// buffer, with its lines joined, and goes on with what follows as with
/// the text behind the object.
pub proof fn lemma_extract_frame(gap: Seq<char>, o: Seq<char>, s: Seq<char>)
    requires
        all_whitespace(gap),
        is_object_text(o),
    ensures
        extract(gap + o + s) == Some((join_lines(o), join_behind(s))),
        extract(join_behind(s)) == extract(s),
        all_whitespace(s) ==> join_behind(s) == Seq::<char>::empty(),
{
    assert(gap + o + s == gap + (o + s));
    lemma_join_lines_skips_whitespace(gap, o + s);
    assert(!is_whitespace('}'));
    lemma_join_lines_behind(o, s);
    lemma_first_object_of_frame(join_lines(o), join_behind(s));
    lemma_join_behind_again(s);
}

/// An object frame is an object of a stream, and its joined lines are the
/// frame itself.
pub proof fn lemma_frame_is_object_text(o: Seq<char>)
    requires
        is_object_frame(o),
    ensures
        join_lines(o) == o,
        is_object_text(o),
{
    assert(!is_whitespace('{'));
    assert(!is_whitespace('}'));
    lemma_join_one_line(o);
    lemma_trim_of_tight(o);
}

/// Two buffers from which the framer takes the same first object are
/// drained alike.
pub proof fn lemma_drain_same_lines(a: Seq<char>, b: Seq<char>, n: nat)
    requires
        n > 0,
        extract(a) is Some,
        extract(a) == extract(b),
    ensures
        drain(a, n) == drain(b, n),
{
}

/// An object comes back whole: from a buffer that holds one object and
/// nothing else, the framer takes the object with its lines joined and
/// leaves nothing. Braces and quotes inside its string literals move
/// neither its beginning nor its end.
pub proof fn lemma_object_comes_back_whole(o: Seq<char>)
    requires
        is_object_text(o),
    ensures
        extract(o) == Some((join_lines(o), Seq::<char>::empty())),
        is_object_frame(o) ==> extract(o) == Some((o, Seq::<char>::empty())),
{
    let none = Seq::<char>::empty();
    lemma_extract_frame(none, o, none);
    assert(none + o + none == o);
    if is_object_frame(o) {
        lemma_frame_is_object_text(o);
    }
}

/// The joined lines of each of `objects`.
pub open spec fn joined(objects: Seq<Seq<char>>) -> Seq<Seq<char>> {
    objects.map_values(|o: Seq<char>| join_lines(o))
}

/// Framing completeness: from a stream of objects with whitespace around
/// them, the framer takes every object, in their order, and leaves
/// nothing. An object that stands on several lines comes out with its
/// lines joined.
pub proof fn lemma_framing_complete(objects: Seq<Seq<char>>, gaps: Seq<Seq<char>>)
    requires
        objects.len() >= 1,
        gaps.len() == objects.len() + 1,
        forall|i: int| 0 <= i < objects.len() ==> is_object_text(#[trigger] objects[i]),
        forall|i: int| 0 <= i < gaps.len() ==> all_whitespace(#[trigger] gaps[i]),
    ensures
        drain(interleave(objects, gaps), objects.len()) == (joined(objects), Seq::<char>::empty()),
    decreases objects.len(),
{
    let o = objects[0];
    let rest_objects = objects.drop_first();
    let rest_gaps = gaps.drop_first();
    let s = interleave(rest_objects, rest_gaps);
    lemma_extract_frame(gaps[0], o, s);
    let left = join_behind(s);
    if rest_objects.len() == 0 {
        assert(s == gaps[1]);
        assert(drain(left, 0) == (Seq::<Seq<char>>::empty(), left));
        assert(seq![join_lines(o)] + Seq::<Seq<char>>::empty() == joined(objects));
    } else {
        assert forall|i: int| 0 <= i < rest_objects.len() implies is_object_text(
            #[trigger] rest_objects[i],
        ) by {
            assert(rest_objects[i] == objects[i + 1]);
        }
        assert forall|i: int| 0 <= i < rest_gaps.len() implies all_whitespace(
            #[trigger] rest_gaps[i],
        ) by {
            assert(rest_gaps[i] == gaps[i + 1]);
        }
        lemma_framing_complete(rest_objects, rest_gaps);
        assert(extract(s) is Some) by {
            if extract(s) is None {
                assert(drain(s, rest_objects.len()).0.len() == 0);
            }
        }
        lemma_drain_same_lines(left, s, rest_objects.len());
        assert(seq![join_lines(o)] + joined(rest_objects) == joined(objects));
    }
}

/// Framing completeness for objects that stand on one line each: the
/// framer takes exactly the objects, in their order, and leaves nothing.
pub proof fn lemma_framing_exact(objects: Seq<Seq<char>>, gaps: Seq<Seq<char>>)
    requires
        objects.len() >= 1,
        gaps.len() == objects.len() + 1,
        forall|i: int| 0 <= i < objects.len() ==> is_object_frame(#[trigger] objects[i]),
        forall|i: int| 0 <= i < gaps.len() ==> all_whitespace(#[trigger] gaps[i]),
    ensures
        drain(interleave(objects, gaps), objects.len()) == (objects, Seq::<char>::empty()),
{
    assert forall|i: int| 0 <= i < objects.len() implies is_object_text(#[trigger] objects[i])
        && join_lines(objects[i]) == objects[i] by {
        lemma_frame_is_object_text(objects[i]);
    }
    lemma_framing_complete(objects, gaps);
    assert(joined(objects) == objects);
}

} // verus!
