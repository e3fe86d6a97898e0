//! An object that reaches a network source line by line.

use vstd::prelude::*;
use crate::ingest::network_source::{closes_at, extract, first_close, first_open, network_frame};
use crate::ingest::stream::{is_object_frame, lemma_first_object_of_frame, lemma_scan_prefix};
use crate::text::laws::{lemma_join_one_line, lemma_line_end_bounds, lemma_trim_bounds};
use crate::text::{has_brace, join_lines, lemma_line_end, line_end, trim};

verus! {

/// The lines written one after another.
pub open spec fn concat(lines: Seq<Seq<char>>) -> Seq<char>
    decreases lines.len(),
{
    if lines.len() == 0 {
        Seq::empty()
    } else {
        concat(lines.drop_last()) + lines.last()
    }
}

/// What a network source hands on while it takes `lines` one by one,
/// beginning with `buffer`, and the buffer that it keeps at the end.
pub open spec fn feed(buffer: Seq<char>, lines: Seq<Seq<char>>) -> (Seq<Seq<char>>, Seq<char>)
    decreases lines.len(),
{
    if lines.len() == 0 {
        (Seq::empty(), buffer)
    } else {
        let (handed, kept) = feed(buffer, lines.drop_last());
        let framed = network_frame(kept, lines.last());
        (
            match framed.content {
                Some(content) => handed.push(content),
                None => handed,
            },
            framed.buffer,
        )
    }
}

/// Whether each of `lines` ends with a line feed.
pub open spec fn end_with_breaks(lines: Seq<Seq<char>>) -> bool {
    forall|i: int|
        0 <= i < lines.len() ==> (#[trigger] lines[i]).len() > 0 && lines[i].last() == '\n'
}

/// Behind a line feed, the lines of a text are joined as they are alone.
pub proof fn lemma_join_lines_after_break(p: Seq<char>, q: Seq<char>)
    requires
        p.len() == 0 || p.last() == '\n',
    ensures
        join_lines(p + q) == join_lines(p) + join_lines(q),
    decreases p.len(),
{
    if p.len() == 0 {
        assert(p + q == q);
        lemma_join_one_line(p);
        assert(trim(p) == p);
        assert(p + join_lines(q) == join_lines(q));
    } else {
        let all = p + q;
        let n = line_end(p);
        lemma_line_end_bounds(p);
        assert(n < p.len()) by {
            if n == p.len() {
                assert(p[p.len() - 1] != '\n');
            }
        }
        assert forall|i: int| 0 <= i < n implies #[trigger] all[i] != '\n' by {
            assert(all[i] == p[i]);
        }
        assert(all[n] == p[n]);
        lemma_line_end(all, n);
        assert(all.take(n) == p.take(n));
        let tail = p.skip(n + 1);
        assert(all.skip(n + 1) == tail + q);
        if tail.len() > 0 {
            assert(tail.last() == p.last());
        }
        lemma_join_lines_after_break(tail, q);
        assert(trim(p.take(n)) + (join_lines(tail) + join_lines(q)) == (trim(p.take(n))
            + join_lines(tail)) + join_lines(q));
    }
}

/// Lines written one after another are the first of them, written one
/// after another, and behind them the others.
pub proof fn lemma_concat_split(lines: Seq<Seq<char>>, k: int)
    requires
        0 <= k <= lines.len(),
    ensures
        concat(lines) == concat(lines.take(k)) + concat(lines.skip(k)),
    decreases lines.len(),
{
    if k == lines.len() {
        assert(lines.take(k) == lines);
        assert(lines.skip(k).len() == 0);
        assert(concat(lines) + Seq::<char>::empty() == concat(lines));
    } else {
        let front = lines.drop_last();
        lemma_concat_split(front, k);
        assert(front.take(k) == lines.take(k));
        assert(front.skip(k) == lines.skip(k).drop_last());
        assert(lines.skip(k).last() == lines.last());
        assert((concat(lines.take(k)) + concat(front.skip(k))) + lines.last() == concat(
            lines.take(k),
        ) + (concat(front.skip(k)) + lines.last()));
    }
}

/// Lines that end with line feeds, written one after another, end with a
/// line feed.
pub proof fn lemma_concat_ends_with_break(lines: Seq<Seq<char>>)
    requires
        end_with_breaks(lines),
    ensures
        concat(lines).len() == 0 || concat(lines).last() == '\n',
        lines.len() > 0 ==> concat(lines).len() > 0,
{
    if lines.len() > 0 {
        assert((concat(lines.drop_last()) + lines.last()).last() == lines.last().last());
    }
}

/// The joined lines of lines that are written one after another, taken
/// apart at a line.
pub proof fn lemma_join_concat_split(lines: Seq<Seq<char>>, k: int)
    requires
        end_with_breaks(lines),
        0 <= k <= lines.len(),
    ensures
        join_lines(concat(lines)) == join_lines(concat(lines.take(k))) + join_lines(
            concat(lines.skip(k)),
        ),
{
    lemma_concat_split(lines, k);
    assert(end_with_breaks(lines.take(k))) by {
        assert forall|i: int| 0 <= i < lines.take(k).len() implies (#[trigger] lines.take(
            k,
        )[i]).len() > 0 && lines.take(k)[i].last() == '\n' by {
            assert(lines.take(k)[i] == lines[i]);
        }
    }
    lemma_concat_ends_with_break(lines.take(k));
    lemma_join_lines_after_break(concat(lines.take(k)), concat(lines.skip(k)));
}

/// Every character of the joined lines of a text stands in the text.
pub proof fn lemma_join_lines_char(s: Seq<char>, i: int) -> (j: int)
    requires
        0 <= i < join_lines(s).len(),
    ensures
        0 <= j < s.len(),
        s[j] == join_lines(s)[i],
    decreases s.len(),
{
    let n = line_end(s);
    lemma_line_end_bounds(s);
    if n < s.len() {
        let head = s.take(n);
        let (a, b) = lemma_trim_bounds(head);
        if i < trim(head).len() {
            assert(trim(head)[i] == head[a + i]);
            assert(head[a + i] == s[a + i]);
            a + i
        } else {
            let tail = s.skip(n + 1);
            let k = lemma_join_lines_char(tail, i - trim(head).len());
            assert(tail[k] == s[n + 1 + k]);
            n + 1 + k
        }
    } else {
        let (a, b) = lemma_trim_bounds(s);
        assert(trim(s)[i] == s[a + i]);
        a + i
    }
}

/// The framer takes nothing out of a text whose joined lines are the
/// beginning of an object frame and not the whole of it.
pub proof fn lemma_no_object_in_part(p: Seq<char>, rest: Seq<char>)
    requires
        rest.len() > 0,
        is_object_frame(join_lines(p) + rest),
    ensures
        extract(p) is None,
{
    let s = join_lines(p);
    let whole = s + rest;
    assert forall|i: int| !closes_at(s, i) by {
        if closes_at(s, i) {
            lemma_scan_prefix(s, rest, i);
            assert(whole[i] == s[i]);
            assert(closes_at(whole, i));
        }
    }
    assert forall|a: int, b: int| !(first_open(s, a) && first_close(s, b)) by {
        assert(!closes_at(s, b));
    }
}

/// While the lines of an object arrive, the source hands on nothing and
/// keeps what it has read.
pub proof fn lemma_feed_part(lines: Seq<Seq<char>>, k: int)
    requires
        end_with_breaks(lines),
        0 <= k < lines.len(),
        join_lines(lines[0]).len() > 0,
        join_lines(lines.last()).len() > 0,
        is_object_frame(join_lines(concat(lines))),
    ensures
        feed(Seq::empty(), lines.take(k)) == (Seq::<Seq<char>>::empty(), concat(lines.take(k))),
    decreases k,
{
    if k > 0 {
        lemma_feed_part(lines, k - 1);
        let part = lines.take(k);
        assert(part.drop_last() == lines.take(k - 1));
        assert(part.last() == lines[k - 1]);
        let text = concat(part);
        assert(text == concat(lines.take(k - 1)) + lines[k - 1]);
        // The joined lines of what was read are a beginning of the object.
        lemma_join_concat_split(lines, k);
        let s = join_lines(text);
        let rest = join_lines(concat(lines.skip(k)));
        // What is still to come holds the last line, which has something to join.
        let coming = lines.skip(k);
        assert(end_with_breaks(coming)) by {
            assert forall|i: int| 0 <= i < coming.len() implies (#[trigger] coming[i]).len() > 0
                && coming[i].last() == '\n' by {
                assert(coming[i] == lines[k + i]);
            }
        }
        lemma_join_concat_split(coming, coming.len() - 1);
        assert(coming.skip(coming.len() - 1) == seq![lines.last()]);
        lemma_concat_one(lines.last());
        assert(rest.len() > 0);
        lemma_no_object_in_part(text, rest);
        // What was read holds the first line, which has the opening brace.
        assert(end_with_breaks(part)) by {
            assert forall|i: int| 0 <= i < part.len() implies (#[trigger] part[i]).len() > 0
                && part[i].last() == '\n' by {
                assert(part[i] == lines[i]);
            }
        }
        lemma_join_concat_split(part, 1);
        assert(part.take(1) == seq![lines[0]]);
        lemma_concat_one(lines[0]);
        assert(s.len() > 0);
        assert(s[0] == (s + rest)[0]);
        let j = lemma_join_lines_char(text, 0);
        assert(text[j] == '{');
        assert(has_brace(text));
    }
}

/// One line, written alone, is the line.
pub proof fn lemma_concat_one(line: Seq<char>)
    ensures
        concat(seq![line]) == line,
{
    assert(seq![line].drop_last().len() == 0);
    assert(concat(seq![line].drop_last()) == Seq::<char>::empty());
    assert(Seq::<char>::empty() + line == line);
}

/// An object that arrives line by line comes out once and whole: while its
/// lines arrive, a network source with an empty buffer hands on nothing
/// and keeps what it has read; with the last line it hands on the object,
/// its lines joined, and keeps nothing. The lines end with line feeds,
/// the first of them holds the beginning of the object and the last its
/// end.
pub proof fn lemma_object_over_lines(lines: Seq<Seq<char>>)
    requires
        lines.len() >= 1,
        end_with_breaks(lines),
        join_lines(lines[0]).len() > 0,
        join_lines(lines.last()).len() > 0,
        is_object_frame(join_lines(concat(lines))),
    ensures
        forall|k: int|
            0 <= k < lines.len() ==> #[trigger] feed(Seq::empty(), lines.take(k)) == (
                Seq::<Seq<char>>::empty(),
                concat(lines.take(k)),
            ),
        feed(Seq::empty(), lines) == (seq![join_lines(concat(lines))], Seq::<char>::empty()),
{
    assert forall|k: int| 0 <= k < lines.len() implies #[trigger] feed(
        Seq::empty(),
        lines.take(k),
    ) == (Seq::<Seq<char>>::empty(), concat(lines.take(k))) by {
        lemma_feed_part(lines, k);
    }
    let n = lines.len() as int;
    lemma_feed_part(lines, n - 1);
    assert(lines.take(n - 1) == lines.drop_last());
    let whole = join_lines(concat(lines));
    lemma_first_object_of_frame(whole, Seq::empty());
    assert(whole + Seq::<char>::empty() == whole);
    assert(Seq::<Seq<char>>::empty().push(whole) == seq![whole]);
}

} // verus!
