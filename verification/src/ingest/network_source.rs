//! Framing of JSON objects and plain lines read from a TCP stream.

use vstd::prelude::*;
use vstd::string::StringExecFns;
use crate::error::LogAnalyzerError;
use crate::ingest::{answered, closed, Framed, LogLine, SourceState, SourceView};
use crate::json::{is_json, is_valid_json};
use crate::text::{
    has_brace, holds_brace, join_lines, join_trimmed_lines, to_chars, to_text, trim, trimmed,
};
use crate::time::Timestamp;

verus! {

/// Where a scan stands between two characters.
pub struct ScanState {
    /// How many objects are open.
    pub depth: nat,
    /// Whether the scan is inside a string literal.
    pub in_string: bool,
    /// Whether the next character is the body of a backslash escape.
    pub escape_next: bool,
}

/// The state before the first character.
pub open spec fn scan_start() -> ScanState {
    ScanState { depth: 0, in_string: false, escape_next: false }
}

/// The state after reading `c` in state `st`.
pub open spec fn scan_step(st: ScanState, c: char) -> ScanState {
    if st.escape_next {
        ScanState { escape_next: false, ..st }
    } else if c == '\\' && st.in_string {
        ScanState { escape_next: true, ..st }
    } else if c == '"' {
        ScanState { in_string: !st.in_string, ..st }
    } else if c == '{' && !st.in_string {
        ScanState { depth: st.depth + 1, ..st }
    } else if c == '}' && !st.in_string && st.depth > 0 {
        ScanState { depth: (st.depth - 1) as nat, ..st }
    } else {
        st
    }
}

/// The state after the first `n` characters of `s`.
pub open spec fn scan_state(s: Seq<char>, n: int) -> ScanState
    decreases n,
{
    if n <= 0 {
        scan_start()
    } else {
        scan_step(scan_state(s, n - 1), s[n - 1])
    }
}

/// Whether `s[i]` is a brace read outside any string literal and escape.
pub open spec fn structural(s: Seq<char>, i: int) -> bool {
    &&& 0 <= i < s.len()
    &&& !scan_state(s, i).escape_next
    &&& !scan_state(s, i).in_string
}

/// Whether `s[i]` opens an object.
pub open spec fn opens_at(s: Seq<char>, i: int) -> bool {
    structural(s, i) && s[i] == '{'
}

/// Whether `s[i]` closes the outermost open object.
pub open spec fn closes_at(s: Seq<char>, i: int) -> bool {
    structural(s, i) && s[i] == '}' && scan_state(s, i).depth == 1
}

/// Whether `i` is the first place where `s` opens an object.
pub open spec fn first_open(s: Seq<char>, i: int) -> bool {
    opens_at(s, i) && forall|k: int| 0 <= k < i ==> !opens_at(s, k)
}

/// Whether `i` is the first place where `s` closes an outermost object.
pub open spec fn first_close(s: Seq<char>, i: int) -> bool {
    closes_at(s, i) && forall|k: int| 0 <= k < i ==> !closes_at(s, k)
}

/// The first complete top-level object of `s` with what follows it: the
/// text from the first opening brace to the first brace that closes the
/// outermost object, where that text is JSON. `None` where no object closes
/// or the text is not JSON.
pub open spec fn first_object(s: Seq<char>) -> Option<(Seq<char>, Seq<char>)> {
    if exists|i: int, j: int| first_open(s, i) && first_close(s, j) {
        let (i, j) = choose|i: int, j: int| first_open(s, i) && first_close(s, j);
        let candidate = s.subrange(i, j + 1);
        if is_json(candidate) {
            Some((candidate, s.skip(j + 1)))
        } else {
            None
        }
    } else {
        None
    }
}

/// What the framer makes of a buffer: the first object of its joined lines.
pub open spec fn extract(buffer: Seq<char>) -> Option<(Seq<char>, Seq<char>)> {
    first_object(join_lines(buffer))
}

/// The first opening brace of a text is unique.
pub proof fn lemma_first_open_unique(s: Seq<char>, a: int, b: int)
    requires
        first_open(s, a),
        first_open(s, b),
    ensures
        a == b,
{
    if a < b {
        assert(!opens_at(s, a));
    } else if b < a {
        assert(!opens_at(s, b));
    }
}

/// The first closing brace of a text is unique.
pub proof fn lemma_first_close_unique(s: Seq<char>, a: int, b: int)
    requires
        first_close(s, a),
        first_close(s, b),
    ensures
        a == b,
{
    if a < b {
        assert(!closes_at(s, a));
    } else if b < a {
        assert(!closes_at(s, b));
    }
}

/// Where `s` opens at `i` first and closes at `j` first, `first_object`
/// speaks of the text between them.
pub proof fn lemma_first_object(s: Seq<char>, i: int, j: int)
    requires
        first_open(s, i),
        first_close(s, j),
    ensures
        first_object(s) == if is_json(s.subrange(i, j + 1)) {
            Some((s.subrange(i, j + 1), s.skip(j + 1)))
        } else {
            None
        },
{
    let (a, b) = choose|a: int, b: int| first_open(s, a) && first_close(s, b);
    lemma_first_open_unique(s, a, i);
    lemma_first_close_unique(s, b, j);
}

/// Framing safety: the depth changes at a brace outside string literals
/// and nowhere else. Inside a string literal no character changes the
/// depth, a brace does not end the literal, and the character behind a
/// backslash, a quote too, leaves both the depth and the literal as they
/// are.
pub proof fn lemma_depth_changes_at_braces_only(s: Seq<char>, i: int)
    requires
        0 <= i < s.len(),
    ensures
        scan_state(s, i + 1).depth != scan_state(s, i).depth ==> opens_at(s, i) || (structural(s, i)
            && s[i] == '}'),
        scan_state(s, i).in_string ==> scan_state(s, i + 1).depth == scan_state(s, i).depth
            && !opens_at(s, i) && !closes_at(s, i),
        scan_state(s, i).in_string && (s[i] == '{' || s[i] == '}') ==> scan_state(
            s,
            i + 1,
        ).in_string,
        scan_state(s, i).escape_next ==> scan_state(s, i + 1).depth == scan_state(s, i).depth
            && scan_state(s, i + 1).in_string == scan_state(s, i).in_string,
{
}

/// What follows an extracted object is shorter than the buffer was.
pub proof fn lemma_extract_shrinks(buffer: Seq<char>)
    ensures
        extract(buffer) matches Some((_, rest)) ==> rest.len() < buffer.len(),
{
    if extract(buffer) is Some {
        let s = join_lines(buffer);
        crate::text::laws::lemma_join_lines_len(buffer);
        let (i, j) = choose|i: int, j: int| first_open(s, i) && first_close(s, j);
        assert(first_close(s, j));
    }
}

/// The framer of a network source: the text read since the last record.
#[derive(Debug)]
pub struct NetworkLogSource {
    address: String,
    state: SourceState,
    buffer: String,
}

impl View for NetworkLogSource {
    type V = SourceView;

    closed spec fn view(&self) -> SourceView {
        SourceView { state: self.state, buffer: self.buffer@, label: "network:"@ + self.address@ }
    }
}

/// What a network source makes of its buffer before it reads on: where the
/// buffer holds a complete object, it hands the object on and keeps what
/// follows.
pub open spec fn network_pending(buffer: Seq<char>) -> Framed {
    match extract(buffer) {
        Some((object, rest)) if buffer.len() > 0 => Framed { buffer: rest, content: Some(object) },
        _ => Framed { buffer, content: None },
    }
}

/// What a network source makes of a line: it adds the line to its buffer;
/// where the buffer holds a complete object now, it hands the object on
/// and keeps what follows; else, where the buffer holds no brace, it hands
/// the trimmed line on and begins anew; else it keeps the buffer.
pub open spec fn network_frame(buffer: Seq<char>, line: Seq<char>) -> Framed {
    let text = buffer + line;
    match extract(text) {
        Some((object, rest)) => Framed { buffer: rest, content: Some(object) },
        None => if has_brace(text) {
            Framed { buffer: text, content: None }
        } else {
            Framed { buffer: Seq::empty(), content: Some(trim(line)) }
        },
    }
}

/// What a network source makes of the end of its stream: it hands a
/// buffer that holds anything on, trimmed, and keeps nothing.
pub open spec fn network_flush(buffer: Seq<char>) -> Framed {
    if buffer.len() > 0 {
        Framed { buffer: Seq::empty(), content: Some(trim(buffer)) }
    } else {
        Framed { buffer, content: None }
    }
}

impl NetworkLogSource {
    /// A source for the stream at `address`, not opened yet.
    pub fn new(address: String) -> (source: NetworkLogSource)
        ensures
            source@ == (SourceView {
                state: SourceState::Unopened,
                buffer: Seq::empty(),
                label: "network:"@ + address@,
            }),
    {
        NetworkLogSource { address, state: SourceState::Unopened, buffer: String::new() }
    }

    /// The address of the stream.
    pub fn address(&self) -> (address: &String)
        ensures
            "network:"@ + address@ == self@.label,
    {
        &self.address
    }

    /// Where the source stands in its life.
    pub fn state(&self) -> (state: SourceState)
        ensures
            state == self@.state,
    {
        self.state
    }

    /// The text that was read and is not framed yet.
    pub fn buffer(&self) -> (buffer: &String)
        ensures
            buffer@ == self@.buffer,
    {
        &self.buffer
    }

    /// Notes that the stream was connected. The buffer begins empty.
    pub fn opened(&mut self)
        ensures
            final(self)@ == (SourceView {
                state: SourceState::Open,
                buffer: Seq::empty(),
                ..old(self)@
            }),
    {
        self.state = SourceState::Open;
        self.buffer = String::new();
    }

    fn label(&self) -> (label: String)
        ensures
            label@ == self@.label,
    {
        "network:".to_owned().concat(self.address.as_str())
    }

    /// Looks for a record in what was read already, at the instant `now`.
    pub fn pending(&mut self, now: Timestamp) -> (r: Result<Option<LogLine>, LogAnalyzerError>)
        ensures
            answered(old(self)@, final(self)@, r, network_pending(old(self)@.buffer), now),
    {
        match self.state {
            SourceState::Open => {},
            _ => {
                return Err(LogAnalyzerError::SourceNotInitialized);
            },
        }
        if self.buffer.as_str().is_empty() {
            return Ok(None);
        }
        match NetworkLogSource::try_extracting_json(&self.buffer) {
            Some((object, rest)) => {
                self.buffer = rest;
                Ok(Some(LogLine { content: object, source: self.label(), timestamp: now }))
            },
            None => Ok(None),
        }
    }

    /// Takes one line read from the stream, with its line ending, at the
    /// instant `now`.
    pub fn accept_line(&mut self, line: &str, now: Timestamp) -> (r: Result<
        Option<LogLine>,
        LogAnalyzerError,
    >)
        ensures
            answered(old(self)@, final(self)@, r, network_frame(old(self)@.buffer, line@), now),
    {
        match self.state {
            SourceState::Open => {},
            _ => {
                return Err(LogAnalyzerError::SourceNotInitialized);
            },
        }
        self.buffer.append(line);
        match NetworkLogSource::try_extracting_json(&self.buffer) {
            Some((object, rest)) => {
                self.buffer = rest;
                Ok(Some(LogLine { content: object, source: self.label(), timestamp: now }))
            },
            None => {
                if holds_brace(self.buffer.as_str()) {
                    Ok(None)
                } else {
                    self.buffer = String::new();
                    Ok(Some(LogLine { content: trimmed(line), source: self.label(), timestamp: now }))
                }
            },
        }
    }

    /// Takes the end of the stream at the instant `now`.
    pub fn end_of_stream(&mut self, now: Timestamp) -> (r: Result<Option<LogLine>, LogAnalyzerError>)
        ensures
            answered(old(self)@, final(self)@, r, network_flush(old(self)@.buffer), now),
    {
        match self.state {
            SourceState::Open => {},
            _ => {
                return Err(LogAnalyzerError::SourceNotInitialized);
            },
        }
        if self.buffer.as_str().is_empty() {
            return Ok(None);
        }
        let content = trimmed(self.buffer.as_str());
        self.buffer = String::new();
        Ok(Some(LogLine { content, source: self.label(), timestamp: now }))
    }

    /// Closes the source and drops its buffer.
    pub fn close(&mut self) -> (r: Result<(), LogAnalyzerError>)
        ensures
            closed(old(self)@, final(self)@, r),
    {
        match self.state {
            SourceState::Unopened => Err(LogAnalyzerError::SourceNotInitialized),
            _ => {
                self.state = SourceState::Closed;
                self.buffer = String::new();
                Ok(())
            },
        }
    }

    /// Takes the first complete top-level JSON object out of `content`.
    /// The lines of `content` are trimmed and joined first. The result is
    /// the object and what follows it in the joined text, or `None` where
    /// no object is complete yet or the candidate is not JSON.
    pub fn try_extracting_json(content: &String) -> (r: Option<(String, String)>)
        ensures
            match r {
                Some((object, rest)) => extract(content@) == Some((object@, rest@)),
                None => extract(content@) is None,
            },
    {
        let raw = to_chars(content.as_str());
        let text = join_trimmed_lines(&raw);
        let mut depth: usize = 0;
        let mut in_string: bool = false;
        let mut escape_next: bool = false;
        let mut start: Option<usize> = None;
        let mut i: usize = 0;
        while i < text.len()
            invariant
                i <= text.len(),
                text@ == join_lines(content@),
                depth <= i,
                scan_state(text@, i as int) == (ScanState {
                    depth: depth as nat,
                    in_string,
                    escape_next,
                }),
                forall|k: int| 0 <= k < i ==> !closes_at(text@, k),
                match start {
                    Some(j) => j < i && first_open(text@, j as int),
                    None => depth == 0 && forall|k: int| 0 <= k < i ==> !opens_at(text@, k),
                },
            decreases text.len() - i,
        {
            let c = text[i];
            assert(scan_state(text@, i + 1) == scan_step(scan_state(text@, i as int), c));
            if escape_next {
                escape_next = false;
            } else if c == '\\' && in_string {
                escape_next = true;
            } else if c == '"' {
                in_string = !in_string;
            } else if c == '{' && !in_string {
                if start.is_none() {
                    start = Some(i);
                }
                depth += 1;
            } else if c == '}' && !in_string && depth > 0 {
                depth -= 1;
                if depth == 0 {
                    let j = start.unwrap();
                    let candidate = to_text(&text, j, i + 1);
                    proof {
                        lemma_first_object(text@, j as int, i as int);
                    }
                    if is_valid_json(candidate.as_str()) {
                        let rest = to_text(&text, i + 1, text.len());
                        return Some((candidate, rest));
                    } else {
                        return None;
                    }
                }
            }
            i += 1;
        }
        proof {
            assert forall|a: int, b: int| !(first_open(text@, a) && first_close(text@, b)) by {
                if first_close(text@, b) {
                    assert(!closes_at(text@, b));
                }
            }
        }
        None
    }
}

} // verus!
