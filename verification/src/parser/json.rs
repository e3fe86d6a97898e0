//! The parser of lines that hold one JSON object.

use vstd::prelude::*;
use crate::error::{ErrorKind, LogAnalyzerError};
use crate::ingest::{LogLine, LogLineView};
use crate::json::{
    json_document, lookup, lookup_text, parse_json, without, Fields, JsonDocument, JsonShape, JsonValue,
    JsonValueView, Metadata,
};
use crate::parser::{agrees, Level, LogParser, ParsedLog, ParsedLogView};
use crate::text::laws::lemma_trim_of_tight;
use crate::text::{
    fold_case, spells, spells_word, tight, to_chars, to_text, trim, trim_bounds,
};
use crate::time::{rfc3339_instant, Timestamp};

verus! {

/// Reads a line as one JSON object.
#[derive(Clone, Copy, Debug, PartialEq, Eq)]
pub struct JsonParser;

/// The level that a text names: `info`, `error`, `warn` or `warning`, in
/// any case; a text that spells none of them names no level.
pub open spec fn level_of(s: Seq<char>) -> Option<Level> {
    if spells(s, seq!['i', 'n', 'f', 'o']) {
        Some(Level::Info)
    } else if spells(s, seq!['e', 'r', 'r', 'o', 'r']) {
        Some(Level::Error)
    } else if spells(s, seq!['w', 'a', 'r', 'n']) || spells(
        s,
        seq!['w', 'a', 'r', 'n', 'i', 'n', 'g'],
    ) {
        Some(Level::Warn)
    } else {
        None
    }
}

/// `s` without its line feeds and carriage returns.
pub open spec fn strip_breaks(s: Seq<char>) -> Seq<char> {
    s.filter(|c: char| c != '\n' && c != '\r')
}

/// A payload made ready for the JSON parser: trimmed, and its line feeds
/// and carriage returns taken out. Every other character stays, in its
/// place among the others.
pub open spec fn normalized(content: Seq<char>) -> Seq<char> {
    strip_breaks(trim(content))
}

/// Whether a field of this name has a place of its own in a record.
pub open spec fn promoted(key: Seq<char>) -> bool {
    key == "message"@ || key == "level"@ || key == "timestamp"@
}

/// The instant that the `timestamp` field of `fields` denotes.
pub open spec fn stamp_of(fields: Fields) -> Option<Timestamp> {
    match lookup_text(fields, "timestamp"@) {
        Some(s) => Timestamp::of_parts(rfc3339_instant(s)),
        None => None,
    }
}

/// The record of an object with the fields `fields`, whose `timestamp`
/// field denotes `stamp`, framed at `fallback`.
pub open spec fn record_of(fields: Fields, stamp: Option<Timestamp>, fallback: Timestamp)
    -> ParsedLogView {
    ParsedLogView {
        timestamp: Some(
            match stamp {
                Some(t) => t,
                None => fallback,
            },
        ),
        level: match lookup_text(fields, "level"@) {
            Some(s) => level_of(s),
            None => None,
        },
        message: match lookup_text(fields, "message"@) {
            Some(s) => s,
            None => Seq::empty(),
        },
        metadata: without(fields, |k: Seq<char>| promoted(k)),
    }
}

/// The record of a whole line, where its payload is a JSON object.
pub open spec fn parsed(log_line: LogLineView) -> Option<ParsedLogView> {
    match json_document(normalized(log_line.content)) {
        Some(JsonShape::Object(fields)) => Some(
            record_of(fields, stamp_of(fields), log_line.timestamp),
        ),
        _ => None,
    }
}

/// Looking a key up among the fields that `drop` spares finds what the
/// key holds among all fields, and nothing for a key that `drop` accepts.
pub proof fn lemma_lookup_without(fields: Fields, drop: spec_fn(Seq<char>) -> bool, key: Seq<char>)
    ensures
        lookup(without(fields, drop), key) == if drop(key) {
            None
        } else {
            lookup(fields, key)
        },
    decreases fields.len(),
{
    let keep = |f: (Seq<char>, JsonValueView)| !drop(f.0);
    if fields.len() == 0 {
        assert(fields.filter(keep).len() == 0) by {
            fields.lemma_filter_len(keep);
        }
    } else {
        let head = seq![fields[0]];
        let tail = fields.drop_first();
        assert(fields == head + tail);
        Seq::filter_distributes_over_add(head, tail, keep);
        lemma_lookup_without(tail, drop, key);
        reveal(Seq::filter);
        assert(head.drop_last().filter(keep) == Seq::<(Seq<char>, JsonValueView)>::empty());
        if keep(fields[0]) {
            assert(head.filter(keep) == head);
            assert((head + tail.filter(keep)).drop_first() == tail.filter(keep));
        } else {
            assert(head.filter(keep) == Seq::<(Seq<char>, JsonValueView)>::empty());
            assert(Seq::<(Seq<char>, JsonValueView)>::empty() + tail.filter(keep) == tail.filter(
                keep,
            ));
        }
    }
}

/// The round trip of a payload: the metadata of its record are the
/// payload's fields without `message`, `level` and `timestamp`, in their
/// order. Under each of these three names the metadata hold nothing, and
/// under every other name what the payload holds.
pub proof fn lemma_metadata_round_trip(
    fields: Fields,
    stamp: Option<Timestamp>,
    fallback: Timestamp,
    key: Seq<char>,
)
    ensures
        record_of(fields, stamp, fallback).metadata == without(fields, |k: Seq<char>| promoted(k)),
        lookup(record_of(fields, stamp, fallback).metadata, "message"@) is None,
        lookup(record_of(fields, stamp, fallback).metadata, "level"@) is None,
        lookup(record_of(fields, stamp, fallback).metadata, "timestamp"@) is None,
        !promoted(key) ==> lookup(record_of(fields, stamp, fallback).metadata, key) == lookup(
            fields,
            key,
        ),
{
    let drop = |k: Seq<char>| promoted(k);
    lemma_lookup_without(fields, drop, "message"@);
    lemma_lookup_without(fields, drop, "level"@);
    lemma_lookup_without(fields, drop, "timestamp"@);
    lemma_lookup_without(fields, drop, key);
}

/// Normalizing changes the layout only: a payload that neither begins nor
/// ends with whitespace and holds no line break is left as it is, and
/// whatever the payload, what is left holds no line break.
pub proof fn lemma_normalized_keeps_text(content: Seq<char>)
    ensures
        tight(content) && (forall|i: int|
            0 <= i < content.len() ==> #[trigger] content[i] != '\n' && content[i] != '\r')
            ==> normalized(content) == content,
        forall|i: int|
            0 <= i < normalized(content).len() ==> #[trigger] normalized(content)[i] != '\n'
                && normalized(content)[i] != '\r',
{
    let keep = |c: char| c != '\n' && c != '\r';
    assert forall|i: int| 0 <= i < normalized(content).len() implies #[trigger] normalized(
        content,
    )[i] != '\n' && normalized(content)[i] != '\r' by {
        trim(content).lemma_filter_pred(keep, i);
    }
    if tight(content) && (forall|i: int|
        0 <= i < content.len() ==> #[trigger] content[i] != '\n' && content[i] != '\r') {
        lemma_trim_of_tight(content);
        lemma_filter_keeps_all(content, keep);
    }
}

/// A filter that accepts every element of a sequence leaves it as it is.
pub proof fn lemma_filter_keeps_all(s: Seq<char>, keep: spec_fn(char) -> bool)
    requires
        forall|i: int| 0 <= i < s.len() ==> keep(#[trigger] s[i]),
    ensures
        s.filter(keep) == s,
    decreases s.len(),
{
    reveal(Seq::filter);
    if s.len() > 0 {
        assert forall|i: int| 0 <= i < s.drop_last().len() implies keep(
            #[trigger] s.drop_last()[i],
        ) by {
            assert(s.drop_last()[i] == s[i]);
        }
        lemma_filter_keeps_all(s.drop_last(), keep);
        assert(s.drop_last().push(s.last()) == s);
    }
}

/// Level decoding sets the case of ASCII letters aside: two texts that
/// differ in case only name the same level.
pub proof fn lemma_level_ignores_case(s: Seq<char>, t: Seq<char>)
    requires
        s.len() == t.len(),
        forall|i: int| 0 <= i < s.len() ==> fold_case(#[trigger] s[i]) == fold_case(t[i]),
    ensures
        level_of(s) == level_of(t),
{
    lemma_spells_ignores_case(s, t, seq!['i', 'n', 'f', 'o']);
    lemma_spells_ignores_case(s, t, seq!['e', 'r', 'r', 'o', 'r']);
    lemma_spells_ignores_case(s, t, seq!['w', 'a', 'r', 'n']);
    lemma_spells_ignores_case(s, t, seq!['w', 'a', 'r', 'n', 'i', 'n', 'g']);
}

/// Two texts that differ in case only spell the same words.
pub proof fn lemma_spells_ignores_case(s: Seq<char>, t: Seq<char>, word: Seq<char>)
    requires
        s.len() == t.len(),
        forall|i: int| 0 <= i < s.len() ==> fold_case(#[trigger] s[i]) == fold_case(t[i]),
    ensures
        spells(s, word) == spells(t, word),
{
    if spells(s, word) {
        assert forall|i: int| 0 <= i < t.len() implies fold_case(#[trigger] t[i])
            == word[i] as u32 by {
            assert(fold_case(s[i]) == word[i] as u32);
        }
    }
    if spells(t, word) {
        assert forall|i: int| 0 <= i < s.len() implies fold_case(#[trigger] s[i])
            == word[i] as u32 by {
            assert(fold_case(t[i]) == word[i] as u32);
        }
    }
}

/// The fields of `fields` that have no place of their own in a record.
fn unpromoted(fields: &Metadata) -> (rest: Metadata)
    ensures
        rest@ == without(fields@, |k: Seq<char>| promoted(k)),
{
    let message_key = "message".to_owned();
    let level_key = "level".to_owned();
    let timestamp_key = "timestamp".to_owned();
    let ghost drop = |k: Seq<char>| promoted(k);
    let ghost keep = |f: (Seq<char>, JsonValueView)| !drop(f.0);
    let mut kept: Vec<(String, JsonValue)> = Vec::new();
    let mut i: usize = 0;
    proof {
        reveal(Seq::filter);
        assert(fields@.take(0).filter(keep) == Seq::<(Seq<char>, JsonValueView)>::empty());
        assert(kept@.map_values(|f: (String, JsonValue)| (f.0@, f.1@)) == fields@.take(0).filter(
            keep,
        ));
    }
    while i < fields.fields.len()
        invariant
            i <= fields.fields.len(),
            message_key@ == "message"@,
            level_key@ == "level"@,
            timestamp_key@ == "timestamp"@,
            drop == |k: Seq<char>| promoted(k),
            keep == |f: (Seq<char>, JsonValueView)| !drop(f.0),
            kept@.map_values(|f: (String, JsonValue)| (f.0@, f.1@)) == fields@.take(
                i as int,
            ).filter(keep),
        decreases fields.fields.len() - i,
    {
        let entry = &fields.fields[i];
        let ghost before = kept@.map_values(|f: (String, JsonValue)| (f.0@, f.1@));
        proof {
            reveal(Seq::filter);
            assert(fields@.take(i + 1).drop_last() == fields@.take(i as int));
            assert(fields@.take(i + 1).last() == (entry.0@, entry.1@));
        }
        if !(entry.0 == message_key || entry.0 == level_key || entry.0 == timestamp_key) {
            kept.push((entry.0.clone(), entry.1.duplicate()));
            assert(kept@.map_values(|f: (String, JsonValue)| (f.0@, f.1@)) == before.push(
                (entry.0@, entry.1@),
            ));
        }
        i += 1;
    }
    assert(fields@.take(i as int) == fields@);
    Metadata { fields: kept }
}

impl JsonParser {
    /// The parser. It holds nothing.
    pub fn new() -> Self {
        JsonParser
    }

    /// A payload made ready for the JSON parser: trimmed, and its line
    /// feeds and carriage returns taken out. Nothing else changes: spaces
    /// stay as they are, inside string literals and outside.
    pub fn normalize_json(content: &str) -> (text: String)
        ensures
            text@ == normalized(content@),
    {
        let v = to_chars(content);
        let (a, b) = trim_bounds(&v, 0, v.len());
        assert(v@.subrange(0, v.len() as int) == v@);
        let ghost trimmed = v@.subrange(a as int, b as int);
        let ghost keep = |c: char| c != '\n' && c != '\r';
        let mut stripped: Vec<char> = Vec::new();
        let mut i: usize = a;
        proof {
            reveal(Seq::filter);
            assert(v@.subrange(a as int, a as int).filter(keep) == Seq::<char>::empty());
        }
        while i < b
            invariant
                a <= i <= b <= v.len(),
                keep == |c: char| c != '\n' && c != '\r',
                stripped@ == v@.subrange(a as int, i as int).filter(keep),
            decreases b - i,
        {
            proof {
                reveal(Seq::filter);
                assert(v@.subrange(a as int, i + 1).drop_last() == v@.subrange(a as int, i as int));
            }
            let c = v[i];
            if c != '\n' && c != '\r' {
                stripped.push(c);
            }
            i += 1;
        }
        assert(v@.subrange(a as int, i as int) == trimmed);
        let text = to_text(&stripped, 0, stripped.len());
        assert(stripped@.subrange(0, stripped.len() as int) == stripped@);
        text
    }

    /// The record of an object with the fields `fields`, whose `timestamp`
    /// field denotes `stamp`, framed at `fallback`. The message is the
    /// string of the field `message`, else empty; the level is the one
    /// that the string of the field `level` names; the timestamp is
    /// `stamp`, else `fallback`; the metadata are the other fields.
    pub fn assemble(fields: &Metadata, stamp: Option<Timestamp>, fallback: Timestamp) -> (log:
        ParsedLog)
        ensures
            log@ == record_of(fields@, stamp, fallback),
    {
        let message_key = "message".to_owned();
        let level_key = "level".to_owned();
        let message = match fields.get_text(&message_key) {
            Some(s) => s.clone(),
            None => String::new(),
        };
        let level = match fields.get_text(&level_key) {
            Some(s) => JsonParser::level_parse(s.as_str()),
            None => None,
        };
        let timestamp = match stamp {
            Some(t) => t,
            None => fallback,
        };
        ParsedLog { timestamp: Some(timestamp), level, message, metadata: unpromoted(fields) }
    }

    /// The record of a parsed payload framed at `fallback`. A payload that
    /// is no object is refused.
    pub fn from_document(doc: &JsonDocument, fallback: Timestamp) -> (r: Result<
        ParsedLog,
        LogAnalyzerError,
    >)
        ensures
            match doc {
                JsonDocument::Object(m) => r matches Ok(log) && log@ == record_of(
                    m@,
                    stamp_of(m@),
                    fallback,
                ),
                JsonDocument::Other => r matches Err(LogAnalyzerError::LogFormatInvalid(detail))
                    && detail@ == "the payload is not a JSON object"@,
            },
    {
        match doc {
            JsonDocument::Object(fields) => {
                let timestamp_key = "timestamp".to_owned();
                let stamp = match fields.get_text(&timestamp_key) {
                    Some(s) => Timestamp::parse_rfc3339(s.as_str()),
                    None => None,
                };
                Ok(JsonParser::assemble(fields, stamp, fallback))
            },
            JsonDocument::Other => Err(
                LogAnalyzerError::LogFormatInvalid("the payload is not a JSON object".to_owned()),
            ),
        }
    }

    /// The level that `level_str` names.
    pub fn level_parse(level_str: &str) -> (level: Option<Level>)
        ensures
            level == level_of(level_str@),
    {
        let s = to_chars(level_str);
        let info: Vec<char> = vec!['i', 'n', 'f', 'o'];
        let error: Vec<char> = vec!['e', 'r', 'r', 'o', 'r'];
        let warn: Vec<char> = vec!['w', 'a', 'r', 'n'];
        let warning: Vec<char> = vec!['w', 'a', 'r', 'n', 'i', 'n', 'g'];
        assert(info@ == seq!['i', 'n', 'f', 'o']);
        assert(error@ == seq!['e', 'r', 'r', 'o', 'r']);
        assert(warn@ == seq!['w', 'a', 'r', 'n']);
        assert(warning@ == seq!['w', 'a', 'r', 'n', 'i', 'n', 'g']);
        if spells_word(&s, &info) {
            Some(Level::Info)
        } else if spells_word(&s, &error) {
            Some(Level::Error)
        } else if spells_word(&s, &warn) || spells_word(&s, &warning) {
            Some(Level::Warn)
        } else {
            None
        }
    }
}

impl LogParser for JsonParser {
    /// A line whose payload is a JSON object gives its record, any other
    /// line `LogFormatInvalid`. The instant plays no part.
    open spec fn outcome(&self, log_line: LogLineView, now: Timestamp) -> Result<
        ParsedLogView,
        ErrorKind,
    > {
        match parsed(log_line) {
            Some(record) => Ok(record),
            None => Err(ErrorKind::LogFormatInvalid),
        }
    }

    fn parse_at(&self, log_line: LogLine, now: Timestamp) -> (r: Result<
        ParsedLog,
        LogAnalyzerError,
    >) {
        let text = JsonParser::normalize_json(log_line.content.as_str());
        match parse_json(text.as_str()) {
            Ok(doc) => JsonParser::from_document(&doc, log_line.timestamp),
            Err(message) => Err(LogAnalyzerError::LogFormatInvalid(message)),
        }
    }

    fn parse(&self, log_line: LogLine) -> (r: Result<ParsedLog, LogAnalyzerError>) {
        let framed = log_line.timestamp;
        let r = self.parse_at(log_line, framed);
        assert(agrees(self.outcome(log_line@, Timestamp { secs: 0, nanos: 0 }), r));
        r
    }
}

} // verus!
