//! Selection of a parser by the format of a line.

use vstd::prelude::*;
use crate::error::{ErrorKind, LogAnalyzerError};
use crate::ingest::{LogLine, LogLineView};
use crate::json::{is_json, is_valid_json};
use crate::parser::json::JsonParser;
use crate::parser::plain_text::PlainTextParser;
use crate::parser::{LogParser, ParsedLog, ParsedLogView};
use crate::time::Timestamp;

verus! {

/// A parser as the registry holds it.
#[derive(Clone, Copy, Debug, PartialEq, Eq)]
pub enum RegisteredParser {
    Json(JsonParser),
    PlainText(PlainTextParser),
}

impl RegisteredParser {
    /// Whether the parser is the one for lines that are JSON (`json`) or
    /// the one for lines that are not.
    pub open spec fn handles(self, json: bool) -> bool {
        match self {
            RegisteredParser::Json(_) => json,
            RegisteredParser::PlainText(_) => !json,
        }
    }
}

/// The registered parsers, in the order of their registration.
pub struct ParserRegistry {
    parsers: Vec<RegisteredParser>,
}

impl View for ParserRegistry {
    type V = Seq<RegisteredParser>;

    closed spec fn view(&self) -> Seq<RegisteredParser> {
        self.parsers@
    }
}

/// Whether `i` is the first place of `parsers` that handles the format.
pub open spec fn first_handler(parsers: Seq<RegisteredParser>, json: bool, i: int) -> bool {
    &&& 0 <= i < parsers.len()
    &&& parsers[i].handles(json)
    &&& forall|k: int| 0 <= k < i ==> !(#[trigger] parsers[k]).handles(json)
}

/// Whether some parser of `parsers` handles the format.
pub open spec fn has_handler(parsers: Seq<RegisteredParser>, json: bool) -> bool {
    exists|i: int| 0 <= i < parsers.len() && (#[trigger] parsers[i]).handles(json)
}

impl ParserRegistry {
    /// A registry without parsers.
    pub fn new() -> (registry: ParserRegistry)
        ensures
            registry@ == Seq::<RegisteredParser>::empty(),
    {
        ParserRegistry { parsers: Vec::new() }
    }

    /// Adds `parser` behind the parsers that are registered already.
    pub fn register(&mut self, parser: RegisteredParser)
        ensures
            final(self)@ == old(self)@.push(parser),
    {
        self.parsers.push(parser);
    }

    /// Whether `content` is one JSON value.
    pub fn try_parse_json(content: &str) -> (b: bool)
        ensures
            b == is_json(content@),
    {
        is_valid_json(content)
    }

    /// The parser for `log_line`: the first registered JSON parser where
    /// the line's content is JSON, else the first registered plain-text
    /// parser; `None` where no such parser is registered.
    pub fn select_parser(&self, log_line: &LogLine) -> (r: Option<&RegisteredParser>)
        ensures
            match r {
                Some(p) => exists|i: int|
                    #![trigger first_handler(self@, is_json(log_line.content@), i)]
                    first_handler(self@, is_json(log_line.content@), i) && self@[i] == *p,
                None => !has_handler(self@, is_json(log_line.content@)),
            },
    {
        let json = ParserRegistry::try_parse_json(log_line.content.as_str());
        let mut i: usize = 0;
        while i < self.parsers.len()
            invariant
                i <= self.parsers.len(),
                json == is_json(log_line.content@),
                forall|k: int| 0 <= k < i ==> !(#[trigger] self.parsers@[k]).handles(json),
            decreases self.parsers.len() - i,
        {
            let handles = match &self.parsers[i] {
                RegisteredParser::Json(_) => json,
                RegisteredParser::PlainText(_) => !json,
            };
            if handles {
                assert(first_handler(self@, json, i as int));
                return Some(&self.parsers[i]);
            }
            i += 1;
        }
        None
    }
}

impl LogParser for ParserRegistry {
    /// A line is handed to the parser for its format, and gives
    /// `ParserNotFound` where none is registered.
    open spec fn outcome(&self, log_line: LogLineView, now: Timestamp) -> Result<
        ParsedLogView,
        ErrorKind,
    > {
        let json = is_json(log_line.content);
        if !has_handler(self@, json) {
            Err(ErrorKind::ParserNotFound)
        } else if json {
            JsonParser.outcome(log_line, now)
        } else {
            PlainTextParser.outcome(log_line, now)
        }
    }

    fn parse_at(&self, log_line: LogLine, now: Timestamp) -> (r: Result<
        ParsedLog,
        LogAnalyzerError,
    >) {
        match self.select_parser(&log_line) {
            None => Err(LogAnalyzerError::ParserNotFound),
            Some(RegisteredParser::Json(p)) => p.parse_at(log_line, now),
            Some(RegisteredParser::PlainText(p)) => p.parse_at(log_line, now),
        }
    }

    fn parse(&self, log_line: LogLine) -> (r: Result<ParsedLog, LogAnalyzerError>) {
        let now = Timestamp::now();
        self.parse_at(log_line, now)
    }
}

} // verus!
