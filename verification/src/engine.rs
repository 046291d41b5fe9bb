//! The session wait engine.
//!
//! One wait cycle accumulates decoded line frames into the session buffer
//! until a prompt pattern matches, turning pages on the way. The engine is
//! driven by events: each complete or trailing line frame the stream yields,
//! the stream closing, or the per-call deadline elapsing. Matching is
//! evaluated against each incoming line (not the whole buffer): a line on
//! which the pagination marker matches is a page boundary and asks for one
//! continuation keystroke; otherwise the prompt patterns are tried in
//! declared order and the first that matches ends the cycle. On a match the
//! whole buffer is post-processed: every pagination-marker occurrence is
//! removed, then every occurrence of each prompt pattern, and the result is
//! trimmed; the buffer is left empty for the next cycle.

use vstd::prelude::*;

use crate::decode::{decode_with, spec_decode, LegacyEncoding};
use crate::error::TelnetError;
use crate::pattern::{regex_matches, regex_strip, Pattern};
use crate::text::{trim, trim_spec};

verus! {

/// What the driving loop observed on the stream.
#[derive(Debug)]
pub enum WaitEvent {
    /// A line frame: the bytes of one line, or of a trailing partial line
    /// handed over when the stream goes quiet.
    Frame(Vec<u8>),
    /// The stream closed before any prompt matched.
    Closed,
    /// The per-call deadline elapsed while waiting for the next frame.
    TimedOut,
}

/// Where one event leaves the wait cycle.
#[derive(Debug)]
pub enum LineOutcome {
    /// Nothing matched: keep reading.
    Accumulating,
    /// The pagination marker matched the line: send one continuation
    /// keystroke, then keep reading.
    PageBoundary,
    /// A prompt matched the line: the cycle is over.
    Matched {
        /// The index of the first configured prompt that matched.
        prompt_index: usize,
        /// The accumulated output, markers and prompts removed and trimmed.
        output: String,
    },
}

/// The source texts of a sequence of compiled patterns.
pub open spec fn pattern_views(ps: Seq<Pattern>) -> Seq<Seq<char>> {
    ps.map_values(|p: Pattern| p@)
}

/// The first prompt pattern, in declared order, that matches the text.
pub open spec fn first_prompt_match(prompts: Seq<Seq<char>>, text: Seq<char>) -> Option<int>
    decreases prompts.len(),
{
    if prompts.len() == 0 {
        None
    } else if regex_matches(prompts[0], text) {
        Some(0)
    } else {
        match first_prompt_match(prompts.drop_first(), text) {
            Some(i) => Some(i + 1),
            None => None,
        }
    }
}

/// `first_prompt_match` is pinned down by which patterns match: it is the
/// least matching index. A pattern declared first therefore wins, even when
/// a later one matches too.
pub proof fn lemma_first_prompt_match_at(prompts: Seq<Seq<char>>, text: Seq<char>, i: int)
    requires
        0 <= i < prompts.len(),
        regex_matches(prompts[i], text),
        forall|j: int| 0 <= j < i ==> !regex_matches(prompts[j], text),
    ensures
        first_prompt_match(prompts, text) == Some(i),
    decreases prompts.len(),
{
    if i > 0 {
        lemma_first_prompt_match_at(prompts.drop_first(), text, i - 1);
    }
}

/// Text that no prompt matches ends no cycle.
pub proof fn lemma_no_prompt_match(prompts: Seq<Seq<char>>, text: Seq<char>)
    requires
        forall|j: int| 0 <= j < prompts.len() ==> !regex_matches(prompts[j], text),
    ensures
        first_prompt_match(prompts, text) is None,
    decreases prompts.len(),
{
    if prompts.len() > 0 {
        lemma_no_prompt_match(prompts.drop_first(), text);
    }
}

/// The text with every occurrence of each pattern removed, in order.
pub open spec fn strip_patterns(prompts: Seq<Seq<char>>, text: Seq<char>) -> Seq<char>
    decreases prompts.len(),
{
    if prompts.len() == 0 {
        text
    } else {
        strip_patterns(prompts.drop_first(), regex_strip(prompts[0], text))
    }
}

/// What a completed cycle returns: the buffer with every pagination-marker
/// occurrence removed, then every occurrence of each prompt pattern, the
/// whole trimmed of surrounding whitespace.
pub open spec fn cleaned_output(
    separator: Seq<char>,
    prompts: Seq<Seq<char>>,
    buffer: Seq<char>,
) -> Seq<char> {
    trim_spec(strip_patterns(prompts, regex_strip(separator, buffer)))
}

/// The wait engine: the configured patterns and encodings, and the
/// accumulation buffer of the cycle in progress.
pub struct SessionEngine {
    prompts: Vec<Pattern>,
    page_separator: Pattern,
    encodings: Vec<LegacyEncoding>,
    buffer: String,
}

impl SessionEngine {
    /// The source texts of the configured prompt patterns, in declared
    /// order.
    pub closed spec fn prompts_view(&self) -> Seq<Seq<char>> {
        pattern_views(self.prompts@)
    }

    /// The source text of the pagination-marker pattern.
    pub closed spec fn separator_view(&self) -> Seq<char> {
        self.page_separator@
    }

    /// The legacy encodings tried after UTF-8, in order.
    pub closed spec fn encodings_view(&self) -> Seq<LegacyEncoding> {
        self.encodings@
    }

    /// The text accumulated by the cycle in progress.
    pub closed spec fn buffer_view(&self) -> Seq<char> {
        self.buffer@
    }

    /// The configuration carried unchanged across events.
    pub open spec fn same_config(&self, other: &SessionEngine) -> bool {
        self.prompts_view() == other.prompts_view() && self.separator_view()
            == other.separator_view() && self.encodings_view() == other.encodings_view()
    }

    /// A fresh engine around compiled patterns: the buffer starts empty.
    pub fn new(
        prompts: Vec<Pattern>,
        page_separator: Pattern,
        encodings: Vec<LegacyEncoding>,
    ) -> (r: SessionEngine)
        ensures
            r.prompts_view() == pattern_views(prompts@),
            r.separator_view() == page_separator@,
            r.encodings_view() == encodings@,
            r.buffer_view() == Seq::<char>::empty(),
    {
        SessionEngine { prompts, page_separator, encodings, buffer: String::new() }
    }

    /// Drive the cycle by one event, testing the configured prompts in
    /// declared order.
    ///
    /// A frame is decoded and appended to the buffer; the pagination marker
    /// is tried on the line first, then the prompts; the first prompt that
    /// matches ends the cycle with the cleaned buffer. A frame that no
    /// configured encoding can decode, the stream closing and the deadline
    /// elapsing each fail the cycle, leaving the buffer as it stands.
    pub fn step(&mut self, ev: WaitEvent) -> (r: Result<LineOutcome, TelnetError>)
        ensures
            final (self).same_config(old(self)),
            match ev {
                WaitEvent::Closed => r matches Err(e) && (e matches TelnetError::NoMoreData)
                    && final (self).buffer_view() == old(self).buffer_view(),
                WaitEvent::TimedOut => r matches Err(e) && (e matches TelnetError::Timeout(m)
                    && m@ == "read next framed"@) && final (self).buffer_view() == old(
                    self,
                ).buffer_view(),
                WaitEvent::Frame(line) => match spec_decode(old(self).encodings_view(), line@) {
                    Option::None => r matches Err(e) && (e matches TelnetError::ParseError(n)
                        && vstd::utf8::partial_valid_utf8(line@, n as int)) && final (self).buffer_view() == old(self).buffer_view(),
                    Option::Some(text) => r matches Ok(out) && {
                        let grown = old(self).buffer_view() + text;
                        match out {
                            LineOutcome::Accumulating => final (self).buffer_view() == grown
                                && !regex_matches(old(self).separator_view(), text)
                                && first_prompt_match(old(self).prompts_view(), text) is None,
                            LineOutcome::PageBoundary => final (self).buffer_view() == grown
                                && regex_matches(old(self).separator_view(), text),
                            LineOutcome::Matched { prompt_index, output } => !regex_matches(
                                old(self).separator_view(),
                                text,
                            ) && first_prompt_match(old(self).prompts_view(), text) == Some(
                                prompt_index as int,
                            ) && output@ == cleaned_output(
                                old(self).separator_view(),
                                old(self).prompts_view(),
                                grown,
                            ) && final (self).buffer_view() == Seq::<char>::empty(),
                        }
                    },
                },
            },
    {
        match ev {
            WaitEvent::Closed => Err(TelnetError::NoMoreData),
            WaitEvent::TimedOut => Err(TelnetError::Timeout("read next framed".to_owned())),
            WaitEvent::Frame(line) => self.frame(line),
        }
    }

    /// Handle one line frame against the configured prompts.
    fn frame(&mut self, line: Vec<u8>) -> (r: Result<LineOutcome, TelnetError>)
        ensures
            final (self).same_config(old(self)),
            match spec_decode(old(self).encodings_view(), line@) {
                Option::None => r matches Err(e) && (e matches TelnetError::ParseError(n)
                    && vstd::utf8::partial_valid_utf8(line@, n as int)) && final (self).buffer_view() == old(self).buffer_view(),
                Option::Some(text) => r matches Ok(out) && {
                    let grown = old(self).buffer_view() + text;
                    match out {
                        LineOutcome::Accumulating => final (self).buffer_view() == grown
                            && !regex_matches(old(self).separator_view(), text)
                            && first_prompt_match(old(self).prompts_view(), text) is None,
                        LineOutcome::PageBoundary => final (self).buffer_view() == grown
                            && regex_matches(old(self).separator_view(), text),
                        LineOutcome::Matched { prompt_index, output } => !regex_matches(
                            old(self).separator_view(),
                            text,
                        ) && first_prompt_match(old(self).prompts_view(), text) == Some(
                            prompt_index as int,
                        ) && output@ == cleaned_output(
                            old(self).separator_view(),
                            old(self).prompts_view(),
                            grown,
                        ) && final (self).buffer_view() == Seq::<char>::empty(),
                    }
                },
            },
    {
        let text = match decode_with(self.encodings.as_slice(), line.as_slice()) {
            Ok(text) => text,
            Err(e) => {
                return Err(e);
            },
        };
        self.buffer.append(text.as_str());
        if self.page_separator.is_match(text.as_str()) {
            return Ok(LineOutcome::PageBoundary);
        }
        let n = self.prompts.len();
        let mut i: usize = 0;
        while i < n
            invariant
                0 <= i <= n,
                n == self.prompts@.len(),
                self.same_config(old(self)),
                self.buffer_view() == old(self).buffer_view() + text@,
                spec_decode(old(self).encodings_view(), line@) == Some(text@),
                !regex_matches(old(self).separator_view(), text@),
                forall|j: int|
                    0 <= j < i ==> !regex_matches(
                        #[trigger] pattern_views(self.prompts@)[j],
                        text@,
                    ),
            decreases n - i,
        {
            if self.prompts[i].is_match(text.as_str()) {
                proof {
                    lemma_first_prompt_match_at(pattern_views(self.prompts@), text@, i as int);
                }
                let output = self.finish();
                return Ok(LineOutcome::Matched { prompt_index: i, output });
            }
            i = i + 1;
        }
        proof {
            lemma_no_prompt_match(pattern_views(self.prompts@), text@);
        }
        Ok(LineOutcome::Accumulating)
    }

    /// Drive the cycle by one event, testing one explicit prompt in place of
    /// the configured list; a match cleans the buffer with that prompt
    /// alone.
    pub fn step_with(&mut self, prompt: &Pattern, ev: WaitEvent) -> (r: Result<
        LineOutcome,
        TelnetError,
    >)
        ensures
            final (self).same_config(old(self)),
            match ev {
                WaitEvent::Closed => r matches Err(e) && (e matches TelnetError::NoMoreData)
                    && final (self).buffer_view() == old(self).buffer_view(),
                WaitEvent::TimedOut => r matches Err(e) && (e matches TelnetError::Timeout(m)
                    && m@ == "read next framed"@) && final (self).buffer_view() == old(
                    self,
                ).buffer_view(),
                WaitEvent::Frame(line) => match spec_decode(old(self).encodings_view(), line@) {
                    Option::None => r matches Err(e) && (e matches TelnetError::ParseError(n)
                        && vstd::utf8::partial_valid_utf8(line@, n as int)) && final (self).buffer_view() == old(self).buffer_view(),
                    Option::Some(text) => r matches Ok(out) && {
                        let grown = old(self).buffer_view() + text;
                        match out {
                            LineOutcome::Accumulating => final (self).buffer_view() == grown
                                && !regex_matches(old(self).separator_view(), text)
                                && !regex_matches(prompt@, text),
                            LineOutcome::PageBoundary => final (self).buffer_view() == grown
                                && regex_matches(old(self).separator_view(), text),
                            LineOutcome::Matched { prompt_index, output } => !regex_matches(
                                old(self).separator_view(),
                                text,
                            ) && regex_matches(prompt@, text) && prompt_index == 0 && output@
                                == cleaned_output(
                                old(self).separator_view(),
                                seq![prompt@],
                                grown,
                            ) && final (self).buffer_view() == Seq::<char>::empty(),
                        }
                    },
                },
            },
    {
        match ev {
            WaitEvent::Closed => Err(TelnetError::NoMoreData),
            WaitEvent::TimedOut => Err(TelnetError::Timeout("read next framed".to_owned())),
            WaitEvent::Frame(line) => {
                let text = match decode_with(self.encodings.as_slice(), line.as_slice()) {
                    Ok(text) => text,
                    Err(e) => {
                        return Err(e);
                    },
                };
                self.buffer.append(text.as_str());
                if self.page_separator.is_match(text.as_str()) {
                    return Ok(LineOutcome::PageBoundary);
                }
                if prompt.is_match(text.as_str()) {
                    let stripped = self.page_separator.strip_all(self.buffer.as_str());
                    let stripped = prompt.strip_all(stripped.as_str());
                    let output = trim(stripped.as_str());
                    self.buffer = String::new();
                    proof {
                        reveal_with_fuel(strip_patterns, 2);
                        let one = seq![prompt@];
                        assert(one[0] == prompt@);
                        assert(one.drop_first() =~= Seq::<Seq<char>>::empty());
                    }
                    return Ok(LineOutcome::Matched { prompt_index: 0, output });
                }
                Ok(LineOutcome::Accumulating)
            },
        }
    }

    /// Post-process and clear the buffer on a prompt match: remove every
    /// marker occurrence, then every prompt-pattern occurrence, and trim.
    fn finish(&mut self) -> (output: String)
        ensures
            final (self).same_config(old(self)),
            final (self).buffer_view() == Seq::<char>::empty(),
            output@ == cleaned_output(
                old(self).separator_view(),
                old(self).prompts_view(),
                old(self).buffer_view(),
            ),
    {
        let ghost views = pattern_views(self.prompts@);
        let mut res = self.page_separator.strip_all(self.buffer.as_str());
        let n = self.prompts.len();
        let mut k: usize = 0;
        proof {
            assert(views.skip(0) =~= views);
        }
        while k < n
            invariant
                0 <= k <= n,
                n == self.prompts@.len(),
                views == pattern_views(self.prompts@),
                strip_patterns(views, regex_strip(self.page_separator@, self.buffer@))
                    == strip_patterns(views.skip(k as int), res@),
            decreases n - k,
        {
            proof {
                assert(views.skip(k as int)[0] == views[k as int]);
                assert(views.skip(k as int).drop_first() =~= views.skip(k as int + 1));
            }
            res = self.prompts[k].strip_all(res.as_str());
            k = k + 1;
        }
        proof {
            assert(views.skip(n as int).len() == 0);
        }
        let output = trim(res.as_str());
        self.buffer = String::new();
        output
    }
}

} // verus!
