//! Incremental frame decoder for a telnet-style byte stream.
//!
//! The decoder removes in-band option-negotiation escapes (an IAC byte
//! followed by a command, an option verb and its option byte, or a whole
//! subnegotiation block) before any byte reaches line content, buffers
//! content across partial reads, and hands out one line per call once a
//! line feed is buffered. A malformed escape never aborts the stream: the
//! unexpected byte is dropped and scanning goes on.

use vstd::prelude::*;

verus! {

/// "Interpret as command": the escape introducer.
pub const IAC: u8 = 255;

/// Begins a subnegotiation block.
pub const SB: u8 = 250;

/// Ends a subnegotiation block.
pub const SE: u8 = 240;

/// The first of the four option verbs WILL, WONT, DO, DONT.
pub const WILL: u8 = 251;

/// The last of the four option verbs.
pub const DONT: u8 = 254;

/// The line terminator on which frames are split.
pub const LINE_FEED: u8 = 10;

/// Where the escape parser stands between two bytes.
#[derive(Clone, Copy, Debug, PartialEq, Eq, Structural)]
pub enum EscapeState {
    /// Plain content.
    Data,
    /// An IAC was read; a command byte follows.
    Escaped,
    /// An option verb was read; its option byte follows.
    OptionByte,
    /// Inside a subnegotiation block.
    Subneg,
    /// An IAC was read inside a subnegotiation block.
    SubnegEscaped,
}

/// One byte through the escape parser: the next state, and the content this
/// byte contributes (one byte or none).
pub open spec fn escape_step(st: EscapeState, b: u8) -> (EscapeState, Seq<u8>) {
    match st {
        EscapeState::Data => if b == IAC {
            (EscapeState::Escaped, Seq::empty())
        } else {
            (EscapeState::Data, seq![b])
        },
        EscapeState::Escaped => if b == IAC {
            // An escaped IAC is a literal content byte.
            (EscapeState::Data, seq![IAC])
        } else if b == SB {
            (EscapeState::Subneg, Seq::empty())
        } else if WILL <= b && b <= DONT {
            (EscapeState::OptionByte, Seq::empty())
        } else {
            // Any other command byte, well-formed or not, is dropped.
            (EscapeState::Data, Seq::empty())
        },
        EscapeState::OptionByte => (EscapeState::Data, Seq::empty()),
        EscapeState::Subneg => if b == IAC {
            (EscapeState::SubnegEscaped, Seq::empty())
        } else {
            (EscapeState::Subneg, Seq::empty())
        },
        EscapeState::SubnegEscaped => if b == SE {
            (EscapeState::Data, Seq::empty())
        } else {
            // Defensively stay inside the block on a malformed escape.
            (EscapeState::Subneg, Seq::empty())
        },
    }
}

/// A byte sequence through the escape parser: the final state and the
/// content the bytes contribute.
pub open spec fn escape_run(st: EscapeState, bytes: Seq<u8>) -> (EscapeState, Seq<u8>)
    decreases bytes.len(),
{
    if bytes.len() == 0 {
        (st, Seq::empty())
    } else {
        let head = escape_step(st, bytes[0]);
        let rest = escape_run(head.0, bytes.drop_first());
        (rest.0, head.1 + rest.1)
    }
}

/// The parser is restartable: splitting the input between two reads changes
/// neither the final state nor the content, in what order the chunks come.
pub proof fn lemma_escape_run_concat(st: EscapeState, b1: Seq<u8>, b2: Seq<u8>)
    ensures
        escape_run(st, b1 + b2).0 == escape_run(escape_run(st, b1).0, b2).0,
        escape_run(st, b1 + b2).1 == escape_run(st, b1).1 + escape_run(escape_run(st, b1).0, b2).1,
    decreases b1.len(),
{
    if b1.len() == 0 {
        assert(b1 + b2 =~= b2);
        assert(escape_run(st, b1).1 + escape_run(escape_run(st, b1).0, b2).1 =~= escape_run(
            st,
            b2,
        ).1);
    } else {
        let head = escape_step(st, b1[0]);
        assert((b1 + b2).drop_first() =~= b1.drop_first() + b2);
        lemma_escape_run_concat(head.0, b1.drop_first(), b2);
        assert(escape_run(st, b1 + b2).1 =~= escape_run(st, b1).1 + escape_run(
            escape_run(st, b1).0,
            b2,
        ).1);
    }
}

/// Running the parser over a single byte is one step.
pub proof fn lemma_escape_run_one(st: EscapeState, b: u8)
    ensures
        escape_run(st, seq![b]).0 == escape_step(st, b).0,
        escape_run(st, seq![b]).1 == escape_step(st, b).1,
{
    reveal_with_fuel(escape_run, 2);
    let one = seq![b];
    assert(one[0] == b);
    assert(one.drop_first() =~= Seq::<u8>::empty());
    assert(escape_run(escape_step(st, b).0, Seq::<u8>::empty()).1 == Seq::<u8>::empty());
    assert(escape_step(st, b).1 + Seq::<u8>::empty() =~= escape_step(st, b).1);
}

/// The index of the first line feed in `content`, if any.
pub open spec fn first_line_feed(content: Seq<u8>) -> Option<int>
    decreases content.len(),
{
    if content.len() == 0 {
        None
    } else if content[0] == LINE_FEED {
        Some(0)
    } else {
        match first_line_feed(content.drop_first()) {
            Some(i) => Some(i + 1),
            None => None,
        }
    }
}

/// `first_line_feed` is pinned down by what stands at each index.
pub proof fn lemma_first_line_feed_at(content: Seq<u8>, i: int)
    requires
        0 <= i < content.len(),
        content[i] == LINE_FEED,
        forall|j: int| 0 <= j < i ==> content[j] != LINE_FEED,
    ensures
        first_line_feed(content) == Some(i),
    decreases content.len(),
{
    if i > 0 {
        lemma_first_line_feed_at(content.drop_first(), i - 1);
    }
}

/// Content without a line feed has no first one.
pub proof fn lemma_no_line_feed(content: Seq<u8>)
    requires
        forall|j: int| 0 <= j < content.len() ==> content[j] != LINE_FEED,
    ensures
        first_line_feed(content) is None,
    decreases content.len(),
{
    if content.len() > 0 {
        lemma_no_line_feed(content.drop_first());
    }
}

/// One escape-parser step, executably.
fn escape_step_exec(st: EscapeState, b: u8) -> (r: (EscapeState, Option<u8>))
    ensures
        r.0 == escape_step(st, b).0,
        match r.1 {
            Some(x) => escape_step(st, b).1 == seq![x],
            None => escape_step(st, b).1 == Seq::<u8>::empty(),
        },
{
    match st {
        EscapeState::Data => if b == IAC {
            (EscapeState::Escaped, None)
        } else {
            (EscapeState::Data, Some(b))
        },
        EscapeState::Escaped => if b == IAC {
            (EscapeState::Data, Some(IAC))
        } else if b == SB {
            (EscapeState::Subneg, None)
        } else if WILL <= b && b <= DONT {
            (EscapeState::OptionByte, None)
        } else {
            (EscapeState::Data, None)
        },
        EscapeState::OptionByte => (EscapeState::Data, None),
        EscapeState::Subneg => if b == IAC {
            (EscapeState::SubnegEscaped, None)
        } else {
            (EscapeState::Subneg, None)
        },
        EscapeState::SubnegEscaped => if b == SE {
            (EscapeState::Data, None)
        } else {
            (EscapeState::Subneg, None)
        },
    }
}

/// The incremental frame decoder: buffered content with escapes already
/// removed, and the escape parser's state between reads.
pub struct TelnetCodec {
    state: EscapeState,
    pending: Vec<u8>,
}

impl TelnetCodec {
    /// The parser state carried between reads.
    pub closed spec fn parse_state(&self) -> EscapeState {
        self.state
    }

    /// The buffered content bytes not yet handed out as a line.
    pub closed spec fn content(&self) -> Seq<u8> {
        self.pending@
    }

    /// A fresh decoder: no buffered content, outside any escape.
    pub fn new() -> (c: TelnetCodec)
        ensures
            c.parse_state() == EscapeState::Data,
            c.content() == Seq::<u8>::empty(),
    {
        TelnetCodec { state: EscapeState::Data, pending: Vec::new() }
    }

    /// Feed one read's bytes: exactly the escape-stripped content is
    /// appended to the buffer, so nothing is lost or duplicated across
    /// partial reads.
    pub fn feed(&mut self, bytes: &[u8])
        ensures
            final (self).parse_state() == escape_run(old(self).parse_state(), bytes@).0,
            final (self).content() == old(self).content() + escape_run(
                old(self).parse_state(),
                bytes@,
            ).1,
    {
        let ghost st0 = self.state;
        let ghost pending0 = self.pending@;
        let mut i: usize = 0;
        proof {
            assert(bytes@.take(0) =~= Seq::<u8>::empty());
            assert(pending0 + escape_run(st0, bytes@.take(0)).1 =~= pending0);
        }
        while i < bytes.len()
            invariant
                0 <= i <= bytes@.len(),
                self.state == escape_run(st0, bytes@.take(i as int)).0,
                self.pending@ == pending0 + escape_run(st0, bytes@.take(i as int)).1,
            decreases bytes@.len() - i,
        {
            let b = bytes[i];
            let (next, out) = escape_step_exec(self.state, b);
            proof {
                assert(bytes@.take(i as int + 1) =~= bytes@.take(i as int) + seq![b]);
                lemma_escape_run_concat(st0, bytes@.take(i as int), seq![b]);
                lemma_escape_run_one(self.state, b);
            }
            match out {
                Some(x) => {
                    self.pending.push(x);
                    proof {
                        assert(self.pending@ =~= pending0 + escape_run(
                            st0,
                            bytes@.take(i as int + 1),
                        ).1);
                    }
                },
                None => {
                    proof {
                        assert(self.pending@ =~= pending0 + escape_run(
                            st0,
                            bytes@.take(i as int + 1),
                        ).1);
                    }
                },
            }
            self.state = next;
            i = i + 1;
        }
        proof {
            assert(bytes@.take(bytes@.len() as int) =~= bytes@);
        }
    }

    /// Hand out the next complete line, terminator included, when one is
    /// buffered; the buffer keeps exactly what follows it.
    pub fn next_line(&mut self) -> (r: Option<Vec<u8>>)
        ensures
            final (self).parse_state() == old(self).parse_state(),
            match first_line_feed(old(self).content()) {
                Some(i) => r matches Some(line) && line@ == old(self).content().take(i + 1)
                    && final (self).content() == old(self).content().skip(i + 1),
                None => r is None && final (self).content() == old(self).content(),
            },
    {
        let n = self.pending.len();
        let mut i: usize = 0;
        while i < n && self.pending[i] != LINE_FEED
            invariant
                0 <= i <= n,
                n == self.pending@.len(),
                forall|j: int| 0 <= j < i ==> self.pending@[j] != LINE_FEED,
            decreases n - i,
        {
            i = i + 1;
        }
        if i == n {
            proof {
                lemma_no_line_feed(self.pending@);
            }
            return None;
        }
        proof {
            lemma_first_line_feed_at(self.pending@, i as int);
        }
        let mut rest = self.pending.split_off(i + 1);
        core::mem::swap(&mut self.pending, &mut rest);
        Some(rest)
    }

    /// Drain whatever content is buffered, complete line or not; the parser
    /// state is kept, so a read that follows carries on where it stood.
    pub fn take_pending(&mut self) -> (r: Vec<u8>)
        ensures
            final (self).parse_state() == old(self).parse_state(),
            final (self).content() == Seq::<u8>::empty(),
            r@ == old(self).content(),
    {
        let mut r: Vec<u8> = Vec::new();
        core::mem::swap(&mut self.pending, &mut r);
        r
    }
}

} // verus!
