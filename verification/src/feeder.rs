//! The incremental feeder: a buffer fed chunk by chunk, drained into
//! outputs whenever a complete top-level object (or a failure) appears.
use vstd::prelude::*;

use crate::json::JVal;
use crate::parser::{e_root, p_root, PRes, Step};
use crate::record::{get_log_line, normalize_spec, LogLine, RecM};
use crate::textutil::{chars_to_string, to_chars};

verus! {

broadcast use vstd::std_specs::vec::group_vec_axioms;

/// One output of the feeder: nothing, raw text passed through, or a
/// normalized log record.
#[derive(Debug)]
pub enum ParserOutput {
    Empty,
    Text(String),
    Log(LogLine),
}

/// Ghost form of an output.
pub enum OutM {
    Empty,
    Text(Seq<char>),
    Log(RecM),
}

impl ParserOutput {
    /// The ghost output this stands for.
    pub open spec fn model(self) -> OutM {
        match self {
            ParserOutput::Empty => OutM::Empty,
            ParserOutput::Text(s) => OutM::Text(s@),
            ParserOutput::Log(l) => OutM::Log(l.model()),
        }
    }
}

/// Ghost form of a list of outputs.
pub open spec fn outputs_model(v: Seq<ParserOutput>) -> Seq<OutM> {
    Seq::new(v.len(), |i: int| v[i].model())
}

/// What one round of draining a buffer yields: the outputs in order, and
/// the text left buffered. A complete object becomes a log record, or its
/// own source text when it does not normalize; then one newline is
/// stripped and the remainder drained again. A failure flushes the whole
/// buffer as text; an incomplete prefix stays buffered.
pub open spec fn feed(buf: Seq<char>) -> (Seq<OutM>, Seq<char>)
    decreases buf.len(),
{
    match p_root(buf) {
        PRes::More => (Seq::empty(), buf),
        PRes::Bad => (seq![OutM::Text(buf)], Seq::empty()),
        PRes::Done { v, n } => {
            if n < 1 || n > buf.len() {
                (Seq::empty(), Seq::empty())
            } else {
                let out = match normalize_spec(v) {
                    Ok(rm) => OutM::Log(rm),
                    Err(_) => OutM::Text(buf.take(n as int)),
                };
                let rest = buf.skip(n as int);
                let rest2 = if rest.len() > 0 && rest[0] == '\n' {
                    rest.skip(1)
                } else {
                    rest
                };
                let tail = feed(rest2);
                (seq![out] + tail.0, tail.1)
            }
        },
    }
}

/// What remains after a flush: any buffered text as one output, and an
/// empty buffer.
pub open spec fn flush_spec(buf: Seq<char>) -> OutM {
    if buf.len() == 0 {
        OutM::Empty
    } else {
        OutM::Text(buf)
    }
}

/// The incremental feeder: the unresolved input received so far, and a
/// debug flag callers may surface diagnostics with.
pub struct Parser {
    buffer: Vec<char>,
    pub debug: bool,
}

impl Parser {
    /// The buffered text.
    pub closed spec fn buffer_view(self) -> Seq<char> {
        self.buffer@
    }

    /// The debug flag.
    pub closed spec fn debug_spec(self) -> bool {
        self.debug
    }

    /// A feeder with an empty buffer.
    pub fn new() -> (r: Parser)
        ensures
            r.buffer_view() == Seq::<char>::empty(),
            r.debug_spec() == false,
    {
        Parser { buffer: Vec::new(), debug: false }
    }

    /// Drain any still-buffered text as one raw-text output and clear the
    /// buffer, as `flush_spec` describes.
    pub fn flush(&mut self) -> (r: ParserOutput)
        ensures
            r.model() == flush_spec(old(self).buffer_view()),
            final(self).buffer_view() == Seq::<char>::empty(),
            final(self).debug_spec() == old(self).debug_spec(),
    {
        if self.buffer.len() == 0 {
            ParserOutput::Empty
        } else {
            let text = chars_to_string(&self.buffer);
            self.buffer.clear();
            ParserOutput::Text(text)
        }
    }

    /// Append the chunk to the buffer and drain every complete object in
    /// it, as `feed` describes: the outputs come in source order, and the
    /// buffer keeps exactly the unresolved tail.
    pub fn push(&mut self, line: &str) -> (outs: Vec<ParserOutput>)
        ensures
            outputs_model(outs@) == feed(old(self).buffer_view() + line@).0,
            final(self).buffer_view() == feed(old(self).buffer_view() + line@).1,
            final(self).debug_spec() == old(self).debug_spec(),
    {
        let mut chunk = to_chars(line);
        self.buffer.append(&mut chunk);
        proof {
            assert(self.buffer@ == old(self).buffer_view() + line@);
        }
        let ghost start = self.buffer@;
        let mut outs: Vec<ParserOutput> = Vec::new();
        proof {
            assert(outputs_model(outs@) =~= Seq::<OutM>::empty());
            assert(Seq::<OutM>::empty() + feed(self.buffer@).0 =~= feed(self.buffer@).0);
        }
        loop
            invariant
                start == old(self).buffer_view() + line@,
                feed(start).0 == outputs_model(outs@) + feed(self.buffer@).0,
                feed(start).1 == feed(self.buffer@).1,
                self.debug == old(self).debug_spec(),
            decreases self.buffer@.len(),
        {
            let ghost cur = self.buffer@;
            match e_root(&self.buffer) {
                Step::More => {
                    proof {
                        assert(feed(cur).0 =~= Seq::<OutM>::empty());
                        assert(outputs_model(outs@) + Seq::<OutM>::empty() =~= outputs_model(
                            outs@,
                        ));
                    }
                    return outs;
                },
                Step::Bad => {
                    let text = chars_to_string(&self.buffer);
                    self.buffer.clear();
                    let ghost pre = outs@;
                    outs.push(ParserOutput::Text(text));
                    proof {
                        assert(feed(cur).0 =~= seq![OutM::Text(cur)]);
                        assert(feed(cur).1 =~= Seq::<char>::empty());
                        assert(outputs_model(outs@) =~= outputs_model(pre) + seq![
                            OutM::Text(cur),
                        ]);
                        assert(feed(self.buffer@).0 =~= Seq::<OutM>::empty());
                        assert(outputs_model(outs@) + Seq::<OutM>::empty() =~= outputs_model(
                            outs@,
                        ));
                    }
                    return outs;
                },
                Step::Done(v, n) => {
                    let consumed = crate::parser::copy_range(&self.buffer, 0, n);
                    let out = match get_log_line(v) {
                        Ok(l) => ParserOutput::Log(l),
                        Err(_) => ParserOutput::Text(chars_to_string(&consumed)),
                    };
                    let rest_from = if n < self.buffer.len() && self.buffer[n] == '\n' {
                        n + 1
                    } else {
                        n
                    };
                    let rest = crate::parser::copy_range(&self.buffer, rest_from, self.buffer.len());
                    self.buffer = rest;
                    let ghost pre = outs@;
                    outs.push(out);
                    proof {
                        let specout = match normalize_spec(v.model()) {
                            Ok(rm) => OutM::Log(rm),
                            Err(_) => OutM::Text(cur.take(n as int)),
                        };
                        assert(consumed@ == cur.take(n as int));
                        assert(out.model() == specout);
                        let r0 = cur.skip(n as int);
                        let r2 = if r0.len() > 0 && r0[0] == '\n' {
                            r0.skip(1)
                        } else {
                            r0
                        };
                        if r0.len() > 0 && r0[0] == '\n' {
                            assert(r0[0] == cur[n as int]);
                            assert(self.buffer@ =~= r2);
                        } else {
                            assert(self.buffer@ =~= r2);
                        }
                        assert(feed(cur).0 =~= seq![specout] + feed(r2).0);
                        assert(feed(cur).1 == feed(r2).1);
                        assert(outputs_model(outs@) =~= outputs_model(pre) + seq![specout]);
                        assert((outputs_model(pre) + seq![specout]) + feed(self.buffer@).0
                            =~= outputs_model(pre) + (seq![specout] + feed(self.buffer@).0));
                    }
                },
            }
        }
    }
}

} // verus!
