//! Assembling one IMAP command from the lines and literals a client sends (RFC 9051 §4.3).
//!
//! A command line that ends with `{n}` announces a synchronizing literal: the server prompts
//! with a `+` continuation and then reads exactly `n` bytes; `{n+}` (LITERAL+) is read without a
//! prompt. [`CommandAssembler`] makes every decision of that exchange, including the caps that
//! keep a hostile client from driving the server out of memory; the transport does the reading
//! and writing.
use vstd::prelude::*;
use crate::bytes::{push_all, slice_of};

verus! {

/// Hard cap on a single IMAP literal (64 MiB).
pub const MAX_LITERAL: usize = 67108864;

/// Hard cap on a single command line before a literal (1 MiB).
pub const MAX_LINE: usize = 1048576;

/// Hard cap on one assembled command, all lines and literals together: one message plus 8 MiB
/// of protocol headroom.
pub const MAX_COMMAND: usize = 75497472;

/// A line without one trailing LF and then one trailing CR.
pub open spec fn strip_eol(l: Seq<u8>) -> Seq<u8> {
    let a = if l.len() > 0 && l.last() == 10 { l.drop_last() } else { l };
    if a.len() > 0 && a.last() == 13 { a.drop_last() } else { a }
}

/// The literal announced at the end of a line, `{n}` (synchronizing) or `{n+}`: its size and
/// whether it is synchronizing. The text between the last `{` and the closing `}` must be a
/// decimal numeral that fits a `usize`.
pub open spec fn trailing_literal_spec(line: Seq<u8>) -> Option<(nat, bool)> {
    let t = strip_eol(line);
    if t.len() == 0 || t.last() != 125 {
        None
    } else {
        let open = crate::mime::prev_byte(t, 123, t.len() as int);
        if open < 0 {
            None
        } else {
            let inner = t.subrange(open + 1, t.len() - 1);
            let (digits, sync) = if inner.len() > 0 && inner.last() == 43 {
                (inner.drop_last(), false)
            } else {
                (inner, true)
            };
            match crate::bytes::parse_dec_spec(digits, usize::MAX as nat) {
                Some(n) => Some((n, sync)),
                None => None,
            }
        }
    }
}

fn rfind(s: &[u8], b: u8) -> (r: Option<usize>)
    ensures
        match r {
            Some(k) => k < s@.len() && crate::mime::prev_byte(s@, b, s@.len() as int) == k,
            None => crate::mime::prev_byte(s@, b, s@.len() as int) == -1,
        },
{
    let mut i = s.len();
    while i > 0
        invariant
            i <= s@.len(),
            crate::mime::prev_byte(s@, b, i as int) == crate::mime::prev_byte(s@, b, s@.len() as int),
        decreases i,
    {
        if s[i - 1] == b {
            return Some(i - 1);
        }
        i -= 1;
    }
    None
}

/// If the line ends with a literal introducer `{n}` or `{n+}`, return `(n, is_synchronizing)`.
pub fn trailing_literal(line: &[u8]) -> (r: Option<(usize, bool)>)
    ensures
        match r {
            Some((n, sync)) => trailing_literal_spec(line@) == Some((n as nat, sync)),
            None => trailing_literal_spec(line@) is None,
        },
{
    let a: &[u8] = if line.len() > 0 && line[line.len() - 1] == 10 {
        slice_of(line, 0, line.len() - 1)
    } else {
        line
    };
    let t: &[u8] = if a.len() > 0 && a[a.len() - 1] == 13 {
        slice_of(a, 0, a.len() - 1)
    } else {
        a
    };
    assert(t@ == strip_eol(line@));
    if t.len() == 0 || t[t.len() - 1] != 125 {
        return None;
    }
    let open = match rfind(t, 123) {
        Some(o) => o,
        None => return None,
    };
    proof {
        crate::mime::lemma_prev_byte(t@, 123, t@.len() as int);
    }
    assert(open < t.len() - 1);
    let inner = slice_of(t, open + 1, t.len() - 1);
    let (digits, sync) = if inner.len() > 0 && inner[inner.len() - 1] == 43 {
        (slice_of(inner, 0, inner.len() - 1), false)
    } else {
        (inner, true)
    };
    match crate::bytes::parse_usize(digits) {
        Some(n) => Some((n, sync)),
        None => None,
    }
}

/// Why a command is refused; the connection is then dropped.
#[derive(Debug, Clone, Copy, PartialEq, Eq, Structural)]
pub enum Refusal {
    LineTooLong,
    CommandTooLarge,
    LiteralTooLarge,
}

impl Refusal {
    /// The untagged `BAD` the server sends before dropping the connection.
    pub fn reply(self) -> (r: &'static str)
        ensures
            r@ == match self {
                Refusal::LineTooLong => "* BAD command line too long\r\n"@,
                Refusal::CommandTooLarge => "* BAD command too large\r\n"@,
                Refusal::LiteralTooLarge => "* BAD literal too large\r\n"@,
            },
    {
        match self {
            Refusal::LineTooLong => "* BAD command line too long\r\n",
            Refusal::CommandTooLarge => "* BAD command too large\r\n",
            Refusal::LiteralTooLarge => "* BAD literal too large\r\n",
        }
    }

    /// The description carried by the error the reader returns.
    pub fn message(self) -> (r: &'static str)
        ensures
            r@ == match self {
                Refusal::LineTooLong => "command line too long"@,
                Refusal::CommandTooLarge => "assembled command exceeds MAX_COMMAND"@,
                Refusal::LiteralTooLarge => "literal exceeds MAX_LITERAL"@,
            },
    {
        match self {
            Refusal::LineTooLong => "command line too long",
            Refusal::CommandTooLarge => "assembled command exceeds MAX_COMMAND",
            Refusal::LiteralTooLarge => "literal exceeds MAX_LITERAL",
        }
    }
}

/// What the reader does after a line.
#[derive(Debug)]
pub enum LineStep {
    /// The command is complete.
    Complete(Vec<u8>),
    /// Read a literal of `size` bytes next, after a `+` continuation when `prompt`.
    ReadLiteral { size: usize, prompt: bool },
    /// Refuse the command and drop the connection.
    Refuse(Refusal),
}

/// The lines and literals of the command being assembled.
pub struct CommandAssembler {
    buf: Vec<u8>,
}

/// The outcome of a line, as a model: the new buffer and the step.
pub enum StepSpec {
    Complete(Seq<u8>),
    ReadLiteral(nat, bool),
    Refuse(Refusal),
}

/// One line (including its CRLF) added to the command assembled so far: an over-long line is
/// refused; the line is appended, and the command refused when it grows over the cap; a
/// trailing literal over its cap, or one that would take the command over its cap, is refused;
/// another literal is read next; without a literal the command is complete (the buffer is then
/// empty again).
pub open spec fn line_step_spec(buf: Seq<u8>, line: Seq<u8>) -> (Seq<u8>, StepSpec) {
    if line.len() > MAX_LINE {
        (buf, StepSpec::Refuse(Refusal::LineTooLong))
    } else {
        let b = buf + line;
        if b.len() > MAX_COMMAND {
            (b, StepSpec::Refuse(Refusal::CommandTooLarge))
        } else {
            match trailing_literal_spec(line) {
                Some((size, sync)) => if size > MAX_LITERAL {
                    (b, StepSpec::Refuse(Refusal::LiteralTooLarge))
                } else if b.len() + size > MAX_COMMAND {
                    (b, StepSpec::Refuse(Refusal::CommandTooLarge))
                } else {
                    (b, StepSpec::ReadLiteral(size, sync))
                },
                None => (seq![], StepSpec::Complete(b)),
            }
        }
    }
}

pub open spec fn step_view(s: LineStep) -> StepSpec {
    match s {
        LineStep::Complete(v) => StepSpec::Complete(v@),
        LineStep::ReadLiteral { size, prompt } => StepSpec::ReadLiteral(size as nat, prompt),
        LineStep::Refuse(r) => StepSpec::Refuse(r),
    }
}

impl View for CommandAssembler {
    type V = Seq<u8>;

    closed spec fn view(&self) -> Seq<u8> {
        self.buf@
    }
}

impl CommandAssembler {
    /// Nothing assembled yet.
    pub fn new() -> (r: Self)
        ensures
            r@ == Seq::<u8>::empty(),
    {
        CommandAssembler { buf: Vec::new() }
    }

    /// Take one line (with its line terminator) of the command.
    pub fn feed_line(&mut self, line: &[u8]) -> (r: LineStep)
        ensures
            (final(self)@, step_view(r)) == line_step_spec(old(self)@, line@),
    {
        if line.len() > MAX_LINE {
            return LineStep::Refuse(Refusal::LineTooLong);
        }
        push_all(&mut self.buf, line);
        if self.buf.len() > MAX_COMMAND {
            return LineStep::Refuse(Refusal::CommandTooLarge);
        }
        match trailing_literal(line) {
            Some((size, sync)) => {
                if size > MAX_LITERAL {
                    LineStep::Refuse(Refusal::LiteralTooLarge)
                } else if size > MAX_COMMAND - self.buf.len() {
                    LineStep::Refuse(Refusal::CommandTooLarge)
                } else {
                    LineStep::ReadLiteral { size, prompt: sync }
                }
            },
            None => {
                let mut done: Vec<u8> = Vec::new();
                std::mem::swap(&mut done, &mut self.buf);
                LineStep::Complete(done)
            },
        }
    }

    /// Take the literal bytes announced by the previous line.
    pub fn feed_literal(&mut self, lit: &[u8])
        ensures
            final(self)@ == old(self)@ + lit@,
    {
        push_all(&mut self.buf, lit);
    }

    /// The input ended: what was assembled, if anything.
    pub fn at_eof(self) -> (r: Option<Vec<u8>>)
        ensures
            match r {
                Some(v) => self@.len() > 0 && v@ == self@,
                None => self@.len() == 0,
            },
    {
        if self.buf.len() == 0 {
            None
        } else {
            Some(self.buf)
        }
    }
}

/// The bytes of a command sent as lines with literals between them: `lines[0]`, `lits[0]`,
/// `lines[1]`, ..., the last line (there is one line more than literals).
pub open spec fn interleave(lines: Seq<Seq<u8>>, lits: Seq<Seq<u8>>) -> Seq<u8>
    decreases lits.len(),
{
    if lits.len() == 0 || lines.len() == 0 {
        if lines.len() > 0 { lines[0] } else { seq![] }
    } else {
        interleave(lines.drop_last(), lits.drop_last()) + lits.last() + lines.last()
    }
}

/// The assembler fed the lines of one command from an empty buffer, each literal taken after
/// the line that announced it: the buffer and the step after the last line.
pub open spec fn assemble(lines: Seq<Seq<u8>>, lits: Seq<Seq<u8>>) -> (Seq<u8>, StepSpec)
    decreases lits.len(),
{
    if lits.len() == 0 || lines.len() == 0 {
        line_step_spec(seq![], if lines.len() > 0 { lines[0] } else { seq![] })
    } else {
        line_step_spec(assemble(lines.drop_last(), lits.drop_last()).0 + lits.last(), lines.last())
    }
}

/// The well-formed lines and literals of one command within the caps: every line but the last
/// announces the literal that follows it, the last announces none.
pub open spec fn well_framed(lines: Seq<Seq<u8>>, lits: Seq<Seq<u8>>) -> bool {
    &&& lines.len() == lits.len() + 1
    &&& forall|i: int| 0 <= i < lits.len() ==> (trailing_literal_spec(#[trigger] lines[i]) matches Some(
        (n, _),
    ) && n == lits[i].len())
    &&& forall|i: int| 0 <= i < lines.len() ==> (#[trigger] lines[i]).len() <= MAX_LINE
    &&& forall|i: int| 0 <= i < lits.len() ==> (#[trigger] lits[i]).len() <= MAX_LITERAL
    &&& interleave(lines, lits).len() <= MAX_COMMAND
}

proof fn lemma_assemble_prefix(lines: Seq<Seq<u8>>, lits: Seq<Seq<u8>>, extra: nat)
    requires
        lines.len() == lits.len() + 1,
        forall|i: int| 0 <= i < lits.len() ==> (trailing_literal_spec(#[trigger] lines[i]) matches Some(
            (n, _),
        ) && n == lits[i].len()),
        forall|i: int| 0 <= i < lines.len() ==> (#[trigger] lines[i]).len() <= MAX_LINE,
        forall|i: int| 0 <= i < lits.len() ==> (#[trigger] lits[i]).len() <= MAX_LITERAL,
        interleave(lines, lits).len() + extra <= MAX_COMMAND,
        trailing_literal_spec(lines.last()) matches Some((n, _)) ==> n <= extra && n <= MAX_LITERAL,
    ensures
        match trailing_literal_spec(lines.last()) {
            Some((n, sync)) => assemble(lines, lits) == (
                interleave(lines, lits),
                StepSpec::ReadLiteral(n, sync),
            ),
            None => assemble(lines, lits) == (
                Seq::<u8>::empty(),
                StepSpec::Complete(interleave(lines, lits)),
            ),
        },
    decreases lits.len(),
{
    if lits.len() > 0 {
        let pl = lines.drop_last();
        let pt = lits.drop_last();
        let k = lits.len() - 1;
        assert(pl.last() == lines[k]);
        assert forall|i: int| 0 <= i < pt.len() implies (trailing_literal_spec(#[trigger] pl[i]) matches Some(
            (n, _),
        ) && n == pt[i].len()) by {
            assert(pl[i] == lines[i] && pt[i] == lits[i]);
        }
        assert forall|i: int| 0 <= i < pl.len() implies (#[trigger] pl[i]).len() <= MAX_LINE by {
            assert(pl[i] == lines[i]);
        }
        assert forall|i: int| 0 <= i < pt.len() implies (#[trigger] pt[i]).len() <= MAX_LITERAL by {
            assert(pt[i] == lits[i]);
        }
        assert(trailing_literal_spec(lines[k]) matches Some((n, _)) && n == lits[k].len());
        lemma_assemble_prefix(pl, pt, lits.last().len() + lines.last().len() + extra);
        assert(lines.last() == lines[lines.len() - 1]);
    } else {
        assert(lines.last() == lines[0]);
        assert(Seq::<u8>::empty() + lines[0] =~= lines[0]);
    }
}

/// What the client sent is what the command is: feeding the lines of one well-framed command,
/// each literal after the line that announced it, completes with exactly their bytes in order
/// and leaves the buffer empty for the next command.
pub proof fn assembled_command_is_what_was_sent(lines: Seq<Seq<u8>>, lits: Seq<Seq<u8>>)
    requires
        well_framed(lines, lits),
        trailing_literal_spec(lines.last()) is None,
    ensures
        assemble(lines, lits) == (
            Seq::<u8>::empty(),
            StepSpec::Complete(interleave(lines, lits)),
        ),
{
    lemma_assemble_prefix(lines, lits, 0);
}

/// A line without its terminator: a trailing LF, and a CR before it.
pub open spec fn strip_crlf_spec(l: Seq<u8>) -> Seq<u8> {
    if l.len() > 0 && l.last() == 10 {
        let a = l.drop_last();
        if a.len() > 0 && a.last() == 13 { a.drop_last() } else { a }
    } else {
        l
    }
}

/// Remove one trailing CRLF (or bare LF) in place; a CR without LF is content and stays.
pub fn strip_crlf(line: &mut Vec<u8>)
    ensures
        final(line)@ == strip_crlf_spec(old(line)@),
{
    if line.len() > 0 && line[line.len() - 1] == 10 {
        line.pop();
        assert(line@ =~= old(line)@.drop_last());
        if line.len() > 0 && line[line.len() - 1] == 13 {
            let ghost a = line@;
            line.pop();
            assert(line@ =~= a.drop_last());
        }
    }
}

} // verus!
