//! Cutting the output of the scrcpy server into lines.
//!
//! Output arrives in chunks of any size. Complete lines are handed on as soon
//! as their line feed has arrived; what is left when the output ends is handed
//! on too, since crash output occasionally lacks a final line feed.
use vstd::prelude::*;

use crate::text::concat2;

verus! {

/// The line feed.
pub const LINE_FEED: u8 = 10;

/// Longest unfinished line that is kept, in bytes.
pub const PENDING_LIMIT: usize = 1_048_576;

/// The complete lines in `s`, each with its line feed.
pub open spec fn lines_of(s: Seq<u8>) -> Seq<Seq<u8>>
    decreases s.len(),
{
    if s.len() == 0 {
        Seq::empty()
    } else if s.last() == LINE_FEED {
        lines_of(s.drop_last()).push(rest_of(s.drop_last()).push(LINE_FEED))
    } else {
        lines_of(s.drop_last())
    }
}

/// What follows the last line feed in `s`.
pub open spec fn rest_of(s: Seq<u8>) -> Seq<u8>
    decreases s.len(),
{
    if s.len() == 0 || s.last() == LINE_FEED {
        Seq::empty()
    } else {
        rest_of(s.drop_last()).push(s.last())
    }
}

/// An unfinished line, unless it has grown too long: then it is dropped.
pub open spec fn kept(rest: Seq<u8>) -> Seq<u8> {
    if rest.len() > PENDING_LIMIT {
        Seq::empty()
    } else {
        rest
    }
}

/// Collects output until it makes up lines.
pub struct LogPump {
    pending: Vec<u8>,
}

impl View for LogPump {
    type V = Seq<u8>;

    /// The unfinished line.
    closed spec fn view(&self) -> Seq<u8> {
        self.pending@
    }
}

impl LogPump {
    /// The unfinished line holds no line feed and is not too long.
    pub open spec fn well_formed(self) -> bool {
        &&& rest_of(self@) == self@
        &&& self@.len() <= PENDING_LIMIT
    }

    /// A pump that has seen nothing yet.
    pub fn new() -> (r: Self)
        ensures
            r.well_formed(),
            r@ == Seq::<u8>::empty(),
    {
        LogPump { pending: Vec::new() }
    }

    /// Takes the next chunk of output and returns the lines that it completes.
    pub fn push(&mut self, chunk: &[u8]) -> (r: Vec<Vec<u8>>)
        requires
            old(self).well_formed(),
        ensures
            final(self).well_formed(),
            r.deep_view() == lines_of(old(self)@ + chunk@),
            final(self)@ == kept(rest_of(old(self)@ + chunk@)),
    {
        let ghost start = self.pending@;
        let mut lines: Vec<Vec<u8>> = Vec::new();
        let mut i: usize = 0;
        proof {
            assert(start + chunk@.take(0) =~= start);
            lemma_rest_has_no_lines(start);
            assert(lines.deep_view() =~= lines_of(start));
        }
        while i < chunk.len()
            invariant
                i <= chunk@.len(),
                lines.deep_view() == lines_of(start + chunk@.take(i as int)),
                self.pending@ == rest_of(start + chunk@.take(i as int)),
            decreases chunk@.len() - i,
        {
            let b = chunk[i];
            let ghost seen = start + chunk@.take(i + 1);
            let ghost before = lines.deep_view();
            proof {
                assert(seen.drop_last() =~= start + chunk@.take(i as int));
                assert(seen.last() == b);
            }
            self.pending.push(b);
            if b == LINE_FEED {
                let mut line: Vec<u8> = Vec::new();
                std::mem::swap(&mut line, &mut self.pending);
                proof {
                    assert(line.deep_view() =~= line@);
                }
                lines.push(line);
                proof {
                    assert(lines.deep_view() =~= before.push(line@));
                }
            }
            i += 1;
        }
        proof {
            assert(chunk@.take(i as int) =~= chunk@);
            lemma_rest_is_rest(start + chunk@);
        }
        if self.pending.len() > PENDING_LIMIT {
            self.pending.clear();
        }
        lines
    }

    /// Ends the output. What was left unfinished is returned, if anything.
    pub fn finish(self) -> (r: Option<Vec<u8>>)
        ensures
            self@.len() == 0 ==> r is None,
            self@.len() > 0 ==> r is Some && r->0@ == self@,
    {
        if self.pending.len() == 0 {
            None
        } else {
            Some(self.pending)
        }
    }
}

/// What stands in front of a line of the output `stream_name` of the server on the
/// device `serial`.
pub open spec fn line_heading(serial: Seq<char>, stream_name: Seq<char>) -> Seq<char> {
    "[SCRCPY-SERVER]["@ + serial + "]["@ + stream_name + "] "@
}

fn heading(serial: &str, stream_name: &str) -> (r: String)
    ensures
        r@ == line_heading(serial@, stream_name@),
{
    let mut out = concat2("[SCRCPY-SERVER][", serial);
    out.append("][");
    out.append(stream_name);
    out.append("] ");
    out
}

/// What is printed for a complete line, which brings its own line feed.
pub fn line_text(serial: &str, stream_name: &str, line: &str) -> (r: String)
    ensures
        r@ == line_heading(serial@, stream_name@) + line@,
{
    concat2(heading(serial, stream_name).as_str(), line)
}

/// What is printed for a line that the output ended in without a line feed.
pub fn unterminated_text(serial: &str, stream_name: &str, rest: &str) -> (r: String)
    ensures
        r@ == line_heading(serial@, stream_name@) + "(unterminated) "@ + rest@ + "\n"@,
{
    let mut out = concat2(heading(serial, stream_name).as_str(), "(unterminated) ");
    out.append(rest);
    out.append("\n");
    out
}

proof fn lemma_rest_is_rest(s: Seq<u8>)
    ensures
        rest_of(rest_of(s)) == rest_of(s),
    decreases s.len(),
{
    if s.len() > 0 && s.last() != LINE_FEED {
        lemma_rest_is_rest(s.drop_last());
        let r = rest_of(s);
        assert(r.drop_last() =~= rest_of(s.drop_last()));
        assert(r.last() == s.last());
    }
}

proof fn lemma_rest_has_no_lines(s: Seq<u8>)
    requires
        rest_of(s) == s,
    ensures
        lines_of(s) == Seq::<Seq<u8>>::empty(),
    decreases s.len(),
{
    if s.len() > 0 {
        assert(s.drop_last() =~= rest_of(s.drop_last()));
        lemma_rest_has_no_lines(s.drop_last());
    }
}

// ---------------------------------------------------------------------------
// Laws
// ---------------------------------------------------------------------------

/// The lines and the rest are the whole output: nothing is lost, doubled or
/// reordered.
pub proof fn law_nothing_is_lost(s: Seq<u8>)
    ensures
        lines_of(s).flatten() + rest_of(s) == s,
    decreases s.len(),
{
    if s.len() == 0 {
        assert(lines_of(s).flatten() =~= Seq::empty());
    } else {
        let init = s.drop_last();
        law_nothing_is_lost(init);
        if s.last() == LINE_FEED {
            let line = rest_of(init).push(LINE_FEED);
            lemma_flatten_push(lines_of(init), line);
            assert(lines_of(init).flatten() + line =~= init.push(LINE_FEED));
            assert(init.push(LINE_FEED) =~= s);
        } else {
            assert(lines_of(init).flatten() + rest_of(s) =~= init.push(s.last()));
            assert(init.push(s.last()) =~= s);
        }
    }
}

proof fn lemma_flatten_push(lines: Seq<Seq<u8>>, line: Seq<u8>)
    ensures
        lines.push(line).flatten() == lines.flatten() + line,
    decreases lines.len(),
{
    if lines.len() == 0 {
        let none = Seq::<Seq<u8>>::empty();
        assert(lines =~= none);
        assert(lines.push(line).drop_first() =~= none);
        assert(none.flatten() =~= Seq::empty());
        assert(lines.push(line).flatten() =~= line);
    } else {
        assert(lines.push(line).drop_first() =~= lines.drop_first().push(line));
        lemma_flatten_push(lines.drop_first(), line);
        assert(lines.push(line).flatten() =~= lines.flatten() + line);
    }
}

/// A line ends in its only line feed.
pub proof fn law_lines_end_in_their_only_feed(s: Seq<u8>, k: int)
    requires
        0 <= k < lines_of(s).len(),
    ensures
        lines_of(s)[k].len() > 0,
        forall|i: int|
            0 <= i < lines_of(s)[k].len() ==> (#[trigger] lines_of(s)[k][i] == LINE_FEED <==> i
                == lines_of(s)[k].len() - 1),
    decreases s.len(),
{
    let init = s.drop_last();
    if s.last() == LINE_FEED {
        if k < lines_of(init).len() {
            law_lines_end_in_their_only_feed(init, k);
        } else {
            lemma_rest_has_no_feed(init);
        }
    } else {
        law_lines_end_in_their_only_feed(init, k);
    }
}

proof fn lemma_rest_has_no_feed(s: Seq<u8>)
    ensures
        forall|i: int| 0 <= i < rest_of(s).len() ==> #[trigger] rest_of(s)[i] != LINE_FEED,
    decreases s.len(),
{
    if s.len() > 0 && s.last() != LINE_FEED {
        let r = rest_of(s.drop_last());
        lemma_rest_has_no_feed(s.drop_last());
        assert forall|i: int| 0 <= i < rest_of(s).len() implies #[trigger] rest_of(s)[i]
            != LINE_FEED by {
            if i < r.len() {
                assert(rest_of(s)[i] == r[i]);
            }
        }
    }
}

/// Where the chunks are cut does not matter: taking `a` and then `b` gives the
/// lines and the rest of `a` and `b` together, as long as no unfinished line
/// exceeds the limit in between.
pub proof fn law_chunking_does_not_matter(a: Seq<u8>, b: Seq<u8>)
    requires
        rest_of(a).len() <= PENDING_LIMIT,
    ensures
        lines_of(a + b) == lines_of(a) + lines_of(kept(rest_of(a)) + b),
        rest_of(a + b) == rest_of(kept(rest_of(a)) + b),
    decreases b.len(),
{
    let r = rest_of(a);
    if b.len() == 0 {
        assert(a + b =~= a);
        assert(r + b =~= r);
        lemma_rest_is_rest(a);
        lemma_rest_has_no_lines(r);
        assert(lines_of(a) + Seq::<Seq<u8>>::empty() =~= lines_of(a));
    } else {
        law_chunking_does_not_matter(a, b.drop_last());
        assert((a + b).drop_last() =~= a + b.drop_last());
        assert((r + b).drop_last() =~= r + b.drop_last());
        assert((a + b).last() == b.last());
        assert((r + b).last() == b.last());
        assert(lines_of(a + b) =~= lines_of(a) + lines_of(r + b));
    }
}

/// What is left unfinished holds no line feed.
pub proof fn law_the_rest_is_unfinished(s: Seq<u8>, i: int)
    requires
        0 <= i < rest_of(s).len(),
    ensures
        rest_of(s)[i] != 10,
{
    lemma_rest_has_no_feed(s);
}

/// A line is complete as soon as its line feed has come, and not before: a text without
/// line feeds gives no lines, and one more line feed makes one more line of what was
/// unfinished.
pub proof fn law_lines_are_complete(s: Seq<u8>, b: u8)
    ensures
        b == 10 ==> lines_of(s.push(b)) == lines_of(s).push(rest_of(s).push(10)) && rest_of(
            s.push(b),
        ).len() == 0,
        b != 10 ==> lines_of(s.push(b)) == lines_of(s) && rest_of(s.push(b)) == rest_of(s).push(b),
        lines_of(Seq::empty()).len() == 0,
        rest_of(Seq::empty()).len() == 0,
{
    assert(s.push(b).drop_last() =~= s);
}

/// A pump hands on the lines that a chunk completes, and keeps the unfinished one unless
/// it has grown beyond a mebibyte.
pub proof fn law_pumping(pump: &mut LogPump, chunk: &[u8], r: Vec<Vec<u8>>)
    requires
        call_ensures(LogPump::push, (pump, chunk), r),
    ensures
        r.deep_view() == lines_of(old(pump)@ + chunk@),
        rest_of(old(pump)@ + chunk@).len() <= 1024 * 1024 ==> final(pump)@ == rest_of(
            old(pump)@ + chunk@,
        ),
        rest_of(old(pump)@ + chunk@).len() > 1024 * 1024 ==> final(pump)@.len() == 0,
{
}

/// A new pump holds nothing, and what a pump holds at the end is handed on whole.
pub proof fn law_pump_ends(fresh: LogPump, pump: LogPump, r: Option<Vec<u8>>)
    requires
        call_ensures(LogPump::new, (), fresh),
        call_ensures(LogPump::finish, (pump,), r),
    ensures
        fresh@.len() == 0,
        r is Some <==> pump@.len() > 0,
        r is Some ==> r->0@ == pump@,
{
}

/// What is printed names the device and the stream, and brings the text as it is; an
/// unfinished line is marked and ended.
pub proof fn law_printed_text(
    serial: &str,
    stream_name: &str,
    text: &str,
    line: String,
    rest: String,
)
    requires
        call_ensures(line_text, (serial, stream_name, text), line),
        call_ensures(unterminated_text, (serial, stream_name, text), rest),
    ensures
        line@ == "[SCRCPY-SERVER]["@ + serial@ + "]["@ + stream_name@ + "] "@ + text@,
        rest@ == "[SCRCPY-SERVER]["@ + serial@ + "]["@ + stream_name@ + "] "@ + "(unterminated) "@
            + text@ + "\n"@,
{
}

} // verus!
