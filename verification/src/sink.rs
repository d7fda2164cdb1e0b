//! The process-wide log sink: tagged output lines of running steps. Lines of
//! one (step, stream) pair are kept in the order they were pushed; the sink
//! never reorders or drops a line.

use vstd::prelude::*;
use vstd::string::*;

verus! {

/// Which stream of the child a line came from.
#[derive(Debug, Clone, Copy, PartialEq, Eq, Structural)]
pub enum StreamKind {
    Stdout,
    Stderr,
}

/// One line of output, tagged with its step and stream.
#[derive(Debug, Clone)]
pub struct TaggedLine {
    pub step: String,
    pub stream: StreamKind,
    pub line: String,
}

/// The sink: all tagged lines of one run, in arrival order.
#[derive(Debug)]
pub struct LogSink {
    pub entries: Vec<TaggedLine>,
}

/// The lines recorded for one (step, stream) pair, in arrival order.
pub open spec fn lines_for(entries: Seq<TaggedLine>, step: Seq<char>, kind: StreamKind)
    -> Seq<Seq<char>> {
    entries.filter(|t: TaggedLine| t.step@ == step && t.stream == kind)
        .map_values(|t: TaggedLine| t.line@)
}

/// How a tagged line is printed: `stdout(step): line` or `stderr(step): line`.
pub open spec fn spec_render(t: TaggedLine) -> Seq<char> {
    (match t.stream {
        StreamKind::Stdout => "stdout("@,
        StreamKind::Stderr => "stderr("@,
    }) + t.step@ + "): "@ + t.line@
}

/// Line preservation: pushing a line appends it to the record of its own
/// (step, stream) pair and leaves the record of every other pair unchanged.
pub proof fn lemma_line_preservation(entries: Seq<TaggedLine>, t: TaggedLine)
    ensures
        lines_for(entries.push(t), t.step@, t.stream)
            == lines_for(entries, t.step@, t.stream).push(t.line@),
        forall|s: Seq<char>, k: StreamKind| !(s == t.step@ && k == t.stream)
            ==> #[trigger] lines_for(entries.push(t), s, k) == lines_for(entries, s, k),
{
    reveal(Seq::filter);
    assert(entries.push(t).drop_last() =~= entries);
    let own = |x: TaggedLine| x.step@ == t.step@ && x.stream == t.stream;
    assert(entries.push(t).filter(own) == entries.filter(own).push(t));
    assert(entries.push(t).filter(own).map_values(|x: TaggedLine| x.line@)
        =~= entries.filter(own).map_values(|x: TaggedLine| x.line@).push(t.line@));
    assert forall|s: Seq<char>, k: StreamKind| !(s == t.step@ && k == t.stream)
        implies #[trigger] lines_for(entries.push(t), s, k) == lines_for(entries, s, k) by {
        let pred = |x: TaggedLine| x.step@ == s && x.stream == k;
        assert(!pred(t));
        assert(entries.push(t).filter(pred) == entries.filter(pred));
    }
}

impl LogSink {
    /// An empty sink.
    pub fn new() -> (r: LogSink)
        ensures
            r.entries@.len() == 0,
    {
        LogSink { entries: Vec::new() }
    }

    /// Forwards one line to the sink.
    pub fn push(&mut self, step: String, stream: StreamKind, line: String)
        ensures
            final(self).entries@ == old(self).entries@.push(TaggedLine { step, stream, line }),
    {
        self.entries.push(TaggedLine { step, stream, line });
    }

    /// How many lines the sink holds.
    pub fn len(&self) -> (r: usize)
        ensures
            r == self.entries@.len(),
    {
        self.entries.len()
    }

    /// Renders entry `i` as one output line, the stderr stream visually
    /// distinguished by its prefix.
    pub fn render(&self, i: usize) -> (r: String)
        requires
            i < self.entries@.len(),
        ensures
            r@ == spec_render(self.entries@[i as int]),
    {
        let t = &self.entries[i];
        let mut s = match t.stream {
            StreamKind::Stdout => String::from_str("stdout("),
            StreamKind::Stderr => String::from_str("stderr("),
        };
        s.append(t.step.as_str());
        s.append("): ");
        s.append(t.line.as_str());
        s
    }
}

} // verus!
