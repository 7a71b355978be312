//! The session transcript: an ordered record of every command typed, every
//! output produced and every AI response, owned by the shell as a value.
//! Also the one-slot cell through which `ask` hands its response to the
//! statement recorder.

use vstd::prelude::*;
use crate::text::{append_str, decimal, join, join_strings, push_decimal};

verus! {

/// Which kind of thing a transcript entry records.
#[derive(Debug, Clone, Copy, PartialEq, Eq, Structural)]
pub enum EntryTag {
    Command,
    Output,
    AiResponse,
}

/// The content of a transcript entry.
pub enum EntryKind {
    /// A command line as the user typed it (after redaction).
    Command(String),
    /// The captured standard output of a command.
    Output(String),
    /// A response produced by the AI model.
    AiResponse(String),
}

/// The mathematical content of an entry kind.
pub struct KindView {
    pub tag: EntryTag,
    pub text: Seq<char>,
}

impl View for EntryKind {
    type V = KindView;

    open spec fn view(&self) -> KindView {
        match self {
            EntryKind::Command(t) => KindView { tag: EntryTag::Command, text: t@ },
            EntryKind::Output(t) => KindView { tag: EntryTag::Output, text: t@ },
            EntryKind::AiResponse(t) => KindView { tag: EntryTag::AiResponse, text: t@ },
        }
    }
}

/// The stable lower-case name of a tag.
pub open spec fn tag_name(tag: EntryTag) -> Seq<char> {
    match tag {
        EntryTag::Command => "command"@,
        EntryTag::Output => "output"@,
        EntryTag::AiResponse => "ai_response"@,
    }
}

impl EntryKind {
    /// The stable lower-case name of this kind: `command`, `output` or
    /// `ai_response`.
    pub fn tag(&self) -> (r: &'static str)
        ensures
            r@ == tag_name(self@.tag),
    {
        match self {
            EntryKind::Command(_) => "command",
            EntryKind::Output(_) => "output",
            EntryKind::AiResponse(_) => "ai_response",
        }
    }

    /// The recorded text.
    pub fn text(&self) -> (r: &str)
        ensures
            r@ == self@.text,
    {
        match self {
            EntryKind::Command(t) => t.as_str(),
            EntryKind::Output(t) => t.as_str(),
            EntryKind::AiResponse(t) => t.as_str(),
        }
    }
}

/// One transcript entry: what was recorded, and when (seconds since the
/// Unix epoch, as supplied by the caller).
pub struct TranscriptEntry {
    pub kind: EntryKind,
    pub at: u64,
}

/// The mathematical content of a transcript entry.
pub struct EntryView {
    pub tag: EntryTag,
    pub text: Seq<char>,
    pub at: u64,
}

impl View for TranscriptEntry {
    type V = EntryView;

    open spec fn view(&self) -> EntryView {
        EntryView { tag: self.kind@.tag, text: self.kind@.text, at: self.at }
    }
}

/// How an entry reads in the plain rendering: a command is shown after a
/// `$ ` prompt, outputs and AI responses as they are.
pub open spec fn plain(e: EntryView) -> Seq<char> {
    match e.tag {
        EntryTag::Command => "$ "@ + e.text,
        _ => e.text,
    }
}

/// How an entry reads with its timestamp: `[<seconds>] ` before the plain
/// rendering.
pub open spec fn timestamped(e: EntryView) -> Seq<char> {
    "["@ + decimal(e.at as nat) + "] "@ + plain(e)
}

impl TranscriptEntry {
    /// A command entry.
    pub fn command(text: &str, at: u64) -> (e: TranscriptEntry)
        ensures
            e@ == (EntryView { tag: EntryTag::Command, text: text@, at }),
    {
        TranscriptEntry { kind: EntryKind::Command(text.to_owned()), at }
    }

    /// An output entry.
    pub fn output(text: &str, at: u64) -> (e: TranscriptEntry)
        ensures
            e@ == (EntryView { tag: EntryTag::Output, text: text@, at }),
    {
        TranscriptEntry { kind: EntryKind::Output(text.to_owned()), at }
    }

    /// An AI response entry.
    pub fn ai_response(text: String, at: u64) -> (e: TranscriptEntry)
        ensures
            e@ == (EntryView { tag: EntryTag::AiResponse, text: text@, at }),
    {
        TranscriptEntry { kind: EntryKind::AiResponse(text), at }
    }

    /// The entry as plain text.
    pub fn display_plain(&self) -> (r: String)
        ensures
            r@ == plain(self@),
    {
        match &self.kind {
            EntryKind::Command(t) => {
                let mut r = "$ ".to_owned();
                append_str(&mut r, t.as_str());
                r
            },
            EntryKind::Output(t) => t.as_str().to_owned(),
            EntryKind::AiResponse(t) => t.as_str().to_owned(),
        }
    }

    /// The entry as plain text, preceded by its timestamp.
    pub fn display_with_timestamps(&self) -> (r: String)
        ensures
            r@ == timestamped(self@),
    {
        let mut r = "[".to_owned();
        push_decimal(&mut r, self.at);
        append_str(&mut r, "] ");
        let p = self.display_plain();
        append_str(&mut r, p.as_str());
        assert(r@ =~= timestamped(self@));
        r
    }
}

/// The entries' plain renderings.
pub open spec fn plain_lines(entries: Seq<EntryView>) -> Seq<Seq<char>> {
    entries.map_values(|e: EntryView| plain(e))
}

/// The whole transcript as plain text, one entry per line.
pub open spec fn plain_text(entries: Seq<EntryView>) -> Seq<char> {
    join(plain_lines(entries), "\n"@)
}

/// The output of `context show`: each entry's rendering followed by a
/// newline.
pub open spec fn show_text(entries: Seq<EntryView>, timestamps: bool) -> Seq<char>
    decreases entries.len(),
{
    if entries.len() == 0 {
        seq![]
    } else {
        show_text(entries.drop_last(), timestamps) + (if timestamps {
            timestamped(entries.last())
        } else {
            plain(entries.last())
        }) + "\n"@
    }
}

/// The views of a sequence of entries.
pub open spec fn entry_views(s: Seq<TranscriptEntry>) -> Seq<EntryView> {
    s.map_values(|e: TranscriptEntry| e@)
}

/// The transcript: entries in the order they were recorded.
pub struct Transcript {
    entries: Vec<TranscriptEntry>,
}

impl View for Transcript {
    type V = Seq<EntryView>;

    closed spec fn view(&self) -> Seq<EntryView> {
        entry_views(self.entries@)
    }
}

impl Transcript {
    /// An empty transcript.
    pub fn new() -> (t: Transcript)
        ensures
            t@ == Seq::<EntryView>::empty(),
    {
        let t = Transcript { entries: Vec::new() };
        assert(t@ =~= Seq::<EntryView>::empty());
        t
    }

    /// The number of entries.
    pub fn len(&self) -> (n: usize)
        ensures
            n == self@.len(),
    {
        self.entries.len()
    }

    /// Whether there are no entries.
    pub fn is_empty(&self) -> (r: bool)
        ensures
            r == (self@.len() == 0),
    {
        self.entries.len() == 0
    }

    /// The entries, oldest first.
    pub fn entries(&self) -> (r: &Vec<TranscriptEntry>)
        ensures
            entry_views(r@) == self@,
    {
        &self.entries
    }

    /// Records `entry` after all others.
    pub fn push(&mut self, entry: TranscriptEntry)
        ensures
            final(self)@ == old(self)@.push(entry@),
    {
        self.entries.push(entry);
        assert(self@ =~= old(self)@.push(entry@));
    }

    /// Discards every entry.
    pub fn clear(&mut self)
        ensures
            final(self)@ == Seq::<EntryView>::empty(),
    {
        self.entries.clear();
        assert(self@ =~= Seq::<EntryView>::empty());
    }

    /// Drops the oldest `n` entries (all of them when there are fewer).
    pub fn trim(&mut self, n: usize)
        ensures
            n <= old(self)@.len() ==> final(self)@ == old(self)@.skip(n as int),
            n > old(self)@.len() ==> final(self)@ == Seq::<EntryView>::empty(),
    {
        let ghost before = self@;
        let len = self.entries.len();
        let k = if n < len { n } else { len };
        let mut kept: Vec<TranscriptEntry> = Vec::new();
        let mut old_entries: Vec<TranscriptEntry> = Vec::new();
        std::mem::swap(&mut old_entries, &mut self.entries);
        let ghost src = old_entries@;
        assert(src.map_values(|e: TranscriptEntry| e@) == before);
        // Move the kept entries, in order, into a fresh vector.
        let mut rest = old_entries.split_off(k);
        let ghost rv = rest@;
        assert(rv =~= src.subrange(k as int, len as int));
        kept.append(&mut rest);
        self.entries = kept;
        assert(self@ =~= before.skip(k as int)) by {
            assert(self.entries@ =~= src.subrange(k as int, len as int));
        }
        if n > len {
            assert(before.skip(len as int) =~= Seq::<EntryView>::empty());
        }
    }

    /// The whole transcript as plain text, one entry per line.
    pub fn plain_text(&self) -> (r: String)
        ensures
            r@ == plain_text(self@),
    {
        let mut lines: Vec<String> = Vec::new();
        let mut i: usize = 0;
        while i < self.entries.len()
            invariant
                i <= self@.len(),
                lines@.len() == i,
                forall|k: int| 0 <= k < i ==> (#[trigger] lines@[k])@ == plain(self@[k]),
            decreases self@.len() - i,
        {
            lines.push(self.entries[i].display_plain());
            i = i + 1;
        }
        assert(lines@.map_values(|p: String| p@) =~= plain_lines(self@));
        join_strings(&lines, "\n")
    }

    /// What `context show` prints: one rendered entry per line.
    pub fn show(&self, timestamps: bool) -> (r: String)
        ensures
            r@ == show_text(self@, timestamps),
    {
        let mut r = String::new();
        let mut i: usize = 0;
        while i < self.entries.len()
            invariant
                i <= self@.len(),
                r@ == show_text(self@.take(i as int), timestamps),
            decreases self@.len() - i,
        {
            let line = if timestamps {
                self.entries[i].display_with_timestamps()
            } else {
                self.entries[i].display_plain()
            };
            append_str(&mut r, line.as_str());
            append_str(&mut r, "\n");
            assert(self@.take(i + 1).drop_last() =~= self@.take(i as int));
            i = i + 1;
        }
        assert(self@.take(self@.len() as int) =~= self@);
        r
    }
}

// ---------------------------------------------------------------------------
// The pending-response cell
// ---------------------------------------------------------------------------

/// A one-slot cell holding the response of the last successful `ask`, until
/// the statement recorder takes it.
pub struct PendingResponse {
    value: Option<String>,
}

/// The content of an optional string.
pub open spec fn opt_view(o: Option<String>) -> Option<Seq<char>> {
    match o {
        Some(s) => Some(s@),
        None => None,
    }
}

impl View for PendingResponse {
    type V = Option<Seq<char>>;

    closed spec fn view(&self) -> Option<Seq<char>> {
        opt_view(self.value)
    }
}

impl PendingResponse {
    /// An empty cell.
    pub fn new() -> (c: PendingResponse)
        ensures
            c@ is None,
    {
        PendingResponse { value: None }
    }

    /// Stores `response`, replacing anything held.
    pub fn set(&mut self, response: String)
        ensures
            final(self)@ == Some(response@),
    {
        self.value = Some(response);
    }
}

/// Takes the pending response stored by the last successful `ask`, if any,
/// and clears the cell.
pub fn take_pending_response(cell: &mut PendingResponse) -> (r: Option<String>)
    ensures
        opt_view(r) == old(cell)@,
        final(cell)@ is None,
{
    cell.value.take()
}

} // verus!
