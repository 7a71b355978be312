//! What a statement leaves in the transcript once it has run.
//!
//! Recording happens after execution, so a command never sees itself.
//! `context clear` and `context trim` never record themselves; the output of
//! `context show`, `context summarize` and `ask` is never recorded back; the
//! response of `ask` is recorded after its command.

use vstd::prelude::*;
use crate::redact::{
    extract_flag_values, lemma_scrubbed_literals_absent, marker, scrub, scrub_literals,
    shares_no_char, spec_extract_flag_values,
};
use crate::context::{context_effect, ContextCommand};
use crate::scope::{redaction_rules_of, spec_redaction_rules_of};
use crate::text::{
    chars_eq, chars_start_with, split_words, starts_with, str_views, string_from_chars,
    occurs_at, string_from_range, string_views, to_chars, trim, trim_chars, trim_end_char,
    trim_end_char_len, words,
};
use crate::transcript::{
    take_pending_response, EntryTag, EntryView, PendingResponse, Transcript, TranscriptEntry,
};

verus! {

/// `t` is exactly `word`, or `word` followed by a space and more.
pub open spec fn is_invocation_of(t: Seq<char>, word: Seq<char>) -> bool {
    t == word || starts_with(t, word.push(' '))
}

/// `context clear` and `context trim`: transcript-mutating commands that must
/// not record themselves.
pub open spec fn spec_is_self_erasing(cmd: Seq<char>) -> bool {
    let t = trim(cmd);
    is_invocation_of(t, "context clear"@) || is_invocation_of(t, "context trim"@)
}

/// `context show`, `context summarize` and `ask`: commands whose output is
/// not recorded back into the transcript.
pub open spec fn spec_is_inspection(cmd: Seq<char>) -> bool {
    let t = trim(cmd);
    is_invocation_of(t, "context show"@) || is_invocation_of(t, "context summarize"@)
        || is_invocation_of(t, "ask"@)
}

/// Whether the trimmed command `t` invokes `word`.
fn invokes(t: &Vec<char>, word: &str) -> (r: bool)
    ensures
        r == is_invocation_of(t@, word@),
{
    let w = to_chars(word);
    let mut with_space = w.clone();
    with_space.push(' ');
    chars_eq(t, &w) || chars_start_with(t, &with_space)
}

/// Returns `true` if `cmd` is a transcript-mutating command that must not
/// record itself (`context clear`, `context trim <n>`).
pub fn is_self_erasing_command(cmd: &str) -> (r: bool)
    ensures
        r == spec_is_self_erasing(cmd@),
{
    let t = trim_chars(&to_chars(cmd));
    invokes(&t, "context clear") || invokes(&t, "context trim")
}

/// Returns `true` if `cmd` is a transcript-inspection command whose output
/// must not be recorded back into the transcript (`context show`,
/// `context summarize`, and `ask`, whose response is recorded separately).
pub fn is_inspection_command(cmd: &str) -> (r: bool)
    ensures
        r == spec_is_inspection(cmd@),
{
    let t = trim_chars(&to_chars(cmd));
    invokes(&t, "context show") || invokes(&t, "context summarize") || invokes(&t, "ask")
}

/// The first whitespace-separated word of `cmd`, or nothing.
pub open spec fn first_word(cmd: Seq<char>) -> Seq<char> {
    if words(cmd).len() > 0 {
        words(cmd)[0]
    } else {
        seq![]
    }
}

/// The command text as recorded: the values of the flags that the manifest
/// of its first word declares secret are scrubbed.
pub open spec fn recorded_command_text(cmd: Seq<char>) -> Seq<char> {
    scrub(cmd, secret_values(cmd))
}

/// The values in `cmd` of the flags that the manifest of its first word
/// declares secret; none when it declares none.
pub open spec fn secret_values(cmd: Seq<char>) -> Seq<Seq<char>> {
    let rules = spec_redaction_rules_of(first_word(cmd));
    if rules.len() == 0 {
        seq![]
    } else {
        spec_extract_flag_values(cmd, rules)
    }
}

/// The output text as recorded: without trailing newlines, and with the
/// command's secret values scrubbed.
pub open spec fn recorded_output_text(cmd: Seq<char>, captured: Seq<char>) -> Seq<char> {
    scrub(trim_end_char(captured, '\n'), secret_values(cmd))
}

/// The entries a statement adds to the transcript, given its command line,
/// its captured output and the pending `ask` response.
pub open spec fn recorded_entries(
    cmd: Seq<char>,
    captured: Seq<char>,
    pending: Option<Seq<char>>,
    at: u64,
) -> Seq<EntryView> {
    if spec_is_self_erasing(cmd) {
        seq![]
    } else {
        seq![EntryView { tag: EntryTag::Command, text: recorded_command_text(cmd), at }] + (if captured.len()
            > 0 && !spec_is_inspection(cmd) {
            seq![EntryView { tag: EntryTag::Output, text: recorded_output_text(cmd, captured), at }]
        } else {
            seq![]
        }) + (match pending {
            Some(r) => seq![EntryView { tag: EntryTag::AiResponse, text: r, at }],
            None => seq![],
        })
    }
}

/// The values in `cmd` of its declared-secret flags.
pub fn secret_values_of(cmd: &str) -> (r: Vec<String>)
    ensures
        string_views(r@) == secret_values(cmd@),
{
    let chars = to_chars(cmd);
    let ws = split_words(&chars);
    let first = if ws.len() > 0 {
        string_from_chars(&ws[0])
    } else {
        String::new()
    };
    let rules = redaction_rules_of(first.as_str());
    if rules.len() == 0 {
        let r: Vec<String> = Vec::new();
        assert(string_views(r@) =~= Seq::<Seq<char>>::empty());
        r
    } else {
        extract_flag_values(cmd, rules)
    }
}

/// `text` with every occurrence of each value, in turn, scrubbed.
fn scrub_values(text: &str, values: &Vec<String>) -> (r: String)
    ensures
        r@ == scrub(text@, string_views(values@)),
{
    let mut refs: Vec<&str> = Vec::new();
    let mut i: usize = 0;
    while i < values.len()
        invariant
            i <= values@.len(),
            str_views(refs@) == string_views(values@).take(i as int),
        decreases values@.len() - i,
    {
        let v = values[i].as_str();
        assert(v@ == string_views(values@)[i as int]);
        let ghost before = str_views(refs@);
        refs.push(v);
        assert(str_views(refs@) =~= before.push(v@));
        assert(string_views(values@).take(i + 1) =~= string_views(values@).take(i as int).push(
            v@,
        ));
        i = i + 1;
    }
    assert(string_views(values@).take(values@.len() as int) =~= string_views(values@));
    scrub_literals(text, refs.as_slice())
}

/// The command text to record for `cmd`, with declared-secret values
/// scrubbed.
pub fn command_text_for_record(cmd: &str) -> (r: String)
    ensures
        r@ == recorded_command_text(cmd@),
{
    let values = secret_values_of(cmd);
    scrub_values(cmd, &values)
}

/// Records a finished statement: its command, its captured output unless it
/// is an inspection command (both with declared-secret values scrubbed), and the pending `ask`
/// response, in that order; nothing at all for self-erasing commands, which
/// also leave the pending response where it is.
pub fn record_statement(
    transcript: &mut Transcript,
    pending: &mut PendingResponse,
    cmd: &str,
    captured: &str,
    at: u64,
)
    ensures
        final(transcript)@ == old(transcript)@ + recorded_entries(
            cmd@,
            captured@,
            old(pending)@,
            at,
        ),
        final(pending)@ == (if spec_is_self_erasing(cmd@) {
            old(pending)@
        } else {
            None
        }),
{
    if is_self_erasing_command(cmd) {
        assert(transcript@ =~= old(transcript)@ + Seq::<EntryView>::empty());
        return;
    }
    let values = secret_values_of(cmd);
    let cmd_text = scrub_values(cmd, &values);
    transcript.push(TranscriptEntry::command(cmd_text.as_str(), at));
    let ghost after_cmd = transcript@;
    let out = to_chars(captured);
    if out.len() > 0 && !is_inspection_command(cmd) {
        let n = trim_end_char_len(&out, out.len(), '\n');
        assert(out@.subrange(0, out@.len() as int) =~= out@);
        let text = string_from_range(&out, 0, n);
        let scrubbed = scrub_values(text.as_str(), &values);
        transcript.push(TranscriptEntry::output(scrubbed.as_str(), at));
    }
    let ghost after_out = transcript@;
    if let Some(response) = take_pending_response(pending) {
        transcript.push(TranscriptEntry::ai_response(response, at));
    }
    assert(transcript@ =~= old(transcript)@ + recorded_entries(
        cmd@,
        captured@,
        old(pending)@,
        at,
    ));
}

// ---------------------------------------------------------------------------
// Laws of recording
// ---------------------------------------------------------------------------

/// `context clear` and `context trim` never record themselves: they add no
/// entry to the transcript.
pub proof fn lemma_self_erasing_records_nothing(
    cmd: Seq<char>,
    captured: Seq<char>,
    pending: Option<Seq<char>>,
    at: u64,
)
    requires
        spec_is_self_erasing(cmd),
    ensures
        recorded_entries(cmd, captured, pending, at) == Seq::<EntryView>::empty(),
{
}

/// After `context clear` has run and its statement has been recorded, the
/// transcript is empty.
pub proof fn lemma_clear_leaves_transcript_empty(
    t: Seq<EntryView>,
    cmd: Seq<char>,
    captured: Seq<char>,
    pending: Option<Seq<char>>,
    at: u64,
)
    requires
        spec_is_self_erasing(cmd),
    ensures
        context_effect(t, ContextCommand::Clear) + recorded_entries(cmd, captured, pending, at)
            == Seq::<EntryView>::empty(),
{
    assert(Seq::<EntryView>::empty() + Seq::<EntryView>::empty() =~= Seq::<EntryView>::empty());
}

/// After `context trim <n>` has run and its statement has been recorded, the
/// transcript holds exactly the entries after the oldest `n`.
pub proof fn lemma_trim_leaves_exact_suffix(
    t: Seq<EntryView>,
    n: usize,
    cmd: Seq<char>,
    captured: Seq<char>,
    pending: Option<Seq<char>>,
    at: u64,
)
    requires
        spec_is_self_erasing(cmd),
        n <= t.len(),
    ensures
        context_effect(t, ContextCommand::Trim(n)) + recorded_entries(cmd, captured, pending, at)
            == t.skip(n as int),
{
    assert(t.skip(n as int) + Seq::<EntryView>::empty() =~= t.skip(n as int));
}

/// The output of an inspection command (`context show`, `context
/// summarize`, `ask`) is never recorded.
pub proof fn lemma_inspection_output_not_recorded(
    cmd: Seq<char>,
    captured: Seq<char>,
    pending: Option<Seq<char>>,
    at: u64,
)
    requires
        spec_is_inspection(cmd),
    ensures
        forall|k: int|
            0 <= k < recorded_entries(cmd, captured, pending, at).len() ==> (#[trigger] recorded_entries(
                cmd,
                captured,
                pending,
                at,
            )[k]).tag != EntryTag::Output,
{
}

/// A recorded statement begins with its command entry; a pending AI response
/// comes after it, last; at most one output entry lies between.
pub proof fn lemma_recording_order(
    cmd: Seq<char>,
    captured: Seq<char>,
    pending: Option<Seq<char>>,
    at: u64,
)
    requires
        !spec_is_self_erasing(cmd),
    ensures
        ({
            let r = recorded_entries(cmd, captured, pending, at);
            &&& 1 <= r.len() <= 3
            &&& r[0] == (EntryView { tag: EntryTag::Command, text: recorded_command_text(cmd), at })
            &&& pending matches Some(resp) ==> r.last() == (EntryView {
                tag: EntryTag::AiResponse,
                text: resp,
                at,
            })
            &&& pending is None ==> r.last().tag != EntryTag::AiResponse
        }),
{
}

/// An `ask` statement with a response records exactly its command followed
/// by the response, never the response as output.
pub proof fn lemma_ask_records_command_then_response(
    cmd: Seq<char>,
    captured: Seq<char>,
    response: Seq<char>,
    at: u64,
)
    requires
        is_invocation_of(trim(cmd), "ask"@),
    ensures
        recorded_entries(cmd, captured, Some(response), at) == seq![
            EntryView { tag: EntryTag::Command, text: recorded_command_text(cmd), at },
            EntryView { tag: EntryTag::AiResponse, text: response, at },
        ],
{
    let t = trim(cmd);
    reveal_strlit("ask");
    reveal_strlit("context clear");
    reveal_strlit("context trim");
    assert(t.len() > 0 && t[0] == 'a') by {
        if t != "ask"@ {
            assert(t.subrange(0, 4)[0] == t[0]);
        }
    }
    if is_invocation_of(t, "context clear"@) {
        if t != "context clear"@ {
            assert(t.subrange(0, 14)[0] == t[0]);
        }
    }
    if is_invocation_of(t, "context trim"@) {
        if t != "context trim"@ {
            assert(t.subrange(0, 13)[0] == t[0]);
        }
    }
    assert(!spec_is_self_erasing(cmd));
    assert(spec_is_inspection(cmd));
}

/// A declared-secret value never enters the transcript through a command or
/// an output entry, provided it shares no character with the marker that
/// replaces it.
pub proof fn lemma_secrets_never_recorded(
    cmd: Seq<char>,
    captured: Seq<char>,
    pending: Option<Seq<char>>,
    at: u64,
    k: int,
    j: int,
    off: int,
)
    requires
        0 <= k < secret_values(cmd).len(),
        secret_values(cmd)[k].len() > 0,
        forall|m: int|
            0 <= m < secret_values(cmd).len() ==> shares_no_char(
                #[trigger] secret_values(cmd)[m],
                marker(),
            ),
        0 <= j < recorded_entries(cmd, captured, pending, at).len(),
        recorded_entries(cmd, captured, pending, at)[j].tag != EntryTag::AiResponse,
    ensures
        !occurs_at(recorded_entries(cmd, captured, pending, at)[j].text, secret_values(cmd)[k], off),
{
    let r = recorded_entries(cmd, captured, pending, at);
    if r[j].tag == EntryTag::Command {
        assert(r[j].text == recorded_command_text(cmd));
        lemma_scrubbed_literals_absent(cmd, secret_values(cmd), k, off);
    } else {
        assert(r[j].text == recorded_output_text(cmd, captured));
        lemma_scrubbed_literals_absent(trim_end_char(captured, '\n'), secret_values(cmd), k, off);
    }
}

} // verus!
