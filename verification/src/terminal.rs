//! What a run shows on a terminal, and how it asks there.

use vstd::prelude::*;
use vstd::string::*;

use crate::approval::{ApprovalRequest, Decision};
use crate::text;

verus! {

// ---------------------------------------------------------------------------
// Asking
// ---------------------------------------------------------------------------

/// The lines that put a request to the user. What is attempted is not told
/// twice.
pub open spec fn request_lines_spec(descriptor: Seq<char>, detail: Seq<char>) -> Seq<Seq<char>> {
    let first = "\n⚠ approval needed: "@ + descriptor;
    if detail.len() > 0 && detail != descriptor {
        seq![first, "  "@ + detail]
    } else {
        seq![first]
    }
}

/// The lines that put a request to the user.
pub fn request_lines(request: &ApprovalRequest) -> (r: Vec<String>)
    ensures
        text::views(r@) == request_lines_spec(request.descriptor@, request.detail@),
{
    let mut out: Vec<String> = Vec::new();
    text::add_text(
        &mut out,
        text::cat2("\n⚠ approval needed: ", request.descriptor.as_str()),
    );
    if !request.detail.as_str().is_empty() && !text::same(
        request.detail.as_str(),
        request.descriptor.as_str(),
    ) {
        text::add_text(&mut out, text::cat2("  ", request.detail.as_str()));
    }
    assert(text::views(out@) =~= request_lines_spec(request.descriptor@, request.detail@));
    out
}

/// The question that follows the request.
pub fn question(request: &ApprovalRequest) -> (r: String)
    ensures
        r@ == "  [y] once · [a] always ("@ + request.always_pattern@ + ") · [N] deny > "@,
{
    text::cat3("  [y] once · [a] always (", request.always_pattern.as_str(), ") · [N] deny > ")
}

/// What a word in lower case answers: everything but a clear yes denies.
pub open spec fn decision_spec(word: Seq<char>) -> Decision {
    if word == "y"@ || word == "yes"@ {
        Decision::Approve
    } else if word == "a"@ || word == "always"@ {
        Decision::AlwaysAllow
    } else {
        Decision::Deny
    }
}

/// What a word in lower case answers.
pub fn decision_for(word: &str) -> (r: Decision)
    ensures
        r == decision_spec(word@),
{
    if text::same(word, "y") || text::same(word, "yes") {
        Decision::Approve
    } else if text::same(word, "a") || text::same(word, "always") {
        Decision::AlwaysAllow
    } else {
        Decision::Deny
    }
}

/// What a line of input answers, in capitals or not; no line denies.
pub fn answer(line: Option<&str>) -> (r: Decision)
    ensures
        r == (match line {
            Some(s) => decision_spec(text::lowercased(text::trim_spec(s@))),
            None => Decision::Deny,
        }),
{
    match line {
        Some(s) => {
            let trimmed = text::trim(s);
            let word = text::lowercase(trimmed.as_str());
            decision_for(word.as_str())
        },
        None => Decision::Deny,
    }
}

// ---------------------------------------------------------------------------
// Streaming
// ---------------------------------------------------------------------------

/// Bytes that are held back before they are written whatever comes.
pub const STREAM_BUFFER_BYTES: usize = 4096;

/// Milliseconds after which held bytes are due.
pub const STREAM_FLUSH_MS: u64 = 16;

/// Bytes on their way to the terminal.
pub struct StderrStream {
    pub pending: Vec<u8>,
}

/// The bytes of a fragment.
pub open spec fn bytes_of(fragment: Seq<char>) -> Seq<u8> {
    vstd::utf8::encode_utf8(fragment)
}

/// Whether held bytes have to be written: a line ended, there are many, or the
/// last writing is long ago.
pub open spec fn must_write(fragment: Seq<char>, held: nat, since_ms: nat) -> bool {
    fragment.contains('\n') || held >= STREAM_BUFFER_BYTES || since_ms >= STREAM_FLUSH_MS
}

impl StderrStream {
    /// A stream that holds nothing.
    pub fn new() -> (r: StderrStream)
        ensures
            r.pending@.len() == 0,
    {
        StderrStream { pending: Vec::new() }
    }

    /// Take a fragment. `since_ms` is the time since bytes were last written.
    /// Returns what has to be written now.
    pub fn push(&mut self, fragment: &str, since_ms: u64) -> (r: Option<Vec<u8>>)
        ensures
            ({
                let (now, left) = pushed(old(self).pending@, fragment@, since_ms as nat);
                &&& final(self).pending@ == left
                &&& match r {
                    Some(bytes) => bytes@ == now && now.len() > 0,
                    None => now.len() == 0,
                }
            }),
    {
        let bytes = fragment.as_bytes();
        let ghost before = self.pending@;
        let mut i: usize = 0;
        while i < bytes.len()
            invariant
                i <= bytes@.len(),
                bytes@ == bytes_of(fragment@),
                self.pending@ == before + bytes@.take(i as int),
            decreases bytes@.len() - i,
        {
            self.pending.push(bytes[i]);
            assert(bytes@.take(i as int).push(bytes@[i as int]) =~= bytes@.take(i + 1));
            i = i + 1;
        }
        assert(bytes@.take(bytes@.len() as int) =~= bytes@);
        let v = text::chars(fragment);
        let mut ended = false;
        let mut k: usize = 0;
        while k < v.len()
            invariant
                k <= v@.len(),
                v@ == fragment@,
                ended == exists|j: int| 0 <= j < k && #[trigger] v@[j] == '\n',
            decreases v@.len() - k,
        {
            if v[k] == '\n' {
                assert(v@[k as int] == '\n');
                ended = true;
            }
            k = k + 1;
        }
        assert(ended == fragment@.contains('\n')) by {
            if fragment@.contains('\n') {
                let j = fragment@.index_of('\n');
                assert(v@[j] == '\n');
            }
        }
        if ended || self.pending.len() >= STREAM_BUFFER_BYTES || since_ms >= STREAM_FLUSH_MS {
            self.flush()
        } else {
            None
        }
    }

    /// What is held, if anything is; then nothing is.
    pub fn flush(&mut self) -> (r: Option<Vec<u8>>)
        ensures
            final(self).pending@.len() == 0,
            match r {
                Some(bytes) => bytes@ == old(self).pending@ && bytes@.len() > 0,
                None => old(self).pending@.len() == 0,
            },
    {
        if self.pending.len() == 0 {
            return None;
        }
        let mut out: Vec<u8> = Vec::new();
        std::mem::swap(&mut out, &mut self.pending);
        Some(out)
    }
}

/// What is written now and what is held once a fragment is taken.
pub open spec fn pushed(held: Seq<u8>, fragment: Seq<char>, since_ms: nat) -> (Seq<u8>, Seq<u8>) {
    let all = held + bytes_of(fragment);
    if must_write(fragment, all.len(), since_ms) {
        (all, seq![])
    } else {
        (seq![], all)
    }
}

/// What has been written and what is held after fragments, each with the time
/// since the last writing.
pub open spec fn streamed(fragments: Seq<(Seq<char>, nat)>) -> (Seq<u8>, Seq<u8>)
    decreases fragments.len(),
{
    if fragments.len() == 0 {
        (seq![], seq![])
    } else {
        let (out, held) = streamed(fragments.drop_last());
        let (now, left) = pushed(held, fragments.last().0, fragments.last().1);
        (out + now, left)
    }
}

/// All bytes of fragments.
pub open spec fn all_bytes(fragments: Seq<(Seq<char>, nat)>) -> Seq<u8>
    decreases fragments.len(),
{
    if fragments.len() == 0 {
        seq![]
    } else {
        all_bytes(fragments.drop_last()) + bytes_of(fragments.last().0)
    }
}

/// Nothing is lost and nothing changes places: whenever fragments come, what
/// was written and what is still held are together what was given.
pub proof fn law_streaming_loses_nothing(fragments: Seq<(Seq<char>, nat)>)
    ensures
        streamed(fragments).0 + streamed(fragments).1 == all_bytes(fragments),
    decreases fragments.len(),
{
    if fragments.len() == 0 {
        assert(streamed(fragments).0 + streamed(fragments).1 =~= seq![]);
    } else {
        law_streaming_loses_nothing(fragments.drop_last());
        let (out, held) = streamed(fragments.drop_last());
        let bytes = bytes_of(fragments.last().0);
        assert(streamed(fragments).0 + streamed(fragments).1 =~= (out + held) + bytes);
    }
}

/// Whether the final answer is printed: not where it was just streamed to the
/// very terminal that it would go to.
pub fn prints_final(stdout_is_terminal: bool, stderr_is_terminal: bool) -> (r: bool)
    ensures
        r == !(stdout_is_terminal && stderr_is_terminal),
{
    !(stdout_is_terminal && stderr_is_terminal)
}

} // verus!
