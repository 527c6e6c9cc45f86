//! Framing of a streamed answer: the bytes that arrive are gathered in a buffer, and the
//! buffer is taken apart line by line. A line that is not yet complete stays in the
//! buffer until the rest of it has arrived.

use crate::llm::{
    anthropic_chunk, anthropic_chunk_view, decode_anthropic_event, decode_ollama_line,
    decoded_anthropic_event, decoded_ollama_line, ollama_carries_chunk, ollama_chunk,
};
use crate::nodes::{messages_view, ChatMessage, ChatMessageView};
use crate::text::{char_is_space, is_space, same_text};
use vstd::prelude::*;
use vstd::string::{StrSliceExecFns, StringExecFns};

verus! {

/// Index of the first line break of `s` at or behind `k`, or the length of `s` if there
/// is none.
pub open spec fn newline_from(s: Seq<char>, k: int) -> int
    decreases s.len() - k,
{
    if k < 0 || k >= s.len() {
        s.len() as int
    } else if s[k] == '\n' {
        k
    } else {
        newline_from(s, k + 1)
    }
}

/// Index of the first line break of `s`, or the length of `s` if there is none.
pub open spec fn first_newline(s: Seq<char>) -> int {
    newline_from(s, 0)
}

/// Index of the first character of `s` in `lo..hi` that is not white space, or `hi`.
pub open spec fn content_start(s: Seq<char>, lo: int, hi: int) -> int
    decreases hi - lo,
{
    if lo >= hi || lo < 0 || hi > s.len() {
        hi
    } else if is_space(s[lo]) {
        content_start(s, lo + 1, hi)
    } else {
        lo
    }
}

/// Index behind the last character of `s` in `lo..hi` that is not white space, or `lo`.
pub open spec fn content_end(s: Seq<char>, lo: int, hi: int) -> int
    decreases hi - lo,
{
    if lo >= hi || lo < 0 || hi > s.len() {
        lo
    } else if is_space(s[hi - 1]) {
        content_end(s, lo, hi - 1)
    } else {
        hi
    }
}

/// The part of `s` in `lo..hi` without the white space at its two ends.
pub open spec fn trimmed_between(s: Seq<char>, lo: int, hi: int) -> Seq<char> {
    let a = content_start(s, lo, hi);
    s.subrange(a, content_end(s, a, hi))
}

/// `s` without the white space at its two ends.
pub open spec fn trimmed(s: Seq<char>) -> Seq<char> {
    trimmed_between(s, 0, s.len() as int)
}

/// The marker with which a line of data begins in an event stream.
pub open spec fn data_prefix() -> Seq<char> {
    "data: "@
}

/// Whether `line` is a line of data of an event stream.
pub open spec fn is_data_line(line: Seq<char>) -> bool {
    line.len() >= 6 && line.take(6) == data_prefix()
}

/// The chunk that a line of the remote provider's answer carries, if it carries one:
/// the line is a line of data whose payload is an event with a chunk. Any other line,
/// one that cannot be read among them, carries none.
pub open spec fn anthropic_line_chunk(line: Seq<char>) -> Option<ChatMessageView> {
    if !is_data_line(line) {
        None
    } else {
        match decoded_anthropic_event(line.skip(6)) {
            Some(event) => anthropic_chunk_view(event),
            None => None,
        }
    }
}

/// The chunks that the complete lines of `buffer` carry, in order.
pub open spec fn anthropic_chunks(buffer: Seq<char>) -> Seq<ChatMessageView>
    decreases buffer.len(),
{
    let i = first_newline(buffer);
    if i < 0 || i >= buffer.len() {
        Seq::empty()
    } else {
        let later = anthropic_chunks(buffer.skip(i + 1));
        match anthropic_line_chunk(trimmed_between(buffer, 0, i)) {
            Some(chunk) => seq![chunk] + later,
            None => later,
        }
    }
}

/// What is left of `buffer` once its complete lines have been taken: the beginning of
/// a line whose end has not arrived yet.
pub open spec fn unfinished_line(buffer: Seq<char>) -> Seq<char>
    decreases buffer.len(),
{
    let i = first_newline(buffer);
    if i < 0 || i >= buffer.len() {
        buffer
    } else {
        unfinished_line(buffer.skip(i + 1))
    }
}

/// What a line of the local provider's answer carries: a chunk, if the line can be
/// read and its message has content or thinking, and whether the line is the last of
/// the answer. An empty line and a line that cannot be read carry nothing.
pub open spec fn ollama_line_step(line: Seq<char>) -> (Option<ChatMessageView>, bool) {
    if line.len() == 0 {
        (None, false)
    } else {
        match decoded_ollama_line(line) {
            Some(response) => (
                if ollama_carries_chunk(response.message) {
                    Some(response.message)
                } else {
                    None
                },
                response.done,
            ),
            None => (None, false),
        }
    }
}

/// What the complete lines of `buffer` carry up to the last line of the answer: the
/// chunks in order, whether the last line of the answer was among the lines, and what
/// is left of the buffer. Nothing behind the last line of the answer is read.
pub open spec fn ollama_drained(buffer: Seq<char>) -> (Seq<ChatMessageView>, bool, Seq<char>)
    decreases buffer.len(),
{
    let i = first_newline(buffer);
    if i < 0 || i >= buffer.len() {
        (Seq::empty(), false, buffer)
    } else {
        let (chunk, done) = ollama_line_step(trimmed_between(buffer, 0, i));
        let first = match chunk {
            Some(message) => seq![message],
            None => Seq::empty(),
        };
        if done {
            (first, true, buffer.skip(i + 1))
        } else {
            let (later, finished, left) = ollama_drained(buffer.skip(i + 1));
            (first + later, finished, left)
        }
    }
}

/// Where the first line break stands, and that nothing before it is one.
pub proof fn lemma_newline_from(s: Seq<char>, k: int)
    requires
        0 <= k <= s.len(),
    ensures
        k <= newline_from(s, k) <= s.len(),
        newline_from(s, k) < s.len() ==> s[newline_from(s, k)] == '\n',
        forall|j: int| k <= j < newline_from(s, k) ==> s[j] != '\n',
    decreases s.len() - k,
{
    if k < s.len() && s[k] != '\n' {
        lemma_newline_from(s, k + 1);
    }
}

/// The bounds of the trimmed part lie in the given range, in order.
pub proof fn lemma_content_bounds(s: Seq<char>, lo: int, hi: int)
    requires
        0 <= lo <= hi <= s.len(),
    ensures
        lo <= content_start(s, lo, hi) <= hi,
        lo <= content_end(s, lo, hi) <= hi,
    decreases hi - lo,
{
    if lo < hi {
        if is_space(s[lo]) {
            lemma_content_bounds(s, lo + 1, hi);
        }
        if is_space(s[hi - 1]) {
            lemma_content_bounds(s, lo, hi - 1);
        }
    }
}

/// Texts that agree on a range have the same trimmed part there.
pub proof fn lemma_trimmed_agrees(s: Seq<char>, t: Seq<char>, lo: int, hi: int)
    requires
        0 <= lo <= hi <= s.len(),
        hi <= t.len(),
        forall|j: int| lo <= j < hi ==> s[j] == t[j],
    ensures
        content_start(s, lo, hi) == content_start(t, lo, hi),
        content_end(s, lo, hi) == content_end(t, lo, hi),
        trimmed_between(s, lo, hi) == trimmed_between(t, lo, hi),
    decreases hi - lo,
{
    if lo < hi {
        if is_space(s[lo]) {
            lemma_trimmed_agrees(s, t, lo + 1, hi);
        }
        if is_space(s[hi - 1]) {
            lemma_trimmed_agrees(s, t, lo, hi - 1);
        }
    }
    let a = content_start(s, lo, hi);
    lemma_content_bounds(s, lo, hi);
    lemma_ends_agree(s, t, a, hi);
    lemma_content_bounds(s, a, hi);
    assert(s.subrange(a, content_end(s, a, hi)) =~= t.subrange(a, content_end(t, a, hi)));
}

/// Texts that agree on a range have the same last character there that is not white
/// space.
pub proof fn lemma_ends_agree(s: Seq<char>, t: Seq<char>, lo: int, hi: int)
    requires
        0 <= lo <= hi <= s.len(),
        hi <= t.len(),
        forall|j: int| lo <= j < hi ==> s[j] == t[j],
    ensures
        content_end(s, lo, hi) == content_end(t, lo, hi),
    decreases hi - lo,
{
    if lo < hi && is_space(s[hi - 1]) {
        lemma_ends_agree(s, t, lo, hi - 1);
    }
}

/// A line break of a text is the first line break of the text with more behind it.
pub proof fn lemma_newline_stays(b: Seq<char>, r: Seq<char>, k: int)
    requires
        0 <= k <= b.len(),
        newline_from(b, k) < b.len(),
    ensures
        newline_from(b + r, k) == newline_from(b, k),
    decreases b.len() - k,
{
    if k < b.len() {
        assert((b + r)[k] == b[k]);
        if b[k] != '\n' {
            lemma_newline_stays(b, r, k + 1);
        }
    }
}

/// Buffering across reads, for the remote provider: draining what has arrived and then,
/// with the unfinished line kept, what arrives next gives the chunks of the whole text
/// and leaves what draining the whole text leaves.
pub proof fn lemma_anthropic_chunks_across_reads(b: Seq<char>, r: Seq<char>)
    ensures
        anthropic_chunks(b + r) == anthropic_chunks(b) + anthropic_chunks(unfinished_line(b) + r),
        unfinished_line(b + r) == unfinished_line(unfinished_line(b) + r),
    decreases b.len(),
{
    let i = first_newline(b);
    lemma_newline_from(b, 0);
    if i < b.len() {
        let rest = b.skip(i + 1);
        lemma_newline_stays(b, r, 0);
        assert((b + r).skip(i + 1) =~= rest + r);
        assert forall|j: int| 0 <= j < i implies b[j] == (b + r)[j] by {}
        lemma_trimmed_agrees(b, b + r, 0, i);
        lemma_anthropic_chunks_across_reads(rest, r);
        let later = anthropic_chunks(rest);
        let next = anthropic_chunks(unfinished_line(rest) + r);
        match anthropic_line_chunk(trimmed_between(b, 0, i)) {
            Some(chunk) => {
                assert(seq![chunk] + (later + next) =~= (seq![chunk] + later) + next);
            },
            None => {},
        }
    } else {
        assert(Seq::<ChatMessageView>::empty() + anthropic_chunks(b + r) =~= anthropic_chunks(
            b + r,
        ));
    }
}

/// Buffering across reads, for the local provider: if the answer has not ended in what
/// has arrived, draining that and then, with the unfinished line kept, what arrives
/// next gives what draining the whole text gives; if it has ended, what arrives next is
/// only added to what is left.
pub proof fn lemma_ollama_drained_across_reads(b: Seq<char>, r: Seq<char>)
    ensures
        ({
            let (chunks, done, left) = ollama_drained(b);
            let (more, finished, rest) = ollama_drained(left + r);
            ollama_drained(b + r) == if done {
                (chunks, true, left + r)
            } else {
                (chunks + more, finished, rest)
            }
        }),
    decreases b.len(),
{
    let i = first_newline(b);
    lemma_newline_from(b, 0);
    let (chunks, done, left) = ollama_drained(b);
    let (more, finished, rest) = ollama_drained(left + r);
    if i < b.len() {
        let tail = b.skip(i + 1);
        lemma_newline_stays(b, r, 0);
        assert((b + r).skip(i + 1) =~= tail + r);
        assert forall|j: int| 0 <= j < i implies b[j] == (b + r)[j] by {}
        lemma_trimmed_agrees(b, b + r, 0, i);
        let (chunk, last) = ollama_line_step(trimmed_between(b, 0, i));
        let first = match chunk {
            Some(message) => seq![message],
            None => Seq::empty(),
        };
        if !last {
            lemma_ollama_drained_across_reads(tail, r);
            let (c1, d1, l1) = ollama_drained(tail);
            let (c2, d2, l2) = ollama_drained(l1 + r);
            assert(first + (c1 + c2) =~= (first + c1) + c2);
        }
    } else {
        assert(Seq::<ChatMessageView>::empty() + more =~= more);
    }
}

/// The characters of `s`, in order.
pub fn chars_of(s: &str) -> (chars: Vec<char>)
    ensures
        chars@ == s@,
{
    let mut chars: Vec<char> = Vec::new();
    for c in it: s.chars()
        invariant
            it.seq() == s@,
            chars@ == s@.take(it.index() as int),
    {
        assert(s@.take(it.index() + 1) == s@.take(it.index() as int).push(c));
        chars.push(c);
    }
    assert(s@.take(s@.len() as int) == s@);
    chars
}

/// Takes the first complete line out of `buffer`: the text before the first line break,
/// without the white space at its two ends. The line and its line break leave the
/// buffer. A buffer without a line break is left as it is.
pub fn take_line(buffer: &mut String) -> (line: Option<String>)
    ensures
        match line {
            Some(text) => {
                &&& first_newline(old(buffer)@) < old(buffer)@.len()
                &&& text@ == trimmed_between(old(buffer)@, 0, first_newline(old(buffer)@))
                &&& final(buffer)@ == old(buffer)@.skip(first_newline(old(buffer)@) + 1)
            },
            None => first_newline(old(buffer)@) == old(buffer)@.len() && final(buffer)@ == old(
                buffer,
            )@,
        },
{
    let chars = chars_of(buffer.as_str());
    let n = chars.len();
    let mut end: usize = 0;
    while end < n && chars[end] != '\n'
        invariant
            end <= n,
            n == chars@.len(),
            first_newline(chars@) == newline_from(chars@, end as int),
        decreases n - end,
    {
        end += 1;
    }
    if end == n {
        return None;
    }
    let mut a: usize = 0;
    while a < end && char_is_space(chars[a])
        invariant
            a <= end <= n,
            n == chars@.len(),
            content_start(chars@, 0, end as int) == content_start(chars@, a as int, end as int),
        decreases end - a,
    {
        a += 1;
    }
    let mut b: usize = end;
    while a < b && char_is_space(chars[b - 1])
        invariant
            a <= b <= end <= n,
            n == chars@.len(),
            content_end(chars@, a as int, end as int) == content_end(chars@, a as int, b as int),
        decreases b - a,
    {
        b -= 1;
    }
    let text = buffer.as_str().substring_char(a, b).to_owned();
    let rest = buffer.as_str().substring_char(end + 1, n).to_owned();
    *buffer = rest;
    Some(text)
}

/// The payload of a line of data of an event stream: what follows the marker `data: `.
/// Other lines have none.
pub fn sse_payload(line: &str) -> (payload: Option<String>)
    ensures
        match payload {
            Some(text) => is_data_line(line@) && text@ == line@.skip(6),
            None => !is_data_line(line@),
        },
{
    let n = line.unicode_len();
    if n < 6 {
        return None;
    }
    let head = line.substring_char(0, 6);
    assert(head@ == line@.take(6));
    if same_text(head, "data: ") {
        let text = line.substring_char(6, n).to_owned();
        assert(line@.subrange(6, n as int) == line@.skip(6));
        Some(text)
    } else {
        None
    }
}

/// Adds the text that has arrived to the end of `buffer`.
pub fn push_text(buffer: &mut String, arrived: &str)
    ensures
        final(buffer)@ == old(buffer)@ + arrived@,
{
    buffer.append(arrived);
}

/// Takes the complete lines out of `buffer` and gives the chunks that they carry, in
/// order. Lines that are no data, that cannot be read or that carry no chunk are
/// passed over. The beginning of an unfinished line stays in the buffer.
pub fn drain_anthropic_chunks(buffer: &mut String) -> (chunks: Vec<ChatMessage>)
    ensures
        messages_view(chunks@) == anthropic_chunks(old(buffer)@),
        final(buffer)@ == unfinished_line(old(buffer)@),
{
    let mut chunks: Vec<ChatMessage> = Vec::new();
    assert(messages_view(chunks@) + anthropic_chunks(buffer@) =~= anthropic_chunks(buffer@));
    loop
        invariant
            messages_view(chunks@) + anthropic_chunks(buffer@) == anthropic_chunks(old(buffer)@),
            unfinished_line(buffer@) == unfinished_line(old(buffer)@),
        decreases buffer@.len(),
    {
        let ghost held = buffer@;
        let ghost before = chunks@;
        proof {
            lemma_newline_from(held, 0);
        }
        let line = match take_line(buffer) {
            Some(line) => line,
            None => {
                assert(messages_view(chunks@) + Seq::<ChatMessageView>::empty() =~= messages_view(
                    chunks@,
                ));
                return chunks;
            },
        };
        let mut found: Option<ChatMessage> = None;
        if let Some(payload) = sse_payload(line.as_str()) {
            if let Some(event) = decode_anthropic_event(payload.as_str()) {
                found = anthropic_chunk(event);
            }
        }
        match found {
            Some(chunk) => {
                chunks.push(chunk);
                assert(messages_view(chunks@) =~= messages_view(before).push(chunk@));
                assert(messages_view(chunks@) + anthropic_chunks(buffer@) =~= messages_view(before)
                    + anthropic_chunks(held));
            },
            None => {},
        }
    }
}

/// Takes the complete lines out of `buffer`, up to the last line of the answer, and
/// gives the chunks that they carry, in order, and whether the answer has ended.
/// Empty lines and lines that cannot be read are passed over. The beginning of an
/// unfinished line stays in the buffer.
pub fn drain_ollama_chunks(buffer: &mut String) -> (r: (Vec<ChatMessage>, bool))
    ensures
        messages_view(r.0@) == ollama_drained(old(buffer)@).0,
        r.1 == ollama_drained(old(buffer)@).1,
        final(buffer)@ == ollama_drained(old(buffer)@).2,
{
    let mut chunks: Vec<ChatMessage> = Vec::new();
    assert(messages_view(chunks@) + ollama_drained(buffer@).0 =~= ollama_drained(buffer@).0);
    loop
        invariant
            messages_view(chunks@) + ollama_drained(buffer@).0 == ollama_drained(old(buffer)@).0,
            ollama_drained(buffer@).1 == ollama_drained(old(buffer)@).1,
            ollama_drained(buffer@).2 == ollama_drained(old(buffer)@).2,
        decreases buffer@.len(),
    {
        let ghost held = buffer@;
        let ghost before = chunks@;
        proof {
            lemma_newline_from(held, 0);
        }
        let line = match take_line(buffer) {
            Some(line) => line,
            None => {
                assert(messages_view(chunks@) + Seq::<ChatMessageView>::empty() =~= messages_view(
                    chunks@,
                ));
                return (chunks, false);
            },
        };
        let mut found: Option<ChatMessage> = None;
        let mut done = false;
        if !line.as_str().is_empty() {
            if let Some(response) = decode_ollama_line(line.as_str()) {
                let (chunk, last) = ollama_chunk(response);
                found = chunk;
                done = last;
            }
        }
        assert(done == ollama_line_step(line@).1);
        match found {
            Some(chunk) => {
                chunks.push(chunk);
                assert(messages_view(chunks@) =~= messages_view(before).push(chunk@));
                assert(ollama_line_step(line@).0 == Some(chunk@));
            },
            None => {
                assert(ollama_line_step(line@).0 is None);
            },
        }
        if done {
            assert(messages_view(chunks@) =~= messages_view(before) + ollama_drained(held).0);
            return (chunks, true);
        }
        assert(messages_view(chunks@) + ollama_drained(buffer@).0 =~= messages_view(before)
            + ollama_drained(held).0);
    }
}

} // verus!
