//! The UDP challenge-response protocol (GoldSrc-family engines).
//!
//! Every command performs its own challenge round-trip: the client sends a
//! fixed challenge request, takes the last token of the reply as the
//! challenge, then sends `rcon <challenge> "<password>" <command>` and
//! reassembles the padded reply datagrams.  The transport (socket, timeouts)
//! stays with the caller: it hands each received datagram to a
//! [`ChunkAccumulator`] and reports the closing timeout to it.

use vstd::prelude::*;
use vstd::slice::{slice_index_get, slice_subrange, slice_to_vec};
use vstd::string::StrSliceExecFns;
use vstd::utf8::encode_utf8;
use crate::RconError;
use crate::text::{last_token, last_token_str, lossy_utf8, trim_spec, trim_str, utf8_lossy};

verus! {

/// The padding bytes servers prepend to response fragments.
pub open spec fn is_padding_byte(b: u8) -> bool {
    b == 0xff || b == 0xfe || b == 0x1d || b == 0x1c || b == 0x00
}

/// Length of the run of padding bytes a chunk starts with.
pub open spec fn leading_pad_len(c: Seq<u8>) -> nat
    decreases c.len(),
{
    if c.len() > 0 && is_padding_byte(c.first()) {
        (1 + leading_pad_len(c.drop_first())) as nat
    } else {
        0
    }
}

/// Where the content of a chunk ends: trailing `0x00` bytes are not content.
pub open spec fn content_end(c: Seq<u8>) -> nat
    decreases c.len(),
{
    if c.len() > 0 && c.last() == 0x00 {
        content_end(c.drop_last())
    } else {
        c.len()
    }
}

/// The cleaned payload of one received chunk: the leading padding run is
/// skipped, then one more byte (the response-marker byte every fragment
/// carries), and trailing `0x00` bytes are stripped from the end.
pub open spec fn strip_chunk_spec(c: Seq<u8>) -> Seq<u8> {
    let start = leading_pad_len(c) + 1;
    let end = content_end(c);
    if start <= end {
        c.subrange(start as int, end as int)
    } else {
        Seq::empty()
    }
}

/// Exec mirror of [`is_padding_byte`].
pub fn is_padding(b: u8) -> (r: bool)
    ensures
        r == is_padding_byte(b),
{
    b == 0xff || b == 0xfe || b == 0x1d || b == 0x1c || b == 0x00
}

proof fn lemma_leading_pad_skip(c: Seq<u8>, i: int)
    requires
        0 <= i <= c.len(),
        forall|k: int| 0 <= k < i ==> is_padding_byte(c[k]),
    ensures
        leading_pad_len(c) == i + leading_pad_len(c.subrange(i, c.len() as int)),
    decreases i,
{
    if i > 0 {
        let u = c.subrange(i - 1, c.len() as int);
        assert(u.first() == c[i - 1]);
        assert(u.drop_first() =~= c.subrange(i, c.len() as int));
        lemma_leading_pad_skip(c, i - 1);
    } else {
        assert(c.subrange(0, c.len() as int) =~= c);
    }
}

proof fn lemma_content_end_prefix(c: Seq<u8>, i: int)
    requires
        0 <= i <= c.len(),
        forall|k: int| i <= k < c.len() ==> c[k] == 0x00,
    ensures
        content_end(c) == content_end(c.subrange(0, i)),
    decreases c.len() - i,
{
    if i < c.len() {
        lemma_content_end_prefix(c, i + 1);
        let t = c.subrange(0, i + 1);
        assert(t.last() == 0x00);
        assert(t.drop_last() =~= c.subrange(0, i));
        assert(content_end(t) == content_end(c.subrange(0, i)));
    } else {
        assert(c.subrange(0, c.len() as int) =~= c);
    }
}

/// Cleans one received chunk, exactly as [`strip_chunk_spec`] says.
pub fn strip_chunk(c: &[u8]) -> (r: Vec<u8>)
    ensures
        r@ == strip_chunk_spec(c@),
{
    let len = c.len();
    let mut start: usize = 0;
    while start < len && is_padding(*slice_index_get(c, start))
        invariant
            start <= len,
            len == c@.len(),
            forall|k: int| 0 <= k < start ==> is_padding_byte(c@[k]),
        decreases len - start,
    {
        start = start + 1;
    }
    proof {
        lemma_leading_pad_skip(c@, start as int);
        if start < len {
            let u = c@.subrange(start as int, c@.len() as int);
            assert(u.first() == c@[start as int]);
            assert(leading_pad_len(u) == 0);
        } else {
            assert(c@.subrange(start as int, c@.len() as int).len() == 0);
        }
        assert(leading_pad_len(c@) == start);
    }
    let mut end: usize = len;
    while end > 0 && *slice_index_get(c, end - 1) == 0x00
        invariant
            end <= len,
            len == c@.len(),
            forall|k: int| end <= k < c@.len() ==> c@[k] == 0x00,
        decreases end,
    {
        end = end - 1;
    }
    proof {
        lemma_content_end_prefix(c@, end as int);
        if end > 0 {
            let t = c@.subrange(0, end as int);
            assert(t.last() == c@[end - 1]);
            assert(t.last() != 0x00);
            assert(content_end(t) == t.len());
        }
        assert(content_end(c@) == end);
    }
    if start < end {
        let r = slice_to_vec(slice_subrange(c, start + 1, end));
        proof {
            assert(r@ =~= strip_chunk_spec(c@));
        }
        r
    } else {
        let r: Vec<u8> = Vec::new();
        proof {
            assert(r@ =~= strip_chunk_spec(c@));
        }
        r
    }
}

/// Reassembles one response from received datagrams, in receive order.
///
/// The caller receives datagrams under a per-read timeout and hands each one
/// to [`push_chunk`](Self::push_chunk); when a read times out it calls
/// [`finish_on_timeout`](Self::finish_on_timeout), for the protocol has no
/// terminator and a quiet wire is the normal end of a response — unless
/// nothing arrived at all, which is a hard failure.
pub struct ChunkAccumulator {
    /// The cleaned, decoded fragments received so far, concatenated.
    pub text: String,
    /// How many chunks have been received.
    pub chunks: usize,
}

impl ChunkAccumulator {
    /// An empty accumulator, ready for a fresh response.
    pub fn new() -> (a: Self)
        ensures
            a.text@ == Seq::<char>::empty(),
            a.chunks == 0,
    {
        ChunkAccumulator { text: String::new(), chunks: 0 }
    }

    /// Takes one received datagram: its cleaned payload, decoded leniently,
    /// joins the text; nothing is reordered and nothing deduplicated.
    pub fn push_chunk(&mut self, chunk: &[u8])
        requires
            old(self).chunks < usize::MAX,
        ensures
            final(self).text@ == old(self).text@ + lossy_utf8(strip_chunk_spec(chunk@)),
            final(self).chunks == old(self).chunks + 1,
    {
        let cleaned = strip_chunk(chunk);
        let decoded = utf8_lossy(cleaned.as_slice());
        self.text.append(decoded.as_str());
        self.chunks = self.chunks + 1;
    }

    /// The read timed out: with no chunk received that is a hard failure,
    /// after at least one chunk it is the normal end of the response.
    pub fn finish_on_timeout(self) -> (r: Result<String, RconError>)
        ensures
            match r {
                Ok(s) => self.chunks > 0 && s@ == self.text@,
                Err(e) => self.chunks == 0 && e == RconError::Timeout,
            },
    {
        if self.chunks == 0 {
            Err(RconError::Timeout)
        } else {
            Ok(self.text)
        }
    }
}

/// The decoded text of a whole response: each datagram's cleaned payload,
/// decoded and concatenated in receive order.
pub open spec fn chunks_text(cs: Seq<Seq<u8>>) -> Seq<char>
    decreases cs.len(),
{
    if cs.len() == 0 {
        Seq::<char>::empty()
    } else {
        lossy_utf8(strip_chunk_spec(cs[0])) + chunks_text(cs.drop_first())
    }
}

/// The byte sequences a vector of received datagrams holds.
pub open spec fn views_of(cs: Seq<Vec<u8>>) -> Seq<Seq<u8>> {
    cs.map_values(|v: Vec<u8>| v@)
}

proof fn lemma_chunks_text_push(cs: Seq<Seq<u8>>, c: Seq<u8>)
    ensures
        chunks_text(cs.push(c)) == chunks_text(cs) + lossy_utf8(strip_chunk_spec(c)),
    decreases cs.len(),
{
    let tail = lossy_utf8(strip_chunk_spec(c));
    if cs.len() == 0 {
        assert(cs.push(c)[0] == c);
        assert(cs.push(c).drop_first() =~= cs);
        assert(chunks_text(cs.push(c)) == tail + chunks_text(cs));
        assert(chunks_text(cs) == Seq::<char>::empty());
        assert(tail + Seq::<char>::empty() =~= Seq::<char>::empty() + tail);
    } else {
        let head = lossy_utf8(strip_chunk_spec(cs[0]));
        assert(cs.push(c)[0] == cs[0]);
        assert(cs.push(c).drop_first() =~= cs.drop_first().push(c));
        assert(chunks_text(cs.push(c)) == head + chunks_text(cs.drop_first().push(c)));
        lemma_chunks_text_push(cs.drop_first(), c);
        assert(chunks_text(cs) == head + chunks_text(cs.drop_first()));
        assert(head + (chunks_text(cs.drop_first()) + tail) =~= (head + chunks_text(
            cs.drop_first(),
        )) + tail);
    }
}

/// Reassembles a whole response from the datagrams the transport delivered
/// before its first timeout: no datagram at all is a hard failure, otherwise
/// the chunks received so far are the successful result.
pub fn reassemble_datagrams(chunks: &Vec<Vec<u8>>) -> (r: Result<String, RconError>)
    ensures
        match r {
            Ok(s) => chunks@.len() > 0 && s@ == chunks_text(views_of(chunks@)),
            Err(e) => chunks@.len() == 0 && e == RconError::Timeout,
        },
{
    let mut acc = ChunkAccumulator::new();
    let n = chunks.len();
    let mut i: usize = 0;
    proof {
        assert(views_of(chunks@).take(0) =~= Seq::<Seq<u8>>::empty());
        assert(chunks_text(views_of(chunks@).take(0)) == Seq::<char>::empty());
    }
    while i < n
        invariant
            i <= n,
            n == chunks@.len(),
            acc.chunks == i,
            acc.text@ == chunks_text(views_of(chunks@).take(i as int)),
        decreases n - i,
    {
        proof {
            assert(views_of(chunks@)[i as int] == chunks@[i as int]@);
            assert(views_of(chunks@).take(i as int).push(chunks@[i as int]@) =~= views_of(
                chunks@,
            ).take(i as int + 1));
            lemma_chunks_text_push(views_of(chunks@).take(i as int), chunks@[i as int]@);
        }
        acc.push_chunk(chunks[i].as_slice());
        i = i + 1;
    }
    proof {
        assert(views_of(chunks@).take(n as int) =~= views_of(chunks@));
    }
    acc.finish_on_timeout()
}

/// What the challenge of a reply text is: the last space-delimited token,
/// trimmed of whitespace — or nothing, when that leaves an empty token.
pub open spec fn challenge_of(resp: Seq<char>) -> Option<Seq<char>> {
    let tok = trim_spec(last_token(resp));
    if tok.len() == 0 {
        None
    } else {
        Some(tok)
    }
}

/// Extracts the challenge token from a challenge reply.  An empty or
/// unparsable reply is a protocol violation: no malformed command is ever
/// built from it.
pub fn extract_challenge(resp: &str) -> (r: Result<String, RconError>)
    ensures
        match r {
            Ok(c) => challenge_of(resp@) == Some(c@),
            Err(e) => challenge_of(resp@) is None && e == RconError::ProtocolViolation,
        },
{
    let tok = last_token_str(resp);
    let trimmed = trim_str(tok.as_str());
    if trimmed.as_str().is_empty() {
        Err(RconError::ProtocolViolation)
    } else {
        Ok(trimmed)
    }
}

/// The fixed challenge request datagram: four `0xff` bytes, then
/// `challenge rcon`.
pub open spec fn challenge_request_spec() -> Seq<u8> {
    seq![0xffu8, 0xffu8, 0xffu8, 0xffu8] + encode_utf8("challenge rcon"@)
}

/// Builds the challenge request datagram.
pub fn build_challenge_request() -> (r: Vec<u8>)
    ensures
        r@ == challenge_request_spec(),
{
    let mut r: Vec<u8> = Vec::new();
    r.push(0xff);
    r.push(0xff);
    r.push(0xff);
    r.push(0xff);
    let mut tail = "challenge rcon".as_bytes_vec();
    r.append(&mut tail);
    proof {
        assert(r@ =~= challenge_request_spec());
    }
    r
}

/// The authenticated command datagram: four `0xff` bytes, then
/// `rcon <challenge> "<password>" <command>` with a terminating `0x00`.
pub open spec fn command_datagram_spec(
    challenge: Seq<char>,
    password: Seq<char>,
    command: Seq<char>,
) -> Seq<u8> {
    seq![0xffu8, 0xffu8, 0xffu8, 0xffu8] + encode_utf8("rcon "@) + encode_utf8(challenge)
        + encode_utf8(" \""@) + encode_utf8(password) + encode_utf8("\" "@) + encode_utf8(command)
        + seq![0x00u8]
}

/// Builds the authenticated command datagram.
pub fn build_command_datagram(challenge: &str, password: &str, command: &str) -> (r: Vec<u8>)
    ensures
        r@ == command_datagram_spec(challenge@, password@, command@),
{
    let mut r: Vec<u8> = Vec::new();
    r.push(0xff);
    r.push(0xff);
    r.push(0xff);
    r.push(0xff);
    let mut part = "rcon ".as_bytes_vec();
    r.append(&mut part);
    let mut part = challenge.as_bytes_vec();
    r.append(&mut part);
    let mut part = " \"".as_bytes_vec();
    r.append(&mut part);
    let mut part = password.as_bytes_vec();
    r.append(&mut part);
    let mut part = "\" ".as_bytes_vec();
    r.append(&mut part);
    let mut part = command.as_bytes_vec();
    r.append(&mut part);
    r.push(0x00);
    proof {
        assert(r@ =~= command_datagram_spec(challenge@, password@, command@));
    }
    r
}

/// Everything of a command exchange but the I/O: reads the challenge out of
/// the challenge reply's text and builds the authenticated command datagram
/// — or refuses, when the reply holds no challenge, rather than send a
/// malformed command.
pub fn prepare_command(challenge_reply: &str, password: &str, command: &str) -> (r: Result<
    Vec<u8>,
    RconError,
>)
    ensures
        match r {
            Ok(d) => challenge_of(challenge_reply@) matches Some(c) && d@ == command_datagram_spec(
                c,
                password@,
                command@,
            ),
            Err(e) => challenge_of(challenge_reply@) is None && e == RconError::ProtocolViolation,
        },
{
    let challenge = match extract_challenge(challenge_reply) {
        Ok(c) => c,
        Err(e) => {
            return Err(e);
        },
    };
    Ok(build_command_datagram(challenge.as_str(), password, command))
}

} // verus!
