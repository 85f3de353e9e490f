//! The TCP packet protocol (Source-family engines and their imitators).
//!
//! The session authenticates once, then executes commands whose responses
//! may span several packets.  Because the protocol has no last-fragment
//! marker, each command is followed by a sentinel packet: the transport
//! delivers in order, so the sentinel's reply arrives only after every
//! fragment of the command's response.  The socket stays with the caller,
//! which writes encoded packets out and hands decoded packets back in.

use vstd::prelude::*;
use vstd::string::StrSliceExecFns;
use vstd::utf8::encode_utf8;
use crate::packet::Packet;
use crate::text::{lossy_utf8, trim_end_spec, trim_end_str, utf8_lossy};
use crate::{Game, RconError};

verus! {

/// Packet type of an authentication request.
pub const TYPE_AUTH: i32 = 3;

/// Packet type of the authentication reply.
pub const TYPE_AUTH_RESPONSE: i32 = 2;

/// Packet type of a command to execute.
pub const TYPE_COMMAND: i32 = 2;

/// Packet type of a response fragment, and of the empty sentinel packet.
pub const TYPE_RESPONSE: i32 = 0;

/// One TCP session: the configured game dialect and the packet id counter,
/// which starts at 0, grows by one per packet sent, and is never reused
/// within the session.
pub struct TcpSession {
    pub game: Game,
    pub next_id: i32,
}

/// The sentinel packet a dialect answers: most reply to an empty
/// response-type packet, but Factorio ignores those, so a benign no-op
/// command packet is sent there instead.
pub open spec fn sentinel_spec(game: Game) -> (i32, Seq<u8>) {
    if game == Game::Factorio {
        (TYPE_COMMAND, encode_utf8("/bogus"@))
    } else {
        (TYPE_RESPONSE, Seq::<u8>::empty())
    }
}

impl TcpSession {
    /// A fresh session for `game`, its id counter at 0.
    pub fn new(game: Game) -> (s: Self)
        ensures
            s.game == game,
            s.next_id == 0,
    {
        TcpSession { game, next_id: 0 }
    }

    /// Builds the next packet to send, assigning it the next id.
    pub fn next_packet(&mut self, ty: i32, body: Vec<u8>) -> (p: Packet)
        requires
            old(self).next_id < i32::MAX,
        ensures
            final(self).game == old(self).game,
            final(self).next_id == old(self).next_id + 1,
            p.id == old(self).next_id,
            p.ty == ty,
            p.body@ == body@,
    {
        let id = self.next_id;
        self.next_id = self.next_id + 1;
        Packet { id, ty, body }
    }

    /// The authentication request: type [`TYPE_AUTH`] with the password as
    /// body.
    pub fn auth_request(&mut self, password: &str) -> (p: Packet)
        requires
            old(self).next_id < i32::MAX,
        ensures
            final(self).game == old(self).game,
            final(self).next_id == old(self).next_id + 1,
            p.id == old(self).next_id,
            p.ty == TYPE_AUTH,
            p.body@ == encode_utf8(password@),
    {
        self.next_packet(TYPE_AUTH, password.as_bytes_vec())
    }

    /// A command to execute: type [`TYPE_COMMAND`] with the command text as
    /// body.
    pub fn command_request(&mut self, command: &str) -> (p: Packet)
        requires
            old(self).next_id < i32::MAX,
        ensures
            final(self).game == old(self).game,
            final(self).next_id == old(self).next_id + 1,
            p.id == old(self).next_id,
            p.ty == TYPE_COMMAND,
            p.body@ == encode_utf8(command@),
    {
        self.next_packet(TYPE_COMMAND, command.as_bytes_vec())
    }

    /// The sentinel packet for this session's dialect, per
    /// [`sentinel_spec`].
    pub fn sentinel_request(&mut self) -> (p: Packet)
        requires
            old(self).next_id < i32::MAX,
        ensures
            final(self).game == old(self).game,
            final(self).next_id == old(self).next_id + 1,
            p.id == old(self).next_id,
            p.ty == sentinel_spec(old(self).game).0,
            p.body@ == sentinel_spec(old(self).game).1,
    {
        if matches!(self.game, Game::Factorio) {
            self.next_packet(TYPE_COMMAND, "/bogus".as_bytes_vec())
        } else {
            self.next_packet(TYPE_RESPONSE, Vec::new())
        }
    }
}

/// Whether the dialect sends an extra empty ack packet before the real
/// authentication reply: the strict Source dialect does, while
/// Minecraft-compatible servers elide it.
pub fn expects_auth_ack(game: &Game) -> (r: bool)
    ensures
        r == (*game == Game::Source),
{
    matches!(game, Game::Source)
}

/// Checks the extra ack packet read during authentication: anything but an
/// empty response type is a protocol violation.
pub fn check_auth_ack(p: &Packet) -> (r: Result<(), RconError>)
    ensures
        p.ty == TYPE_RESPONSE ==> r == Ok::<(), RconError>(()),
        p.ty != TYPE_RESPONSE ==> r == Err::<(), RconError>(RconError::ProtocolViolation),
{
    if p.ty != TYPE_RESPONSE {
        Err(RconError::ProtocolViolation)
    } else {
        Ok(())
    }
}

/// Checks the authentication reply: a wrong type is a protocol violation;
/// type [`TYPE_AUTH_RESPONSE`] with id `-1` means the server rejected the
/// password; the same type with any other id is success.
pub fn check_auth_response(p: &Packet) -> (r: Result<(), RconError>)
    ensures
        p.ty != TYPE_AUTH_RESPONSE ==> r == Err::<(), RconError>(RconError::ProtocolViolation),
        p.ty == TYPE_AUTH_RESPONSE && p.id == -1 ==> r == Err::<(), RconError>(
            RconError::AuthenticationFailed,
        ),
        p.ty == TYPE_AUTH_RESPONSE && p.id != -1 ==> r == Ok::<(), RconError>(()),
{
    if p.ty != TYPE_AUTH_RESPONSE {
        Err(RconError::ProtocolViolation)
    } else if p.id == -1 {
        Err(RconError::AuthenticationFailed)
    } else {
        Ok(())
    }
}

/// The authentication reply judged on its own, once any dialect ack is
/// past: a wrong type violates the protocol, id `-1` is a rejected
/// password, and running out of packets means the read timed out.
pub open spec fn auth_reply_outcome(ps: Seq<Packet>) -> Result<(), RconError> {
    if ps.len() == 0 {
        Err(RconError::Timeout)
    } else if ps[0].ty != TYPE_AUTH_RESPONSE {
        Err(RconError::ProtocolViolation)
    } else if ps[0].id == -1 {
        Err(RconError::AuthenticationFailed)
    } else {
        Ok(())
    }
}

/// What the whole authentication exchange yields from the packets read, in
/// order: the strict Source dialect first expects and discards the extra
/// empty ack.
pub open spec fn auth_outcome(game: Game, ps: Seq<Packet>) -> Result<(), RconError> {
    if game == Game::Source {
        if ps.len() == 0 {
            Err(RconError::Timeout)
        } else if ps[0].ty != TYPE_RESPONSE {
            Err(RconError::ProtocolViolation)
        } else {
            auth_reply_outcome(ps.drop_first())
        }
    } else {
        auth_reply_outcome(ps)
    }
}

/// Judges an authentication exchange over the packets the transport
/// delivered before its first timeout, exactly as [`auth_outcome`] says.
pub fn check_auth_exchange(game: &Game, packets: &Vec<Packet>) -> (r: Result<(), RconError>)
    ensures
        r == auth_outcome(*game, packets@),
{
    let mut idx: usize = 0;
    if expects_auth_ack(game) {
        if packets.len() == 0 {
            return Err(RconError::Timeout);
        }
        match check_auth_ack(&packets[0]) {
            Ok(_) => {},
            Err(e) => {
                return Err(e);
            },
        }
        idx = 1;
    }
    proof {
        if *game == Game::Source && packets@.len() > 1 {
            assert(packets@.drop_first()[0] == packets@[1]);
        }
    }
    if packets.len() <= idx {
        return Err(RconError::Timeout);
    }
    check_auth_response(&packets[idx])
}

/// Is this packet a fragment of the response to the command with id `cmd`?
pub open spec fn is_fragment(cmd: i32, id: i32, ty: i32) -> bool {
    id == cmd && ty == TYPE_RESPONSE
}

/// What reading packets until the sentinel's reply yields.  Fragments
/// carrying the command's id contribute their decoded bodies in order; a
/// packet with the sentinel's id ends the response (its body is discarded);
/// any other packet is a protocol violation; and when the packets run out
/// before the sentinel's reply, the read has timed out.
pub open spec fn reassemble_spec(cmd: i32, sen: i32, ps: Seq<Packet>) -> Result<
    Seq<char>,
    RconError,
>
    decreases ps.len(),
{
    if ps.len() == 0 {
        Err(RconError::Timeout)
    } else if is_fragment(cmd, ps[0].id, ps[0].ty) {
        match reassemble_spec(cmd, sen, ps.drop_first()) {
            Ok(rest) => Ok(lossy_utf8(ps[0].body@) + rest),
            Err(e) => Err(e),
        }
    } else if ps[0].id == sen {
        Ok(Seq::<char>::empty())
    } else {
        Err(RconError::ProtocolViolation)
    }
}

/// Collects the fragments of one command's response until the sentinel's
/// reply arrives.  The caller reads packets under a per-read timeout and
/// feeds each to [`take_packet`](Self::take_packet) until it says the
/// response is done, then takes the text with [`finish`](Self::finish).
pub struct Reassembler {
    /// Id the command packet was sent with: its fragments carry it.
    pub command_id: i32,
    /// Id the sentinel packet was sent with: its reply ends the response.
    pub sentinel_id: i32,
    /// The decoded fragments received so far, concatenated in order.
    pub text: String,
}

impl Reassembler {
    /// An empty accumulator for the response to command `command_id`,
    /// terminated by the reply to `sentinel_id`.
    pub fn new(command_id: i32, sentinel_id: i32) -> (r: Self)
        ensures
            r.command_id == command_id,
            r.sentinel_id == sentinel_id,
            r.text@ == Seq::<char>::empty(),
    {
        Reassembler { command_id, sentinel_id, text: String::new() }
    }

    /// Feeds one received packet: `Ok(false)` keeps reading, `Ok(true)` says
    /// the sentinel's reply arrived and the response is complete.
    pub fn take_packet(&mut self, p: &Packet) -> (r: Result<bool, RconError>)
        ensures
            final(self).command_id == old(self).command_id,
            final(self).sentinel_id == old(self).sentinel_id,
            is_fragment(old(self).command_id, p.id, p.ty) ==> r == Ok::<bool, RconError>(false)
                && final(self).text@ == old(self).text@ + lossy_utf8(p.body@),
            !is_fragment(old(self).command_id, p.id, p.ty) && p.id == old(self).sentinel_id ==> r
                == Ok::<bool, RconError>(true) && final(self).text@ == old(self).text@,
            !is_fragment(old(self).command_id, p.id, p.ty) && p.id != old(self).sentinel_id ==> r
                == Err::<bool, RconError>(RconError::ProtocolViolation) && final(self).text@ == old(
                self,
            ).text@,
    {
        if p.id == self.command_id && p.ty == TYPE_RESPONSE {
            let decoded = utf8_lossy(p.body.as_slice());
            self.text.append(decoded.as_str());
            Ok(false)
        } else if p.id == self.sentinel_id {
            Ok(true)
        } else {
            Err(RconError::ProtocolViolation)
        }
    }

    /// The finished response: the concatenated fragments with trailing
    /// whitespace stripped (the protocol pads the last fragment).
    pub fn finish(self) -> (r: String)
        ensures
            r@ == trim_end_spec(self.text@),
    {
        trim_end_str(self.text.as_str())
    }
}

/// Reads a whole response out of `packets`, in order: the verified loop
/// behind the read phase of `send_command`.  `packets` holds what the
/// transport delivered before its first timeout, so running out of packets
/// means the read timed out.
pub fn reassemble_response(cmd: i32, sen: i32, packets: &Vec<Packet>) -> (r: Result<
    String,
    RconError,
>)
    ensures
        match r {
            Ok(s) => reassemble_spec(cmd, sen, packets@) matches Ok(t) && s@ == trim_end_spec(t),
            Err(e) => reassemble_spec(cmd, sen, packets@) == Err::<Seq<char>, RconError>(e),
        },
{
    let mut acc = Reassembler::new(cmd, sen);
    let n = packets.len();
    let mut i: usize = 0;
    proof {
        assert(packets@.skip(0) =~= packets@);
        match reassemble_spec(cmd, sen, packets@) {
            Ok(t) => {
                assert(Seq::<char>::empty() + t =~= t);
            },
            Err(_) => {},
        }
    }
    loop
        invariant
            i <= n,
            n == packets@.len(),
            acc.command_id == cmd,
            acc.sentinel_id == sen,
            reassemble_spec(cmd, sen, packets@) == (match reassemble_spec(
                cmd,
                sen,
                packets@.skip(i as int),
            ) {
                Ok(t) => Ok::<Seq<char>, RconError>(acc.text@ + t),
                Err(e) => Err::<Seq<char>, RconError>(e),
            }),
        decreases n - i,
    {
        if i == n {
            proof {
                assert(packets@.skip(i as int).len() == 0);
            }
            return Err(RconError::Timeout);
        }
        let p = &packets[i];
        let ghost pre = acc.text@;
        let ghost rest = packets@.skip(i as int);
        proof {
            assert(rest[0] == packets@[i as int]);
            assert(rest.drop_first() =~= packets@.skip(i as int + 1));
        }
        match acc.take_packet(p) {
            Ok(done) => {
                if done {
                    proof {
                        assert(pre + Seq::<char>::empty() =~= pre);
                    }
                    return Ok(acc.finish());
                }
                proof {
                    match reassemble_spec(cmd, sen, packets@.skip(i as int + 1)) {
                        Ok(t) => {
                            assert(pre + (lossy_utf8(p.body@) + t) =~= pre + lossy_utf8(p.body@)
                                + t);
                        },
                        Err(_) => {},
                    }
                }
            },
            Err(e) => {
                return Err(e);
            },
        }
        i = i + 1;
    }
}

/// Concatenation, in order, of the decoded bodies of `frags`.
pub open spec fn fragments_text(frags: Seq<Packet>) -> Seq<char>
    decreases frags.len(),
{
    if frags.len() == 0 {
        Seq::<char>::empty()
    } else {
        lossy_utf8(frags[0].body@) + fragments_text(frags.drop_first())
    }
}

/// However many fragments the server splits a response into: when every
/// packet of `frags` is a fragment of command `cmd`'s response and
/// `sentinel` is the reply to the sentinel packet, reading them in order
/// reassembles exactly the fragments' text, concatenated in order.
pub proof fn lemma_fragments_then_sentinel(
    cmd: i32,
    sen: i32,
    frags: Seq<Packet>,
    sentinel: Packet,
)
    requires
        forall|k: int| 0 <= k < frags.len() ==> is_fragment(cmd, frags[k].id, frags[k].ty),
        !is_fragment(cmd, sentinel.id, sentinel.ty),
        sentinel.id == sen,
    ensures
        reassemble_spec(cmd, sen, frags + seq![sentinel]) == Ok::<Seq<char>, RconError>(
            fragments_text(frags),
        ),
    decreases frags.len(),
{
    let ps = frags + seq![sentinel];
    if frags.len() == 0 {
        assert(ps[0] == sentinel);
    } else {
        assert(ps[0] == frags[0]);
        assert(ps.drop_first() =~= frags.drop_first() + seq![sentinel]);
        assert(forall|k: int|
            0 <= k < frags.drop_first().len() ==> is_fragment(
                cmd,
                frags.drop_first()[k].id,
                frags.drop_first()[k].ty,
            ));
        lemma_fragments_then_sentinel(cmd, sen, frags.drop_first(), sentinel);
    }
}

} // verus!
