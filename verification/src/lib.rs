//! Protocol core of a remote-console (RCON) client.
//!
//! Two game-server console protocols are implemented: a length-prefixed,
//! id-tagged TCP packet protocol (Source-family engines and imitators), and a
//! UDP challenge-response protocol with ad-hoc byte padding (GoldSrc-family
//! engines).  This crate holds the framing, the authentication decisions, the
//! multi-packet reassembly and the per-game quirks; the transport itself
//! (sockets, timeouts) is left to the caller, which hands received bytes in
//! and takes bytes to send out.

use vstd::prelude::*;

pub mod packet;
pub mod tcp;
pub mod udp;
pub mod text;

verus! {

/// The game variants the client knows; each selects a protocol dialect.
#[derive(Clone, Copy, Debug, PartialEq, Eq, Structural)]
pub enum Game {
    Goldsrc,
    Source,
    Minecraft,
    Factorio,
}

/// How an in-flight operation failed.  Every failure is terminal for that
/// operation; the caller decides whether to go on with later commands.
#[derive(Clone, Copy, Debug, PartialEq, Eq, Structural)]
pub enum RconError {
    /// Connect, send or receive failed at the transport layer.
    Transport,
    /// No response arrived within the per-read bound.
    Timeout,
    /// The server explicitly rejected the credentials.
    AuthenticationFailed,
    /// Unexpected packet type, id or sequencing, or a malformed challenge.
    ProtocolViolation,
}

impl Game {
    /// Whether this variant speaks the TCP packet protocol (as opposed to the
    /// UDP challenge-response protocol).
    pub fn uses_tcp_protocol(&self) -> (r: bool)
        ensures
            r == (*self != Game::Goldsrc),
    {
        !matches!(self, Game::Goldsrc)
    }

    /// The standard console port of this game, where there is one: the
    /// Source and GoldSrc families listen on 27015 and Minecraft on 25575,
    /// while Factorio has no standard port.
    pub fn default_port(&self) -> (r: Option<u16>)
        ensures
            (*self == Game::Goldsrc || *self == Game::Source) ==> r == Some(27015u16),
            *self == Game::Minecraft ==> r == Some(25575u16),
            *self == Game::Factorio ==> r is None,
    {
        match self {
            Game::Goldsrc | Game::Source => Some(27015),
            Game::Minecraft => Some(25575),
            Game::Factorio => None,
        }
    }
}

} // verus!
