//! The handshake that opens a session.
//!
//! The client sends one handshake frame with the protocol version, the
//! authentication method and the credential that both ends were configured
//! with. The server answers a matching frame with a handshake frame of its
//! own that carries no credential. Anything else it answers with nothing at
//! all: the connection is closed without a byte, so that a scanner learns
//! nothing from the refusal.

use vstd::prelude::*;
use crate::frame::{
    parse_frame, spec_encode_frame, spec_parse, Frame, FrameView, ParseView, Parsed, MAX_PAYLOAD,
    PROTOCOL_VERSION,
};
use crate::wire::{bytes_equal, copy_bytes};

verus! {

/// The authentication method that presents the shared secret itself.
pub const METHOD_SHARED_SECRET: u8 = 0x01;

/// What both ends are configured with: a method and the credential for it.
#[derive(Debug, PartialEq, Eq)]
pub struct Credentials {
    method: u8,
    secret: Vec<u8>,
}

/// Credentials as the contracts see them.
pub struct CredentialsView {
    pub method: u8,
    pub secret: Seq<u8>,
}

impl View for Credentials {
    type V = CredentialsView;

    closed spec fn view(&self) -> CredentialsView {
        CredentialsView { method: self.method, secret: self.secret@ }
    }
}

/// The frame with which a client presents `c`.
pub open spec fn hello_frame(c: CredentialsView) -> FrameView {
    FrameView::Handshake { version: PROTOCOL_VERSION, method: c.method, credential: c.secret }
}

/// The frame with which a server accepts a client that presented `c`.
pub open spec fn accept_frame(c: CredentialsView) -> FrameView {
    FrameView::Handshake {
        version: PROTOCOL_VERSION,
        method: c.method,
        credential: Seq::<u8>::empty(),
    }
}

/// What a server does with the first bytes of a connection.
#[derive(Debug, PartialEq, Eq)]
pub enum ServerStep {
    /// The bytes are the start of a frame: read on.
    Wait,
    /// The client is admitted: send `reply`, and hand what follows the first
    /// `consumed` bytes to the session.
    Accept { reply: Vec<u8>, consumed: usize },
    /// Close the connection and send nothing.
    Reject,
}

/// What a client does with the first bytes that the server sent.
#[derive(Debug, Clone, Copy, PartialEq, Eq, Structural)]
pub enum ClientStep {
    /// The bytes are the start of a frame: read on.
    Wait,
    /// The server has accepted: what follows the first `consumed` bytes
    /// belongs to the session.
    Established { consumed: usize },
    /// The server answered with something else: close the connection.
    Refused,
}

impl ServerStep {
    /// The bytes to send to the client: the reply when it is admitted, and
    /// none otherwise.
    pub fn reply(self) -> (out: Vec<u8>)
        ensures
            match self {
                ServerStep::Accept { reply, .. } => out@ == reply@,
                _ => out@.len() == 0,
            },
    {
        match self {
            ServerStep::Accept { reply, .. } => reply,
            _ => Vec::new(),
        }
    }
}

impl Credentials {
    /// Holds of all credentials there are: they fit in one frame.
    #[verifier::type_invariant]
    pub open spec fn inv(self) -> bool {
        self@.secret.len() + 2 <= MAX_PAYLOAD
    }

    /// Credentials for `method` with `secret`, unless the secret is too
    /// long to travel in one frame.
    pub fn new(method: u8, secret: &[u8]) -> (r: Option<Credentials>)
        ensures
            match r {
                Some(c) => c@ == (CredentialsView { method, secret: secret@ }) && secret@.len() + 2
                    <= MAX_PAYLOAD,
                None => secret@.len() + 2 > MAX_PAYLOAD,
            },
    {
        if secret.len() > MAX_PAYLOAD - 2 {
            return None;
        }
        Some(Credentials { method, secret: copy_bytes(secret) })
    }

    /// The method.
    pub fn method(&self) -> (m: u8)
        ensures
            m == self@.method,
    {
        self.method
    }

    /// The bytes with which a client opens the connection.
    pub fn hello(&self) -> (out: Vec<u8>)
        ensures
            out@ == spec_encode_frame(hello_frame(self@)),
    {
        proof {
            use_type_invariant(self);
        }
        let f = Frame::Handshake {
            version: PROTOCOL_VERSION,
            method: self.method,
            credential: copy_bytes(self.secret.as_slice()),
        };
        match f.encode() {
            Ok(out) => out,
            Err(_) => {
                proof {
                    assert(false);
                }
                Vec::new()
            },
        }
    }

    /// Judges the first bytes that a client sent. The client is admitted
    /// exactly when these bytes start with the frame that presents these
    /// credentials.
    pub fn server_step(&self, input: &[u8]) -> (s: ServerStep)
        ensures
            match s {
                ServerStep::Wait => spec_parse(input@) == ParseView::Incomplete,
                ServerStep::Accept { reply, consumed } => spec_parse(input@) == ParseView::Frame(
                    hello_frame(self@),
                    consumed as nat,
                ) && consumed <= input@.len() && reply@ == spec_encode_frame(accept_frame(self@)),
                ServerStep::Reject => match spec_parse(input@) {
                    ParseView::Incomplete => false,
                    ParseView::Frame(f, _) => f != hello_frame(self@),
                    ParseView::Invalid(_) => true,
                },
            },
    {
        match parse_frame(input) {
            Parsed::Incomplete => ServerStep::Wait,
            Parsed::Invalid(_) => ServerStep::Reject,
            Parsed::Frame(f, consumed) => {
                match f {
                    Frame::Handshake { version, method, credential } => {
                        let same = bytes_equal(credential.as_slice(), self.secret.as_slice());
                        if version == PROTOCOL_VERSION && method == self.method && same {
                            let answer = Frame::Handshake {
                                version: PROTOCOL_VERSION,
                                method: self.method,
                                credential: Vec::new(),
                            };
                            assert(answer@ == accept_frame(self@));
                            match answer.encode() {
                                Ok(reply) => ServerStep::Accept { reply, consumed },
                                Err(_) => {
                                    proof {
                                        assert(false);
                                    }
                                    ServerStep::Reject
                                },
                            }
                        } else {
                            ServerStep::Reject
                        }
                    },
                    _ => ServerStep::Reject,
                }
            },
        }
    }

    /// Judges the first bytes that the server sent. The session stands
    /// exactly when these bytes start with the frame that accepts these
    /// credentials.
    pub fn client_step(&self, input: &[u8]) -> (s: ClientStep)
        ensures
            match s {
                ClientStep::Wait => spec_parse(input@) == ParseView::Incomplete,
                ClientStep::Established { consumed } => spec_parse(input@) == ParseView::Frame(
                    accept_frame(self@),
                    consumed as nat,
                ) && consumed <= input@.len(),
                ClientStep::Refused => match spec_parse(input@) {
                    ParseView::Incomplete => false,
                    ParseView::Frame(f, _) => f != accept_frame(self@),
                    ParseView::Invalid(_) => true,
                },
            },
    {
        match parse_frame(input) {
            Parsed::Incomplete => ClientStep::Wait,
            Parsed::Invalid(_) => ClientStep::Refused,
            Parsed::Frame(f, consumed) => {
                match f {
                    Frame::Handshake { version, method, credential } => {
                        if version == PROTOCOL_VERSION && method == self.method
                            && credential.len() == 0 {
                            assert(credential@ =~= Seq::<u8>::empty());
                            ClientStep::Established { consumed }
                        } else {
                            ClientStep::Refused
                        }
                    },
                    _ => ClientStep::Refused,
                }
            },
        }
    }
}

/// A server that is sent the hello of a client with the same credentials
/// admits it, whatever bytes follow the hello.
pub proof fn law_matching_hello_is_admitted(c: CredentialsView, rest: Seq<u8>)
    requires
        c.secret.len() + 2 <= MAX_PAYLOAD,
    ensures
        spec_parse(spec_encode_frame(hello_frame(c)) + rest) == ParseView::Frame(
            hello_frame(c),
            spec_encode_frame(hello_frame(c)).len(),
        ),
{
    crate::frame::law_frame_round_trip(hello_frame(c), rest);
}

/// The hello of a client with other credentials is a frame that a server
/// does not admit.
pub proof fn law_other_hello_is_refused(c: CredentialsView, other: CredentialsView, rest: Seq<u8>)
    requires
        other.secret.len() + 2 <= MAX_PAYLOAD,
        other != c,
    ensures
        spec_parse(spec_encode_frame(hello_frame(other)) + rest) matches ParseView::Frame(f, _)
            && f != hello_frame(c),
{
    crate::frame::law_frame_round_trip(hello_frame(other), rest);
}

} // verus!
