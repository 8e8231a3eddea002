//! Destination addresses and their encoding on the wire.
//!
//! An address is written as one type byte, the host, and the port in network
//! byte order. The host is four bytes for IPv4, sixteen for IPv6, and for a
//! domain name one length byte followed by that many bytes of name.

use vstd::prelude::*;
use crate::wire::{append_slice, be16, copy_range, from_be16, lemma_be16_round_trip, push_be16, read_be16};

verus! {

/// Type byte of an IPv4 host.
pub const ATYP_IPV4: u8 = 0x01;

/// Type byte of a domain name.
pub const ATYP_DOMAIN: u8 = 0x03;

/// Type byte of an IPv6 host.
pub const ATYP_IPV6: u8 = 0x04;

/// The longest domain name that one length byte can announce.
pub const MAX_DOMAIN_LEN: usize = 255;

/// Why bytes are not an address, or a host is not fit for one.
#[derive(Debug, Clone, Copy, PartialEq, Eq, Structural)]
pub enum AddressError {
    /// The bytes end before the address does.
    Truncated,
    /// The type byte is none of the three known ones.
    UnknownType,
    /// A domain name of length zero.
    EmptyDomain,
    /// A domain name longer than `MAX_DOMAIN_LEN`.
    DomainTooLong,
}

/// The host part of a destination.
#[derive(Debug, Clone, PartialEq, Eq)]
pub enum Host {
    Ipv4([u8; 4]),
    Domain(Vec<u8>),
    Ipv6([u8; 16]),
}

/// A host as the contracts see it: every variant holds its bytes.
pub enum HostView {
    Ipv4(Seq<u8>),
    Domain(Seq<u8>),
    Ipv6(Seq<u8>),
}

impl View for Host {
    type V = HostView;

    open spec fn view(&self) -> HostView {
        match self {
            Host::Ipv4(a) => HostView::Ipv4(a@),
            Host::Domain(n) => HostView::Domain(n@),
            Host::Ipv6(a) => HostView::Ipv6(a@),
        }
    }
}

/// A destination as the contracts see it.
pub struct DestinationView {
    pub host: HostView,
    pub port: u16,
}

impl DestinationView {
    /// The host has the length its kind demands: 4, 1 to 255, or 16 bytes.
    pub open spec fn wf(self) -> bool {
        match self.host {
            HostView::Ipv4(a) => a.len() == 4,
            HostView::Domain(n) => 1 <= n.len() <= MAX_DOMAIN_LEN,
            HostView::Ipv6(a) => a.len() == 16,
        }
    }
}

/// The bytes that stand for `d` on the wire.
pub open spec fn spec_encode(d: DestinationView) -> Seq<u8> {
    match d.host {
        HostView::Ipv4(a) => seq![ATYP_IPV4] + a + be16(d.port),
        HostView::Domain(n) => seq![ATYP_DOMAIN, n.len() as u8] + n + be16(d.port),
        HostView::Ipv6(a) => seq![ATYP_IPV6] + a + be16(d.port),
    }
}

/// The destination at the start of `b` and the number of bytes it takes, or
/// why there is none.
pub open spec fn spec_decode(b: Seq<u8>) -> Result<(DestinationView, nat), AddressError> {
    if b.len() < 1 {
        Err(AddressError::Truncated)
    } else if b[0] == ATYP_IPV4 {
        if b.len() < 7 {
            Err(AddressError::Truncated)
        } else {
            Ok(
                (
                    DestinationView {
                        host: HostView::Ipv4(b.subrange(1, 5)),
                        port: from_be16(b[5], b[6]),
                    },
                    7,
                ),
            )
        }
    } else if b[0] == ATYP_DOMAIN {
        if b.len() < 2 {
            Err(AddressError::Truncated)
        } else if b[1] == 0 {
            Err(AddressError::EmptyDomain)
        } else if b.len() < 4 + b[1] {
            Err(AddressError::Truncated)
        } else {
            Ok(
                (
                    DestinationView {
                        host: HostView::Domain(b.subrange(2, 2 + b[1])),
                        port: from_be16(b[2 + b[1]], b[3 + b[1]]),
                    },
                    (4 + b[1]) as nat,
                ),
            )
        }
    } else if b[0] == ATYP_IPV6 {
        if b.len() < 19 {
            Err(AddressError::Truncated)
        } else {
            Ok(
                (
                    DestinationView {
                        host: HostView::Ipv6(b.subrange(1, 17)),
                        port: from_be16(b[17], b[18]),
                    },
                    19,
                ),
            )
        }
    } else {
        Err(AddressError::UnknownType)
    }
}

/// Decoding what was encoded gives the destination back, whatever follows
/// it, and says how many bytes the encoding took.
pub proof fn law_destination_round_trip(d: DestinationView, rest: Seq<u8>)
    requires
        d.wf(),
    ensures
        spec_decode(spec_encode(d) + rest) == Ok::<(DestinationView, nat), AddressError>(
            (d, spec_encode(d).len()),
        ),
{
    let b = spec_encode(d) + rest;
    lemma_be16_round_trip(d.port);
    match d.host {
        HostView::Ipv4(a) => {
            assert(b.subrange(1, 5) =~= a);
        },
        HostView::Domain(n) => {
            assert(b[1] == n.len() as u8);
            assert(b.subrange(2, 2 + b[1]) =~= n);
        },
        HostView::Ipv6(a) => {
            assert(b.subrange(1, 17) =~= a);
        },
    }
}

/// An address that was decoded lies within the bytes it was decoded from.
pub proof fn lemma_decoded_within(b: Seq<u8>)
    ensures
        spec_decode(b) matches Ok((_, n)) ==> 5 <= n <= b.len(),
{
}

/// Every encoding is at least five and at most 259 bytes long.
pub proof fn lemma_encoded_len(d: DestinationView)
    requires
        d.wf(),
    ensures
        5 <= spec_encode(d).len() <= 259,
{
    assert(be16(d.port).len() == 2);
}

/// Where a relayed connection is to go: a host and a port.
#[derive(Debug, PartialEq, Eq)]
pub struct Destination {
    host: Host,
    port: u16,
}

impl View for Destination {
    type V = DestinationView;

    closed spec fn view(&self) -> DestinationView {
        DestinationView { host: self.host@, port: self.port }
    }
}

impl Clone for Destination {
    fn clone(&self) -> (d: Destination)
        ensures
            d@ == self@,
    {
        self.duplicate()
    }
}

impl Destination {
    /// Holds of every destination there is: its host has a valid length.
    #[verifier::type_invariant]
    pub open spec fn inv(self) -> bool {
        self@.wf()
    }

    /// A destination for `host` and `port`, unless `host` is a domain name
    /// that is empty or longer than 255 bytes.
    pub fn new(host: Host, port: u16) -> (r: Result<Destination, AddressError>)
        ensures
            match r {
                Ok(d) => d@ == (DestinationView { host: host@, port }) && d@.wf(),
                Err(e) => match host@ {
                    HostView::Domain(n) => (e == AddressError::EmptyDomain && n.len() == 0) || (e
                        == AddressError::DomainTooLong && n.len() > MAX_DOMAIN_LEN),
                    _ => false,
                },
            },
    {
        match &host {
            Host::Domain(n) => {
                if n.len() == 0 {
                    return Err(AddressError::EmptyDomain);
                }
                if n.len() > MAX_DOMAIN_LEN {
                    return Err(AddressError::DomainTooLong);
                }
            },
            _ => {},
        }
        Ok(Destination { host, port })
    }

    /// The IPv4 destination `octets:port`.
    pub fn ipv4(octets: [u8; 4], port: u16) -> (d: Destination)
        ensures
            d@ == (DestinationView { host: HostView::Ipv4(octets@), port }),
    {
        Destination { host: Host::Ipv4(octets), port }
    }

    /// The IPv6 destination `[octets]:port`.
    pub fn ipv6(octets: [u8; 16], port: u16) -> (d: Destination)
        ensures
            d@ == (DestinationView { host: HostView::Ipv6(octets@), port }),
    {
        Destination { host: Host::Ipv6(octets), port }
    }

    /// The destination `name:port` for a domain name of 1 to 255 bytes.
    pub fn domain(name: &[u8], port: u16) -> (r: Result<Destination, AddressError>)
        ensures
            match r {
                Ok(d) => d@ == (DestinationView { host: HostView::Domain(name@), port }) && 1
                    <= name@.len() <= MAX_DOMAIN_LEN,
                Err(e) => (e == AddressError::EmptyDomain && name@.len() == 0) || (e
                    == AddressError::DomainTooLong && name@.len() > MAX_DOMAIN_LEN),
            },
    {
        if name.len() == 0 {
            return Err(AddressError::EmptyDomain);
        }
        if name.len() > MAX_DOMAIN_LEN {
            return Err(AddressError::DomainTooLong);
        }
        let n = copy_range(name, 0, name.len());
        assert(name@.subrange(0, name@.len() as int) =~= name@);
        Ok(Destination { host: Host::Domain(n), port })
    }

    /// The host.
    pub fn host(&self) -> (h: &Host)
        ensures
            h@ == self@.host,
    {
        &self.host
    }

    /// The port.
    pub fn port(&self) -> (p: u16)
        ensures
            p == self@.port,
    {
        self.port
    }

    /// A copy of this destination.
    pub fn duplicate(&self) -> (d: Destination)
        ensures
            d@ == self@,
    {
        proof {
            use_type_invariant(self);
        }
        let host = match &self.host {
            Host::Ipv4(a) => Host::Ipv4(*a),
            Host::Domain(n) => {
                let c = copy_range(n.as_slice(), 0, n.len());
                assert(n@.subrange(0, n@.len() as int) =~= n@);
                Host::Domain(c)
            },
            Host::Ipv6(a) => Host::Ipv6(*a),
        };
        Destination { host, port: self.port }
    }

    /// Appends the encoding of this destination to `out`.
    pub fn encode_into(&self, out: &mut Vec<u8>)
        ensures
            final(out)@ == old(out)@ + spec_encode(self@),
    {
        proof {
            use_type_invariant(self);
        }
        match &self.host {
            Host::Ipv4(a) => {
                out.push(ATYP_IPV4);
                append_slice(out, a.as_slice());
                push_be16(out, self.port);
                assert(out@ =~= old(out)@ + spec_encode(self@));
            },
            Host::Domain(n) => {
                out.push(ATYP_DOMAIN);
                out.push(n.len() as u8);
                append_slice(out, n.as_slice());
                push_be16(out, self.port);
                assert(out@ =~= old(out)@ + spec_encode(self@));
            },
            Host::Ipv6(a) => {
                out.push(ATYP_IPV6);
                append_slice(out, a.as_slice());
                push_be16(out, self.port);
                assert(out@ =~= old(out)@ + spec_encode(self@));
            },
        }
    }

    /// The encoding of this destination.
    pub fn encode(&self) -> (out: Vec<u8>)
        ensures
            out@ == spec_encode(self@),
    {
        let mut out: Vec<u8> = Vec::new();
        self.encode_into(&mut out);
        assert(out@ =~= spec_encode(self@));
        out
    }

    /// Reads the destination at the start of `buf`. On success the second
    /// part of the result is the number of bytes that it took.
    pub fn decode(buf: &[u8]) -> (r: Result<(Destination, usize), AddressError>)
        ensures
            match r {
                Ok((d, n)) => spec_decode(buf@) == Ok::<(DestinationView, nat), AddressError>(
                    (d@, n as nat),
                ),
                Err(e) => spec_decode(buf@) == Err::<(DestinationView, nat), AddressError>(e),
            },
    {
        let len: usize = buf.len();
        if len < 1 {
            return Err(AddressError::Truncated);
        }
        let atyp: u8 = buf[0];
        if atyp == ATYP_IPV4 {
            if len < 7 {
                return Err(AddressError::Truncated);
            }
            let a: [u8; 4] = [buf[1], buf[2], buf[3], buf[4]];
            assert(a@ =~= buf@.subrange(1, 5));
            let port = read_be16(buf, 5);
            Ok((Destination { host: Host::Ipv4(a), port }, 7))
        } else if atyp == ATYP_DOMAIN {
            if len < 2 {
                return Err(AddressError::Truncated);
            }
            let n: usize = buf[1] as usize;
            if n == 0 {
                return Err(AddressError::EmptyDomain);
            }
            if len < 4 + n {
                return Err(AddressError::Truncated);
            }
            let name = copy_range(buf, 2, 2 + n);
            let port = read_be16(buf, 2 + n);
            Ok((Destination { host: Host::Domain(name), port }, 4 + n))
        } else if atyp == ATYP_IPV6 {
            if len < 19 {
                return Err(AddressError::Truncated);
            }
            let a: [u8; 16] = [
                buf[1],
                buf[2],
                buf[3],
                buf[4],
                buf[5],
                buf[6],
                buf[7],
                buf[8],
                buf[9],
                buf[10],
                buf[11],
                buf[12],
                buf[13],
                buf[14],
                buf[15],
                buf[16],
            ];
            assert(a@ =~= buf@.subrange(1, 17));
            let port = read_be16(buf, 17);
            Ok((Destination { host: Host::Ipv6(a), port }, 19))
        } else {
            Err(AddressError::UnknownType)
        }
    }
}

} // verus!
