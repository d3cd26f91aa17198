//! The decision core of the iterative resolver.
//!
//! One query/response exchange ends in one of three ways forward — the
//! answer itself, the address of the next nameserver to ask, or a delegated
//! nameserver's name that must be resolved first — or in no way forward at
//! all. The checks run in that strict order, each scanning its section for
//! the first record of the wanted type. The caller owns the loop: it sends
//! the queries, feeds each decoded response back in, and acts on the
//! decision.

use vstd::prelude::*;

use crate::packet::first_a_ip_spec;
use crate::packet::first_ns_name_spec;
use crate::packet::DNSPacket;
use crate::types::DnsError;
use crate::types::Ipv4;

verus! {

/// What a response tells the resolver to do next.
#[derive(Debug, PartialEq)]
pub enum Decision {
    /// An answer record carried the address: resolution is complete.
    Answer(Ipv4),
    /// An additional record carried the next nameserver's address: query it.
    NextServer(Ipv4),
    /// An authority record delegated to a nameserver known only by name:
    /// resolve that name, then query the address it yields.
    ResolveNs(Vec<u8>),
}

/// Decides the next step from a decoded response, in strict priority order:
/// an answer-section address wins over an additional-section address, which
/// wins over an authority-section delegation; a response offering none of
/// the three is the no-progress failure.
pub fn decide_next(packet: &DNSPacket) -> (r: Result<Decision, DnsError>)
    ensures
        ({
            let pv = packet@;
            match first_a_ip_spec(pv.answers) {
                Err(e) => r == Err::<Decision, DnsError>(e),
                Ok(Some(ip)) => r == Ok::<Decision, DnsError>(Decision::Answer(ip)),
                Ok(None) => match first_a_ip_spec(pv.additionals) {
                    Err(e) => r == Err::<Decision, DnsError>(e),
                    Ok(Some(ip)) => r == Ok::<Decision, DnsError>(Decision::NextServer(ip)),
                    Ok(None) => match first_ns_name_spec(pv.authorities) {
                        Err(e) => r == Err::<Decision, DnsError>(e),
                        Ok(Some(name)) => r matches Ok(d) && d matches Decision::ResolveNs(n)
                            && n@ == name,
                        Ok(None) => r == Err::<Decision, DnsError>(DnsError::NoIpFound),
                    },
                },
            }
        }),
{
    match packet.get_ip() {
        Err(e) => {
            return Err(e);
        },
        Ok(Some(ip)) => {
            return Ok(Decision::Answer(ip));
        },
        Ok(None) => {},
    }
    match packet.get_nameserver_ip() {
        Err(e) => {
            return Err(e);
        },
        Ok(Some(ip)) => {
            return Ok(Decision::NextServer(ip));
        },
        Ok(None) => {},
    }
    match packet.get_nameserver() {
        Err(e) => Err(e),
        Ok(Some(name)) => Ok(Decision::ResolveNs(name)),
        Ok(None) => Err(DnsError::NoIpFound),
    }
}

} // verus!
