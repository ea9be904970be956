//! The structured DNS response and query, at the boundary to the wire-format
//! parser.
//!
//! Discovery reads three kinds of additional record out of a response: an
//! address record (owner name and IPv4 payload), a service-location record
//! (port), and a text record (one flat run of `key=value` text). The
//! wire-format work itself is done by the `dns_parser` crate behind the two
//! trusted functions at the bottom of this module.

use vstd::prelude::*;

verus! {

/// An IPv4 address as its four octets.
#[derive(Clone, Copy, PartialEq, Eq, Structural, Debug)]
pub struct Ipv4 {
    pub a: u8,
    pub b: u8,
    pub c: u8,
    pub d: u8,
}

/// One additional record of a DNS response, reduced to what discovery reads.
pub enum DnsRecord {
    /// An address record: its owner name and its IPv4 payload.
    Address { owner: String, ip: Ipv4 },
    /// A service-location record: the port the service listens on.
    ServiceLocation { port: u16 },
    /// A text record: its character strings run together.
    Text { payload: String },
}

/// A structured DNS response: the names of its answer records and its
/// additional records, each in arrival order.
pub struct DnsResponse {
    pub answers: Vec<String>,
    pub additional: Vec<DnsRecord>,
}

/// The mathematical shape of one additional record.
#[verifier::ext_equal]
pub enum RecordModel {
    Address { owner: Seq<char>, ip: Ipv4 },
    ServiceLocation { port: u16 },
    Text { payload: Seq<char> },
}

/// The mathematical shape of a response.
#[verifier::ext_equal]
pub struct ResponseModel {
    pub answers: Seq<Seq<char>>,
    pub additional: Seq<RecordModel>,
}

impl View for DnsRecord {
    type V = RecordModel;

    open spec fn view(&self) -> RecordModel {
        match self {
            DnsRecord::Address { owner, ip } => RecordModel::Address { owner: owner@, ip: *ip },
            DnsRecord::ServiceLocation { port } => RecordModel::ServiceLocation { port: *port },
            DnsRecord::Text { payload } => RecordModel::Text { payload: payload@ },
        }
    }
}

impl View for DnsResponse {
    type V = ResponseModel;

    open spec fn view(&self) -> ResponseModel {
        ResponseModel {
            answers: self.answers@.map_values(|s: String| s@),
            additional: self.additional@.map_values(|r: DnsRecord| r@),
        }
    }
}

/// The well-known service name every cast device answers for.
pub open spec fn spec_service_name() -> Seq<char> {
    "_googlecast._tcp.local"@
}

/// The well-known service name every cast device answers for.
pub fn service_name() -> (r: &'static str)
    ensures
        r@ == spec_service_name(),
{
    "_googlecast._tcp.local"
}

/// An address record from its owner name and the four payload octets.
pub fn address_record(owner: String, octets: [u8; 4]) -> (r: DnsRecord)
    ensures
        r@ == (RecordModel::Address {
            owner: owner@,
            ip: Ipv4 { a: octets[0], b: octets[1], c: octets[2], d: octets[3] },
        }),
{
    let ip = Ipv4 { a: octets[0], b: octets[1], c: octets[2], d: octets[3] };
    DnsRecord::Address { owner, ip }
}

/// A service-location record from its port.
pub fn service_location_record(port: u16) -> (r: DnsRecord)
    ensures
        r@ == (RecordModel::ServiceLocation { port }),
{
    DnsRecord::ServiceLocation { port }
}

/// A text record from its flattened payload.
pub fn text_record(payload: String) -> (r: DnsRecord)
    ensures
        r@ == (RecordModel::Text { payload: payload@ }),
{
    DnsRecord::Text { payload }
}

/// The structured response that the wire-format parser reads out of a
/// datagram, or `None` when the bytes do not parse as a DNS packet.
pub uninterp spec fn parsed_of(bytes: Seq<u8>) -> Option<ResponseModel>;

/// Relies on `dns_parser::Packet::parse`: the structured packet read from a
/// datagram is a function of the bytes alone, and unparsable bytes are
/// rejected. Answer names and the three record kinds discovery consumes are
/// converted to the library's own response type; other record kinds carry
/// nothing discovery reads and are left out of the model.
#[verifier::external_body]
pub(crate) fn parse_response(buf: &[u8]) -> (r: Option<DnsResponse>)
    ensures
        r is Some <==> parsed_of(buf@) is Some,
        r matches Some(resp) ==> parsed_of(buf@) == Some(resp@),
{
    let p = match dns_parser::Packet::parse(buf) {
        Ok(p) => p,
        Err(_) => return None,
    };
    let answers = p.answers.iter().map(|a| a.name.to_string()).collect();
    let additional = p.additional.iter().filter_map(|rec| match &rec.data {
        dns_parser::RData::A(a) => Some(address_record(rec.name.to_string(), a.0.octets())),
        dns_parser::RData::SRV(s) => Some(service_location_record(s.port)),
        dns_parser::RData::TXT(t) => Some(text_record(
            String::from_utf8_lossy(&t.iter().collect::<Vec<_>>().concat()).into_owned(),
        )),
        _ => None,
    }).collect();
    Some(DnsResponse { answers, additional })
}

/// The serialized DNS query packet with id 0 and one PTR/IN question for
/// the given name.
pub uninterp spec fn query_wire_of(name: Seq<char>) -> Seq<u8>;

/// Relies on `dns_parser::Builder`: a query packet built with a fixed id and
/// a single PTR/IN question is a function of the queried name alone.
/// `Builder::add_question` panics on a label of 63 bytes or more, which the
/// precondition rules out for ASCII names by bounding the whole name.
#[verifier::external_body]
pub(crate) fn build_ptr_query(name: &str) -> (r: Vec<u8>)
    requires
        name.is_ascii(),
        name@.len() < 63,
    ensures
        r@ == query_wire_of(name@),
{
    let mut b = dns_parser::Builder::new_query(0, false);
    b.add_question(name, false, dns_parser::QueryType::PTR, dns_parser::QueryClass::IN);
    b.build().unwrap_or_else(|bytes| bytes)
}

} // verus!
