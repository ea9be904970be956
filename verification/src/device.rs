//! The record extractor: from a structured DNS response to a validated
//! device identity, or a typed reason why none can be had.
//!
//! A device is only ever constructed fully populated. Identity comes from
//! the owner name of the first address record (its leading label must be 32
//! hex digits); the address from the same record's payload; the port from
//! the first service-location record; display name and model from the first
//! text record's `fn=`..`ca=` and `md=`..`ic=` fields. An alternate source
//! of identity and model is a hyphen-delimited label such as
//! `Chromecast-Ultra-<32 hex digits>`, handled by `parse_device_name`.

use crate::discover::is_cast_device;
use crate::discover::is_relevant;
use crate::dns::{DnsRecord, DnsResponse, Ipv4, RecordModel, ResponseModel};
use crate::hex::{hex_value_of, is_hex32, is_hex_digit, parse_hex32};
use crate::text::{
    extract_field, field_between, find_last, find_sub, find_substring, lemma_find_last_is_last,
    lemma_find_sub_first, rfind_char,
};
use vstd::prelude::*;

verus! {

/// A discovered cast device, fully populated.
#[derive(Debug, Clone, PartialEq, Eq)]
pub struct Device {
    /// The 128-bit identifier, globally unique per physical unit.
    pub id: u128,
    /// The user-assigned display name.
    pub name: String,
    /// The manufacturer model string.
    pub model: String,
    /// The IPv4 address the device answers on.
    pub ip: Ipv4,
    /// The TCP port of the device's control service.
    pub port: u16,
}

/// The mathematical shape of a device.
#[verifier::ext_equal]
pub struct DeviceModel {
    pub id: int,
    pub name: Seq<char>,
    pub model: Seq<char>,
    pub ip: Ipv4,
    pub port: u16,
}

impl View for Device {
    type V = DeviceModel;

    open spec fn view(&self) -> DeviceModel {
        DeviceModel {
            id: self.id as int,
            name: self.name@,
            model: self.model@,
            ip: self.ip,
            port: self.port,
        }
    }
}

/// Why a response yields no device.
#[derive(Debug, PartialEq, Eq)]
pub enum ExtractError {
    /// The first answer does not name the well-known service.
    NotRelevant,
    /// No address record carries an owner name to read an identity from.
    MissingIdentity,
    /// The owner name's leading label is not 32 hex digits.
    InvalidIdentity,
    /// No address record carries the device's IPv4 address.
    MissingAddress,
    /// No service-location record carries the control port.
    MissingPort,
    /// No text record carries the name and model fields.
    MissingText,
    /// The text record lacks the `fn=`..`ca=` or the `md=`..`ic=` field.
    MalformedText,
    /// A hyphen-delimited device label has no hyphen to split at.
    DeviceNameFormat(String),
}

/// The owner and payload of the first address record, if any.
pub open spec fn first_address(rs: Seq<RecordModel>) -> Option<(Seq<char>, Ipv4)>
    decreases rs.len(),
{
    if rs.len() == 0 {
        None
    } else {
        match rs[0] {
            RecordModel::Address { owner, ip } => Some((owner, ip)),
            _ => first_address(rs.drop_first()),
        }
    }
}

/// The port of the first service-location record, if any.
pub open spec fn first_service_location(rs: Seq<RecordModel>) -> Option<u16>
    decreases rs.len(),
{
    if rs.len() == 0 {
        None
    } else {
        match rs[0] {
            RecordModel::ServiceLocation { port } => Some(port),
            _ => first_service_location(rs.drop_first()),
        }
    }
}

/// The payload of the first text record, if any.
pub open spec fn first_text(rs: Seq<RecordModel>) -> Option<Seq<char>>
    decreases rs.len(),
{
    if rs.len() == 0 {
        None
    } else {
        match rs[0] {
            RecordModel::Text { payload } => Some(payload),
            _ => first_text(rs.drop_first()),
        }
    }
}

/// The part of a DNS name before its first dot (the whole name when it has
/// none).
pub open spec fn label_of(s: Seq<char>) -> Seq<char> {
    match find_sub(s, seq!['.']) {
        Some(i) => s.take(i),
        None => s,
    }
}

/// Replaces every hyphen by a space: the segments of a hyphen-delimited
/// label, joined by spaces.
pub open spec fn dashes_to_spaces(s: Seq<char>) -> Seq<char> {
    s.map_values(|c: char| if c == '-' { ' ' } else { c })
}

/// Segments joined by a separator character.
pub open spec fn joined(segs: Seq<Seq<char>>, sep: char) -> Seq<char>
    decreases segs.len(),
{
    if segs.len() == 0 {
        Seq::empty()
    } else if segs.len() == 1 {
        segs[0]
    } else {
        segs[0] + seq![sep] + joined(segs.drop_first(), sep)
    }
}

/// A join of two or more segments is the join of all but the last, the
/// separator, and the last.
proof fn lemma_joined_snoc(segs: Seq<Seq<char>>, sep: char)
    requires
        segs.len() >= 2,
    ensures
        joined(segs, sep) == joined(segs.drop_last(), sep) + seq![sep] + segs.last(),
    decreases segs.len(),
{
    if segs.len() == 2 {
        assert(segs.drop_first() =~= seq![segs[1]]);
        assert(segs.drop_last() =~= seq![segs[0]]);
        assert(joined(seq![segs[1]], sep) == segs[1]);
        assert(joined(seq![segs[0]], sep) == segs[0]);
        assert(joined(segs, sep) =~= joined(segs.drop_last(), sep) + seq![sep] + segs.last());
    } else {
        let tail = segs.drop_first();
        lemma_joined_snoc(tail, sep);
        assert(joined(segs, sep) == segs[0] + seq![sep] + joined(tail, sep));
        assert(joined(segs.drop_last(), sep) == segs.drop_last()[0] + seq![sep] + joined(
            segs.drop_last().drop_first(),
            sep,
        ));
        assert(tail.drop_last() =~= segs.drop_last().drop_first());
        assert(tail.last() == segs.last());
        assert(segs.drop_last()[0] == segs[0]);
        assert(joined(segs, sep) =~= joined(segs.drop_last(), sep) + seq![sep] + segs.last());
    }
}

/// Replacing hyphens by spaces in a hyphen-join of hyphen-free segments is
/// the space-join of the same segments.
proof fn lemma_joined_dashes(segs: Seq<Seq<char>>)
    requires
        forall|k: int, i: int|
            0 <= k < segs.len() && 0 <= i < segs[k].len() ==> #[trigger] segs[k][i] != '-',
    ensures
        dashes_to_spaces(joined(segs, '-')) == joined(segs, ' '),
    decreases segs.len(),
{
    if segs.len() == 0 {
        assert(dashes_to_spaces(joined(segs, '-')) =~= joined(segs, ' '));
    } else if segs.len() == 1 {
        assert(dashes_to_spaces(joined(segs, '-')) =~= joined(segs, ' '));
    } else {
        let tail = segs.drop_first();
        assert(forall|k: int, i: int|
            0 <= k < tail.len() && 0 <= i < tail[k].len() ==> #[trigger] tail[k][i] == segs[k
                + 1][i]);
        lemma_joined_dashes(tail);
        assert(dashes_to_spaces(joined(segs, '-')) =~= joined(segs, ' '));
    }
}

/// `find_last` at a known last occurrence.
proof fn lemma_find_last_unique(s: Seq<char>, c: char, i: int)
    requires
        0 <= i < s.len(),
        s[i] == c,
        forall|j: int| i < j < s.len() ==> s[j] != c,
    ensures
        find_last(s, c) == Some(i),
{
    lemma_find_last_is_last(s, c);
}

/// The law of the label-based identity and name source. A label of the
/// form `<seg1>-<seg2>-...-<hex32>`, each segment free of hyphens, splits
/// at its last hyphen into exactly the leading segments — joined by spaces
/// once parsed — and the trailing 32 hex digits; so, by the contract of
/// `parse_device_name`, parsing such a label yields the model
/// `<seg1> <seg2> ...` and the identity the trailing digits denote.
pub proof fn lemma_segmented_label(segs: Seq<Seq<char>>)
    requires
        segs.len() >= 2,
        forall|k: int, i: int|
            0 <= k < segs.len() && 0 <= i < segs[k].len() ==> #[trigger] segs[k][i] != '-',
        is_hex32(segs.last()),
    ensures
        ({
            let label = joined(segs, '-');
            let d = joined(segs.drop_last(), '-').len() as int;
            &&& find_last(label, '-') == Some(d)
            &&& label.skip(d + 1) == segs.last()
            &&& dashes_to_spaces(label.take(d)) == joined(segs.drop_last(), ' ')
        }),
{
    let label = joined(segs, '-');
    let prefix = joined(segs.drop_last(), '-');
    let d = prefix.len() as int;
    lemma_joined_snoc(segs, '-');
    assert(label =~= prefix + seq!['-'] + segs.last());
    assert(label[d] == '-');
    assert forall|j: int| d < j < label.len() implies label[j] != '-' by {
        assert(label[j] == segs.last()[j - d - 1]);
        assert(is_hex_digit(segs.last()[j - d - 1]));
    }
    lemma_find_last_unique(label, '-', d);
    assert(label.skip(d + 1) =~= segs.last());
    assert(label.take(d) =~= prefix);
    assert(forall|k: int, i: int|
        0 <= k < segs.drop_last().len() && 0 <= i < segs.drop_last()[k].len()
            ==> #[trigger] segs.drop_last()[k][i] == segs[k][i]);
    lemma_joined_dashes(segs.drop_last());
}

/// A label without hyphens — fewer than two segments — is rejected by the
/// split: by the contract of `parse_device_name`, parsing it yields the
/// device-name-format error.
pub proof fn lemma_unsegmented_label(label: Seq<char>)
    requires
        forall|i: int| 0 <= i < label.len() ==> label[i] != '-',
    ensures
        find_last(label, '-') is None,
{
    lemma_find_last_is_last(label, '-');
    if find_last(label, '-') is Some {
        let i = find_last(label, '-').unwrap();
        assert(label[i] == '-');
    }
}

/// What the identity step of extraction yields: the value of the leading
/// 32-hex-digit label of the first address record's owner name.
pub open spec fn identity_of(r: ResponseModel) -> Result<int, ExtractError> {
    match first_address(r.additional) {
        None => Err(ExtractError::MissingIdentity),
        Some((owner, _)) => {
            if is_hex32(label_of(owner)) {
                Ok(hex_value_of(label_of(owner)))
            } else {
                Err(ExtractError::InvalidIdentity)
            }
        },
    }
}

/// What the address step yields: the payload of the first address record.
pub open spec fn address_of(r: ResponseModel) -> Result<Ipv4, ExtractError> {
    match first_address(r.additional) {
        None => Err(ExtractError::MissingAddress),
        Some((_, ip)) => Ok(ip),
    }
}

/// What the port step yields: the port of the first service-location
/// record.
pub open spec fn port_of(r: ResponseModel) -> Result<u16, ExtractError> {
    match first_service_location(r.additional) {
        None => Err(ExtractError::MissingPort),
        Some(port) => Ok(port),
    }
}

/// What the text step yields: the `fn=`..`ca=` and `md=`..`ic=` fields of
/// the first text record.
pub open spec fn fields_of(r: ResponseModel) -> Result<(Seq<char>, Seq<char>), ExtractError> {
    match first_text(r.additional) {
        None => Err(ExtractError::MissingText),
        Some(payload) => match (
            field_between(payload, "fn="@, "ca="@),
            field_between(payload, "md="@, "ic="@),
        ) {
            (Some(name), Some(model)) => Ok((name, model)),
            _ => Err(ExtractError::MalformedText),
        },
    }
}

/// The whole extraction, step by step, first failure first: relevance,
/// identity, address, port, text fields.
pub open spec fn extract_spec(r: ResponseModel) -> Result<DeviceModel, ExtractError> {
    if !is_relevant(r) {
        Err(ExtractError::NotRelevant)
    } else {
        match identity_of(r) {
            Err(e) => Err(e),
            Ok(id) => match address_of(r) {
                Err(e) => Err(e),
                Ok(ip) => match port_of(r) {
                    Err(e) => Err(e),
                    Ok(port) => match fields_of(r) {
                        Err(e) => Err(e),
                        Ok((name, model)) => Ok(DeviceModel { id, name, model, ip, port }),
                    },
                },
            },
        }
    }
}

/// A response whose first answer differs from the well-known service name
/// is always classified as not relevant, whatever its records hold.
pub proof fn lemma_irrelevant_response(r: ResponseModel)
    requires
        !is_relevant(r),
    ensures
        extract_spec(r) == Err::<DeviceModel, ExtractError>(ExtractError::NotRelevant),
{
}

impl Device {
    /// Extracts a fully populated device from a structured DNS response, or
    /// reports the first step that fails.
    pub fn from_dns(resp: &DnsResponse) -> (r: Result<Device, ExtractError>)
        ensures
            r is Ok <==> extract_spec(resp@) is Ok,
            r matches Ok(d) ==> extract_spec(resp@) == Ok::<DeviceModel, ExtractError>(d@),
            r matches Err(e) ==> extract_spec(resp@) == Err::<DeviceModel, ExtractError>(e),
    {
        if !is_cast_device(resp) {
            return Err(ExtractError::NotRelevant);
        }
        let id = match Self::get_uuid(resp) {
            Ok(id) => id,
            Err(e) => return Err(e),
        };
        let ip = match Self::get_ip(resp) {
            Ok(ip) => ip,
            Err(e) => return Err(e),
        };
        let port = match Self::get_port(resp) {
            Ok(port) => port,
            Err(e) => return Err(e),
        };
        let (name, model) = match Self::get_name(resp) {
            Ok(pair) => pair,
            Err(e) => return Err(e),
        };
        Ok(Device { id, name, model, ip, port })
    }

    /// The identity read from the first address record's owner name.
    fn get_uuid(resp: &DnsResponse) -> (r: Result<u128, ExtractError>)
        ensures
            r matches Ok(v) ==> identity_of(resp@) == Ok::<int, ExtractError>(v as int),
            r matches Err(e) ==> identity_of(resp@) == Err::<int, ExtractError>(e),
    {
        let n = resp.additional.len();
        let mut i: usize = 0;
        proof {
            assert(resp@.additional.skip(0) =~= resp@.additional);
        }
        while i < n
            invariant
                n == resp.additional.len(),
                0 <= i <= n,
                resp@.additional.len() == n,
                first_address(resp@.additional.skip(i as int)) == first_address(resp@.additional),
            decreases n - i,
        {
            proof {
                assert(resp@.additional[i as int] == resp.additional@[i as int]@);
                assert(resp@.additional.skip(i as int)[0] == resp@.additional[i as int]);
                assert(resp@.additional.skip(i as int).drop_first() =~= resp@.additional.skip(
                    i as int + 1,
                ));
            }
            match &resp.additional[i] {
                DnsRecord::Address { owner, .. } => {
                    let label = name_label(owner.as_str());
                    return match parse_hex32(label) {
                        Some(v) => Ok(v),
                        None => Err(ExtractError::InvalidIdentity),
                    };
                },
                _ => {},
            }
            i += 1;
        }
        proof {
            assert(resp@.additional.skip(n as int) =~= Seq::<RecordModel>::empty());
        }
        Err(ExtractError::MissingIdentity)
    }

    /// The IPv4 payload of the first address record.
    fn get_ip(resp: &DnsResponse) -> (r: Result<Ipv4, ExtractError>)
        ensures
            r matches Ok(v) ==> address_of(resp@) == Ok::<Ipv4, ExtractError>(v),
            r matches Err(e) ==> address_of(resp@) == Err::<Ipv4, ExtractError>(e),
    {
        let n = resp.additional.len();
        let mut i: usize = 0;
        proof {
            assert(resp@.additional.skip(0) =~= resp@.additional);
        }
        while i < n
            invariant
                n == resp.additional.len(),
                0 <= i <= n,
                resp@.additional.len() == n,
                first_address(resp@.additional.skip(i as int)) == first_address(resp@.additional),
            decreases n - i,
        {
            proof {
                assert(resp@.additional[i as int] == resp.additional@[i as int]@);
                assert(resp@.additional.skip(i as int)[0] == resp@.additional[i as int]);
                assert(resp@.additional.skip(i as int).drop_first() =~= resp@.additional.skip(
                    i as int + 1,
                ));
            }
            match &resp.additional[i] {
                DnsRecord::Address { ip, .. } => {
                    return Ok(*ip);
                },
                _ => {},
            }
            i += 1;
        }
        proof {
            assert(resp@.additional.skip(n as int) =~= Seq::<RecordModel>::empty());
        }
        Err(ExtractError::MissingAddress)
    }

    /// The port of the first service-location record.
    fn get_port(resp: &DnsResponse) -> (r: Result<u16, ExtractError>)
        ensures
            r matches Ok(v) ==> port_of(resp@) == Ok::<u16, ExtractError>(v),
            r matches Err(e) ==> port_of(resp@) == Err::<u16, ExtractError>(e),
    {
        let n = resp.additional.len();
        let mut i: usize = 0;
        proof {
            assert(resp@.additional.skip(0) =~= resp@.additional);
        }
        while i < n
            invariant
                n == resp.additional.len(),
                0 <= i <= n,
                resp@.additional.len() == n,
                first_service_location(resp@.additional.skip(i as int)) == first_service_location(
                    resp@.additional,
                ),
            decreases n - i,
        {
            proof {
                assert(resp@.additional[i as int] == resp.additional@[i as int]@);
                assert(resp@.additional.skip(i as int)[0] == resp@.additional[i as int]);
                assert(resp@.additional.skip(i as int).drop_first() =~= resp@.additional.skip(
                    i as int + 1,
                ));
            }
            match &resp.additional[i] {
                DnsRecord::ServiceLocation { port } => {
                    return Ok(*port);
                },
                _ => {},
            }
            i += 1;
        }
        proof {
            assert(resp@.additional.skip(n as int) =~= Seq::<RecordModel>::empty());
        }
        Err(ExtractError::MissingPort)
    }

    /// The display name and model from the first text record.
    fn get_name(resp: &DnsResponse) -> (r: Result<(String, String), ExtractError>)
        ensures
            r matches Ok(p) ==> fields_of(resp@) == Ok::<(Seq<char>, Seq<char>), ExtractError>(
                (p.0@, p.1@),
            ),
            r matches Err(e) ==> fields_of(resp@) == Err::<(Seq<char>, Seq<char>), ExtractError>(e),
    {
        let n = resp.additional.len();
        let mut i: usize = 0;
        proof {
            assert(resp@.additional.skip(0) =~= resp@.additional);
        }
        while i < n
            invariant
                n == resp.additional.len(),
                0 <= i <= n,
                resp@.additional.len() == n,
                first_text(resp@.additional.skip(i as int)) == first_text(resp@.additional),
            decreases n - i,
        {
            proof {
                assert(resp@.additional[i as int] == resp.additional@[i as int]@);
                assert(resp@.additional.skip(i as int)[0] == resp@.additional[i as int]);
                assert(resp@.additional.skip(i as int).drop_first() =~= resp@.additional.skip(
                    i as int + 1,
                ));
            }
            match &resp.additional[i] {
                DnsRecord::Text { payload } => {
                    let name = match extract_field(payload.as_str(), "fn=", "ca=") {
                        Some(name) => name,
                        None => return Err(ExtractError::MalformedText),
                    };
                    let model = match extract_field(payload.as_str(), "md=", "ic=") {
                        Some(model) => model,
                        None => return Err(ExtractError::MalformedText),
                    };
                    return Ok((name, model));
                },
                _ => {},
            }
            i += 1;
        }
        proof {
            assert(resp@.additional.skip(n as int) =~= Seq::<RecordModel>::empty());
        }
        Err(ExtractError::MissingText)
    }

    /// Splits a hyphen-delimited device label into model and identity: the
    /// segments before the last hyphen, joined by spaces, and the 32 hex
    /// digits after it.
    pub fn parse_device_name(device_name: &str) -> (r: Result<(String, u128), ExtractError>)
        ensures
            ({
                let label = label_of(device_name@);
                &&& (find_last(label, '-') is None ==> (r matches Err(
                    ExtractError::DeviceNameFormat(orig),
                ) && orig@ == device_name@))
                &&& (find_last(label, '-') matches Some(i) ==> (if is_hex32(
                    label.skip(i + 1),
                ) {
                    r matches Ok(p) && p.0@ == dashes_to_spaces(label.take(i)) && (p.1 as int)
                        == hex_value_of(label.skip(i + 1))
                } else {
                    r == Err::<(String, u128), ExtractError>(ExtractError::InvalidIdentity)
                }))
            }),
    {
        let label = name_label(device_name);
        match rfind_char(label, '-') {
            None => Err(ExtractError::DeviceNameFormat(device_name.to_owned())),
            Some(d) => {
                proof {
                    lemma_find_last_is_last(label@, '-');
                }
                let llen = label.unicode_len();
                let tail = label.substring_char(d + 1, llen);
                match parse_hex32(tail) {
                    None => Err(ExtractError::InvalidIdentity),
                    Some(id) => {
                        let model = spaced_prefix(label, d);
                        Ok((model, id))
                    },
                }
            },
        }
    }
}

/// The part of a DNS name before its first dot, as a slice of it.
fn name_label<'a>(s: &'a str) -> (r: &'a str)
    ensures
        r@ == label_of(s@),
{
    proof {
        reveal_strlit(".");
        assert("."@ =~= seq!['.']);
    }
    match find_substring(s, ".") {
        Some(i) => {
            proof {
                lemma_find_sub_first(s@, "."@);
                assert(s@.subrange(0, i as int) =~= s@.take(i as int));
            }
            s.substring_char(0, i)
        },
        None => s,
    }
}

/// The first `d` characters of `label` with hyphens replaced by spaces.
fn spaced_prefix(label: &str, d: usize) -> (r: String)
    requires
        d <= label@.len(),
    ensures
        r@ == dashes_to_spaces(label@.take(d as int)),
{
    let mut out = String::new();
    let mut k: usize = 0;
    proof {
        assert(out@ =~= dashes_to_spaces(label@.take(0)));
    }
    while k < d
        invariant
            d <= label@.len(),
            0 <= k <= d,
            out@ == dashes_to_spaces(label@.take(k as int)),
        decreases d - k,
    {
        let ch = label.get_char(k);
        if ch == '-' {
            out.append(" ");
            proof {
                reveal_strlit(" ");
            }
        } else {
            let piece = label.substring_char(k, k + 1);
            out.append(piece);
        }
        proof {
            assert(out@ =~= dashes_to_spaces(label@.take(k as int + 1)));
        }
        k += 1;
    }
    out
}

} // verus!
