use librcast::device::{Device, ExtractError};
use librcast::dns::{DnsRecord, DnsResponse, Ipv4};
use uuid::Uuid;

fn full_response() -> DnsResponse {
    DnsResponse {
        answers: vec!["_googlecast._tcp.local".to_string()],
        additional: vec![
            DnsRecord::Address {
                owner: "bc7866b8d9b0a99263a2020cd11355f8.local".to_string(),
                ip: Ipv4 { a: 192, b: 168, c: 1, d: 50 },
            },
            DnsRecord::ServiceLocation { port: 8009 },
            DnsRecord::Text {
                payload: "id=bc7866b8d9b0a99263a2020cd11355f8cd=0rm=ve=05md=Chromecast Ultraic=/setup/icon.pngfn=Salonca=4101st=0nf=1rs=".to_string(),
            },
        ],
    }
}

#[test]
fn parse_ptr() {
    let uuid1 = Uuid::parse_str("bc7866b8d9b0a99263a2020cd11355f8").unwrap();
    let uuid2 = Uuid::parse_str("ca2e93348ea78c867c5ee00e3e3b588d").unwrap();

    let ptr_ok_1 = "Chromecast-Ultra-bc7866b8d9b0a99263a2020cd11355f8._googlecast._tcp.local";
    let ptr_ok_2 = "Google-Home-Mini-ca2e93348ea78c867c5ee00e3e3b588d._googlecast._tcp.local";
    let ptr_ok_3 = "GoogleCastThingy-ca2e93348ea78c867c5ee00e3e3b588d._googlecast._tcp.local";
    let ptr_ok_4 =
        "Random-Fake-Chromecast-Device-ca2e93348ea78c867c5ee00e3e3b588d._googlecast._tcp.local";
    let ptr_ok_5 = "Missing-Mdns-Addr-Device-ca2e93348ea78c867c5ee00e3e3b588d._googlecast";

    assert_eq!(
        ("Chromecast Ultra".to_owned(), uuid1.as_u128()),
        Device::parse_device_name(ptr_ok_1).unwrap()
    );
    assert_eq!(
        ("Google Home Mini".to_owned(), uuid2.as_u128()),
        Device::parse_device_name(ptr_ok_2).unwrap()
    );
    assert_eq!(
        ("GoogleCastThingy".to_owned(), uuid2.as_u128()),
        Device::parse_device_name(ptr_ok_3).unwrap()
    );
    assert_eq!(
        ("Random Fake Chromecast Device".to_owned(), uuid2.as_u128()),
        Device::parse_device_name(ptr_ok_4).unwrap()
    );
    assert_eq!(
        ("Missing Mdns Addr Device".to_owned(), uuid2.as_u128()),
        Device::parse_device_name(ptr_ok_5).unwrap()
    );

    let ptr_ko_1 = "Chromecast-Weird-Exa-bc7866b8d9b0a99263a2020cd1135iii._googlecast._tcp.local";
    let ptr_ko_2 = "._googlecast._tcp.local";
    let ptr_ko_3 = "lol wtf";
    let ptr_ko_4 = "";

    assert_eq!(
        Err(ExtractError::InvalidIdentity),
        Device::parse_device_name(ptr_ko_1)
    );
    assert_eq!(
        Err(ExtractError::DeviceNameFormat(ptr_ko_2.to_owned())),
        Device::parse_device_name(ptr_ko_2)
    );
    assert_eq!(
        Err(ExtractError::DeviceNameFormat(ptr_ko_3.to_owned())),
        Device::parse_device_name(ptr_ko_3)
    );
    assert_eq!(
        Err(ExtractError::DeviceNameFormat(ptr_ko_4.to_owned())),
        Device::parse_device_name(ptr_ko_4)
    );
}

#[test]
fn extract_full_device() {
    let device = Device::from_dns(&full_response()).unwrap();
    assert_eq!(device.id, 0xbc7866b8d9b0a99263a2020cd11355f8u128);
    assert_eq!(device.name, "Salon");
    assert_eq!(device.model, "Chromecast Ultra");
    assert_eq!(device.ip, Ipv4 { a: 192, b: 168, c: 1, d: 50 });
    assert_eq!(device.port, 8009);
}

#[test]
fn extract_irrelevant_answer() {
    let mut resp = full_response();
    resp.answers = vec!["_printer._tcp.local".to_string()];
    assert_eq!(Err(ExtractError::NotRelevant), Device::from_dns(&resp));
}

#[test]
fn extract_empty_answers() {
    let mut resp = full_response();
    resp.answers = vec![];
    assert_eq!(Err(ExtractError::NotRelevant), Device::from_dns(&resp));
}

#[test]
fn extract_missing_identity() {
    let mut resp = full_response();
    resp.additional.remove(0);
    assert_eq!(Err(ExtractError::MissingIdentity), Device::from_dns(&resp));
}

#[test]
fn extract_invalid_identity() {
    let mut resp = full_response();
    resp.additional[0] = DnsRecord::Address {
        owner: "not-a-hex-identifier.local".to_string(),
        ip: Ipv4 { a: 192, b: 168, c: 1, d: 50 },
    };
    assert_eq!(Err(ExtractError::InvalidIdentity), Device::from_dns(&resp));
}

#[test]
fn extract_missing_port() {
    let mut resp = full_response();
    resp.additional.remove(1);
    assert_eq!(Err(ExtractError::MissingPort), Device::from_dns(&resp));
}

#[test]
fn extract_missing_text() {
    let mut resp = full_response();
    resp.additional.remove(2);
    assert_eq!(Err(ExtractError::MissingText), Device::from_dns(&resp));
}

#[test]
fn extract_malformed_text() {
    let mut resp = full_response();
    resp.additional[2] = DnsRecord::Text {
        payload: "id=bc7866b8d9b0a99263a2020cd11355f8st=0".to_string(),
    };
    assert_eq!(Err(ExtractError::MalformedText), Device::from_dns(&resp));
}

#[test]
fn extract_first_record_of_each_kind_wins() {
    let mut resp = full_response();
    resp.additional.push(DnsRecord::ServiceLocation { port: 9 });
    resp.additional.push(DnsRecord::Address {
        owner: "ca2e93348ea78c867c5ee00e3e3b588d.local".to_string(),
        ip: Ipv4 { a: 10, b: 0, c: 0, d: 1 },
    });
    let device = Device::from_dns(&resp).unwrap();
    assert_eq!(device.id, 0xbc7866b8d9b0a99263a2020cd11355f8u128);
    assert_eq!(device.ip, Ipv4 { a: 192, b: 168, c: 1, d: 50 });
    assert_eq!(device.port, 8009);
}

#[test]
fn text_fields_from_home_mini_payload() {
    let payload = "id=ca2e93348ea78c867c5ee00e3e3b588dcd=F1D6D14A72EB22FC70176DB9D345FB2Erm=ve=05md=Google Home Miniic=/setup/icon.pngfn=Living Room speakerca=2052st=0bs=FA8FCA7B5D0Cnf=1rs=";
    let name = librcast::text::extract_field(payload, "fn=", "ca=").unwrap();
    let model = librcast::text::extract_field(payload, "md=", "ic=").unwrap();
    assert_eq!(name, "Living Room speaker");
    assert_eq!(model, "Google Home Mini");
}

#[test]
fn text_fields_take_first_marker_pair() {
    // an early end marker before the start marker must not confuse the
    // extraction: the end marker counts only after the start marker
    let payload = "ca=zzfn=Abcca=12fn=Zca=9";
    assert_eq!(
        Some("Abc".to_string()),
        librcast::text::extract_field(payload, "fn=", "ca=")
    );
    // and the field is exactly the text strictly between the two markers
    let payload2 = "md=ic=x";
    assert_eq!(
        Some("".to_string()),
        librcast::text::extract_field(payload2, "md=", "ic=")
    );
}

#[test]
fn text_field_absent_marker() {
    assert_eq!(None, librcast::text::extract_field("fn=Salon", "fn=", "ca="));
    assert_eq!(None, librcast::text::extract_field("ca=4101", "fn=", "ca="));
    assert_eq!(None, librcast::text::extract_field("ca=4101fn=Salon", "fn=", "ca="));
}
