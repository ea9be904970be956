use librcast::device::Device;
use librcast::discovery::{
    build_query, collect_devices, collector_step, process_datagram, CollectorState, RecvOutcome,
    Scan, ScanAction, ScanError, ScanEvent,
};
use librcast::dns::Ipv4;

fn push_u16(out: &mut Vec<u8>, v: u16) {
    out.extend_from_slice(&v.to_be_bytes());
}

fn push_u32(out: &mut Vec<u8>, v: u32) {
    out.extend_from_slice(&v.to_be_bytes());
}

fn push_name(out: &mut Vec<u8>, labels: &[&str]) {
    for label in labels {
        out.push(label.len() as u8);
        out.extend_from_slice(label.as_bytes());
    }
    out.push(0);
}

/// One mDNS response the way a cast device answers: one PTR answer for the
/// well-known service name and three additional records (A, SRV, TXT).
fn response_bytes() -> Vec<u8> {
    let mut b: Vec<u8> = Vec::new();
    // header: id 0, flags: response + authoritative, 0/1/0/3 records
    push_u16(&mut b, 0);
    push_u16(&mut b, 0x8400);
    push_u16(&mut b, 0);
    push_u16(&mut b, 1);
    push_u16(&mut b, 0);
    push_u16(&mut b, 3);
    // answer: PTR IN for the service name
    push_name(&mut b, &["_googlecast", "_tcp", "local"]);
    push_u16(&mut b, 12);
    push_u16(&mut b, 1);
    push_u32(&mut b, 120);
    let mut ptr_data: Vec<u8> = Vec::new();
    push_name(&mut ptr_data, &["Salon", "_googlecast", "_tcp", "local"]);
    push_u16(&mut b, ptr_data.len() as u16);
    b.extend_from_slice(&ptr_data);
    // additional: A record carrying the identity in its owner name
    push_name(&mut b, &["bc7866b8d9b0a99263a2020cd11355f8", "local"]);
    push_u16(&mut b, 1);
    push_u16(&mut b, 1);
    push_u32(&mut b, 120);
    push_u16(&mut b, 4);
    b.extend_from_slice(&[192, 168, 1, 50]);
    // additional: SRV record carrying the control port
    push_name(&mut b, &["bc7866b8d9b0a99263a2020cd11355f8", "local"]);
    push_u16(&mut b, 33);
    push_u16(&mut b, 1);
    push_u32(&mut b, 120);
    let mut srv_data: Vec<u8> = Vec::new();
    push_u16(&mut srv_data, 0);
    push_u16(&mut srv_data, 0);
    push_u16(&mut srv_data, 8009);
    push_name(&mut srv_data, &["bc7866b8d9b0a99263a2020cd11355f8", "local"]);
    push_u16(&mut b, srv_data.len() as u16);
    b.extend_from_slice(&srv_data);
    // additional: TXT record, two character strings forming one flat run
    push_name(&mut b, &["Salon", "_googlecast", "_tcp", "local"]);
    push_u16(&mut b, 16);
    push_u16(&mut b, 1);
    push_u32(&mut b, 120);
    let chunk1 = "id=bc7866b8d9b0a99263a2020cd11355f8";
    let chunk2 = "md=Chromecast Ultraic=/setup/icon.pngfn=Salonca=4101";
    let mut txt_data: Vec<u8> = Vec::new();
    txt_data.push(chunk1.len() as u8);
    txt_data.extend_from_slice(chunk1.as_bytes());
    txt_data.push(chunk2.len() as u8);
    txt_data.extend_from_slice(chunk2.as_bytes());
    push_u16(&mut b, txt_data.len() as u16);
    b.extend_from_slice(&txt_data);
    b
}

#[test]
fn wire_response_yields_device() {
    let device = process_datagram(&response_bytes()).expect("the response names a device");
    assert_eq!(device.id, 0xbc7866b8d9b0a99263a2020cd11355f8u128);
    assert_eq!(device.name, "Salon");
    assert_eq!(device.model, "Chromecast Ultra");
    assert_eq!(device.ip, Ipv4 { a: 192, b: 168, c: 1, d: 50 });
    assert_eq!(device.port, 8009);
}

#[test]
fn garbage_datagram_yields_nothing() {
    assert!(process_datagram(&[0x42, 0x13]).is_none());
    let whole = response_bytes();
    assert!(process_datagram(&whole[..20]).is_none());
}

#[test]
fn query_is_one_ptr_question_for_the_service() {
    let q = build_query();
    let packet = dns_parser::Packet::parse(&q).expect("the query must serialize to a DNS packet");
    assert!(packet.header.query);
    assert_eq!(packet.questions.len(), 1);
    assert_eq!(
        packet.questions[0].qname.to_string(),
        "_googlecast._tcp.local"
    );
    assert_eq!(packet.questions[0].qtype, dns_parser::QueryType::PTR);
    assert_eq!(packet.questions[0].qclass, dns_parser::QueryClass::IN);
    assert_eq!(packet.answers.len(), 0);
}

#[test]
fn collector_stops_only_on_timeout() {
    let (state, emitted) = collector_step(CollectorState::Listening, &RecvOutcome::TimedOut);
    assert_eq!(state, CollectorState::Stopped);
    assert!(emitted.is_none());

    let noise = RecvOutcome::Datagram(vec![1, 2, 3]);
    let (state, emitted) = collector_step(CollectorState::Listening, &noise);
    assert_eq!(state, CollectorState::Listening);
    assert!(emitted.is_none());

    let good = RecvOutcome::Datagram(response_bytes());
    let (state, emitted) = collector_step(CollectorState::Listening, &good);
    assert_eq!(state, CollectorState::Listening);
    assert_eq!(emitted.unwrap().name, "Salon");

    let (state, emitted) = collector_step(CollectorState::Stopped, &good);
    assert_eq!(state, CollectorState::Stopped);
    assert!(emitted.is_none());
}

#[test]
fn collected_devices_keep_arrival_order() {
    let datagrams = vec![vec![0xff], response_bytes(), vec![], response_bytes()];
    let devices = collect_devices(&datagrams);
    assert_eq!(devices.len(), 2);
    assert_eq!(devices[0].name, "Salon");
    assert_eq!(devices[1].name, "Salon");

    let none: Vec<Vec<u8>> = vec![];
    assert_eq!(collect_devices(&none).len(), 0);
    let noise = vec![vec![0, 1, 2], vec![9]];
    assert_eq!(collect_devices(&noise).len(), 0);
}

#[test]
fn scan_with_no_arrivals_returns_empty_list() {
    let mut scan = Scan::new();
    assert_eq!(scan.next_action(), ScanAction::Provision);
    scan.step(ScanEvent::ProvisionOk);
    assert_eq!(scan.next_action(), ScanAction::Broadcast);
    scan.step(ScanEvent::BroadcastOk);
    assert_eq!(scan.next_action(), ScanAction::Receive);
    scan.step(ScanEvent::DrainTimedOut);
    assert_eq!(scan.next_action(), ScanAction::Finish);
    let devices = scan.result().expect("an empty scan window is not an error");
    assert!(devices.is_empty());
}

#[test]
fn scan_accumulates_devices_in_order() {
    let first = process_datagram(&response_bytes()).unwrap();
    let second = Device { port: 9000, ..first.clone() };
    let mut scan = Scan::new();
    scan.step(ScanEvent::ProvisionOk);
    scan.step(ScanEvent::BroadcastOk);
    scan.step(ScanEvent::DeviceArrived(first));
    scan.step(ScanEvent::DeviceArrived(second));
    scan.step(ScanEvent::DrainTimedOut);
    let devices = scan.result().unwrap();
    assert_eq!(devices.len(), 2);
    assert_eq!(devices[0].port, 8009);
    assert_eq!(devices[1].port, 9000);
}

#[test]
fn provisioning_failure_is_fatal_and_skips_broadcast() {
    let mut scan = Scan::new();
    scan.step(ScanEvent::ProvisionFailed(ScanError::ListnerSocketBind));
    // the engine never asks for a broadcast after a provisioning failure
    assert_eq!(scan.next_action(), ScanAction::Finish);
    assert!(matches!(scan.result(), Err(ScanError::ListnerSocketBind)));

    let mut scan = Scan::new();
    scan.step(ScanEvent::ProvisionFailed(ScanError::CannotJoinMulticast));
    assert_eq!(scan.next_action(), ScanAction::Finish);
    assert!(matches!(scan.result(), Err(ScanError::CannotJoinMulticast)));
}

#[test]
fn broadcast_failure_is_fatal() {
    let mut scan = Scan::new();
    scan.step(ScanEvent::ProvisionOk);
    scan.step(ScanEvent::BroadcastFailed);
    assert_eq!(scan.next_action(), ScanAction::Finish);
    assert!(matches!(scan.result(), Err(ScanError::Broadcast)));
}
