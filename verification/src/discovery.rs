//! The discovery engine: the decision core of the broadcast/listen/collect
//! protocol.
//!
//! The surrounding runtime owns the sockets, the collector thread and the
//! handoff channel; everything it must decide is decided here. `Scan` is
//! the orchestrator: it walks the phases provision, broadcast, collect, and
//! a fatal infrastructure failure ends the scan at once with that error.
//! `collector_step` is one turn of the collector loop: a datagram may yield
//! a device, the receive timeout stops the loop. The runtime asks
//! `next_action` what to do, performs the action, and reports the outcome
//! through `step`.

use crate::device::{extract_spec, Device, DeviceModel};
use crate::dns::{
    build_ptr_query, parsed_of, query_wire_of, service_name, spec_service_name, Ipv4,
};
use vstd::prelude::*;

verus! {

/// Why a scan fails as a whole, or why one received packet is set aside.
#[derive(Debug, PartialEq, Eq, Structural, Clone, Copy)]
pub enum ScanError {
    /// The listener socket could not be bound to the multicast port.
    ListnerSocketBind,
    /// The listener socket could not join the multicast group.
    CannotJoinMulticast,
    /// The client socket could not be bound to a free local port.
    ClientSocketBind,
    /// The client socket could not be connected to the multicast group.
    ClientSocketConnect,
    /// The query could not be sent.
    Broadcast,
    /// The receive timeout could not be configured.
    SetTimeout,
    /// A receive ran into the configured timeout.
    Timeout,
    /// A datagram did not parse as a DNS response.
    MalformedResponse,
    /// A response did not describe a cast device.
    NotChromecast,
}

/// The device one datagram names: the bytes must parse as a DNS packet and
/// the extractor must accept the response. Anything else is background
/// noise and yields nothing.
pub open spec fn device_of_datagram(bytes: Seq<u8>) -> Option<DeviceModel> {
    match parsed_of(bytes) {
        None => None,
        Some(r) => match extract_spec(r) {
            Ok(d) => Some(d),
            Err(_) => None,
        },
    }
}

/// Parses one datagram and runs the extractor over it; `None` for noise.
pub fn process_datagram(buf: &[u8]) -> (r: Option<Device>)
    ensures
        r is Some <==> device_of_datagram(buf@) is Some,
        r matches Some(d) ==> device_of_datagram(buf@) == Some(d@),
{
    match crate::dns::parse_response(buf) {
        None => None,
        Some(resp) => match Device::from_dns(&resp) {
            Ok(d) => Some(d),
            Err(_) => None,
        },
    }
}

/// The two states of the response collector.
#[derive(Debug, PartialEq, Eq, Structural, Clone, Copy)]
pub enum CollectorState {
    /// Waiting for the next datagram.
    Listening,
    /// The receive timeout fired; the collector is done.
    Stopped,
}

/// What one blocking receive yields: a datagram, or the receive timeout.
pub enum RecvOutcome {
    Datagram(Vec<u8>),
    TimedOut,
}

/// One turn of the collector loop. While listening, a datagram may yield a
/// device and listening continues — a malformed or irrelevant packet never
/// stops the collector; the receive timeout is the sole path to `Stopped`.
/// A stopped collector stays stopped and emits nothing.
pub fn collector_step(state: CollectorState, outcome: &RecvOutcome) -> (r: (
    CollectorState,
    Option<Device>,
))
    ensures
        state == CollectorState::Stopped ==> r.0 == CollectorState::Stopped && r.1 is None,
        state == CollectorState::Listening ==> match outcome {
            RecvOutcome::TimedOut => r.0 == CollectorState::Stopped && r.1 is None,
            RecvOutcome::Datagram(b) => r.0 == CollectorState::Listening && (match r.1 {
                Some(d) => device_of_datagram(b@) == Some(d@),
                None => device_of_datagram(b@) is None,
            }),
        },
{
    match state {
        CollectorState::Stopped => (CollectorState::Stopped, None),
        CollectorState::Listening => match outcome {
            RecvOutcome::TimedOut => (CollectorState::Stopped, None),
            RecvOutcome::Datagram(b) => (
                CollectorState::Listening,
                process_datagram(b.as_slice()),
            ),
        },
    }
}

/// The devices a run of datagrams yields, in arrival order.
pub open spec fn devices_of(datagrams: Seq<Seq<u8>>) -> Seq<DeviceModel>
    decreases datagrams.len(),
{
    if datagrams.len() == 0 {
        Seq::empty()
    } else {
        let rest = devices_of(datagrams.drop_first());
        match device_of_datagram(datagrams.first()) {
            Some(d) => seq![d] + rest,
            None => rest,
        }
    }
}

/// Datagrams that never name a device — noise, or none at all — yield the
/// empty device list: a quiet scan window is not an error.
pub proof fn lemma_noise_yields_no_devices(datagrams: Seq<Seq<u8>>)
    requires
        forall|k: int| 0 <= k < datagrams.len() ==> device_of_datagram(#[trigger] datagrams[k]) is None,
    ensures
        devices_of(datagrams) == Seq::<DeviceModel>::empty(),
    decreases datagrams.len(),
{
    if datagrams.len() > 0 {
        assert(datagrams.first() == datagrams[0]);
        assert(forall|k: int|
            0 <= k < datagrams.drop_first().len() ==> datagrams.drop_first()[k] == datagrams[k
                + 1]);
        lemma_noise_yields_no_devices(datagrams.drop_first());
    }
}

/// Runs the extractor over every datagram received within the scan window,
/// keeping the devices in arrival order.
pub fn collect_devices(datagrams: &Vec<Vec<u8>>) -> (r: Vec<Device>)
    ensures
        r@.map_values(|d: Device| d@) == devices_of(datagrams@.map_values(|b: Vec<u8>| b@)),
{
    let ghost all = datagrams@.map_values(|b: Vec<u8>| b@);
    let mut devices: Vec<Device> = Vec::new();
    let n = datagrams.len();
    let mut i: usize = 0;
    proof {
        assert(all.skip(0) =~= all);
        assert(devices@.map_values(|d: Device| d@) + devices_of(all.skip(0)) =~= devices_of(all));
    }
    while i < n
        invariant
            n == datagrams.len(),
            0 <= i <= n,
            all == datagrams@.map_values(|b: Vec<u8>| b@),
            all.len() == n,
            devices@.map_values(|d: Device| d@) + devices_of(all.skip(i as int)) == devices_of(
                all,
            ),
        decreases n - i,
    {
        proof {
            assert(all.skip(i as int).first() == all[i as int]);
            assert(all[i as int] == datagrams@[i as int]@);
            assert(all.skip(i as int).drop_first() =~= all.skip(i as int + 1));
        }
        match process_datagram(datagrams[i].as_slice()) {
            Some(d) => {
                devices.push(d);
                proof {
                    assert(devices@.map_values(|d: Device| d@) + devices_of(
                        all.skip(i as int + 1),
                    ) =~= devices_of(all));
                }
            },
            None => {},
        }
        i += 1;
    }
    proof {
        assert(all.skip(n as int) =~= Seq::<Seq<u8>>::empty());
        assert(devices@.map_values(|d: Device| d@) =~= devices_of(all));
    }
    devices
}

/// Where the scan stands.
#[derive(Debug, PartialEq, Eq, Structural, Clone, Copy)]
pub enum ScanPhase {
    /// The sockets are not set up yet.
    Provisioning,
    /// The sockets are ready; the query has not been sent.
    Broadcasting,
    /// The query is out; devices are being drained from the channel.
    Collecting,
    /// The scan is over, successfully or not.
    Finished,
}

/// What the surrounding runtime must do next.
#[derive(Debug, PartialEq, Eq, Structural, Clone, Copy)]
pub enum ScanAction {
    /// Open and configure the two sockets.
    Provision,
    /// Send the query packet once.
    Broadcast,
    /// Wait for the next device from the handoff channel.
    Receive,
    /// The scan is over: take the result.
    Finish,
}

/// What the runtime reports back after performing an action.
pub enum ScanEvent {
    /// Both sockets were provisioned and configured.
    ProvisionOk,
    /// Provisioning failed for the given fatal reason.
    ProvisionFailed(ScanError),
    /// The query was sent.
    BroadcastOk,
    /// The query could not be sent.
    BroadcastFailed,
    /// The collector handed one device over the channel.
    DeviceArrived(Device),
    /// The channel reported closed-or-timeout: the window is over.
    DrainTimedOut,
}

/// The mathematical shape of an event.
pub enum EventModel {
    ProvisionOk,
    ProvisionFailed(ScanError),
    BroadcastOk,
    BroadcastFailed,
    DeviceArrived(DeviceModel),
    DrainTimedOut,
}

impl View for ScanEvent {
    type V = EventModel;

    open spec fn view(&self) -> EventModel {
        match self {
            ScanEvent::ProvisionOk => EventModel::ProvisionOk,
            ScanEvent::ProvisionFailed(e) => EventModel::ProvisionFailed(*e),
            ScanEvent::BroadcastOk => EventModel::BroadcastOk,
            ScanEvent::BroadcastFailed => EventModel::BroadcastFailed,
            ScanEvent::DeviceArrived(d) => EventModel::DeviceArrived(d@),
            ScanEvent::DrainTimedOut => EventModel::DrainTimedOut,
        }
    }
}

/// The mathematical shape of the engine.
#[verifier::ext_equal]
pub struct ScanModel {
    pub phase: ScanPhase,
    pub devices: Seq<DeviceModel>,
    pub failure: Option<ScanError>,
}

/// A scan that has not started: provisioning comes first.
pub open spec fn init_spec() -> ScanModel {
    ScanModel { phase: ScanPhase::Provisioning, devices: Seq::empty(), failure: None }
}

/// What the runtime must do in each phase.
pub open spec fn action_for(phase: ScanPhase) -> ScanAction {
    match phase {
        ScanPhase::Provisioning => ScanAction::Provision,
        ScanPhase::Broadcasting => ScanAction::Broadcast,
        ScanPhase::Collecting => ScanAction::Receive,
        ScanPhase::Finished => ScanAction::Finish,
    }
}

/// How one event moves the engine on. A fatal provisioning or broadcast
/// failure finishes the scan with that error; a device arriving while
/// collecting is accumulated; the drain timeout finishes the scan
/// successfully. An event out of protocol changes nothing, and a finished
/// scan stays finished.
pub open spec fn step_spec(m: ScanModel, e: EventModel) -> ScanModel {
    match m.phase {
        ScanPhase::Provisioning => match e {
            EventModel::ProvisionOk => ScanModel { phase: ScanPhase::Broadcasting, ..m },
            EventModel::ProvisionFailed(err) => ScanModel {
                phase: ScanPhase::Finished,
                failure: Some(err),
                ..m
            },
            _ => m,
        },
        ScanPhase::Broadcasting => match e {
            EventModel::BroadcastOk => ScanModel { phase: ScanPhase::Collecting, ..m },
            EventModel::BroadcastFailed => ScanModel {
                phase: ScanPhase::Finished,
                failure: Some(ScanError::Broadcast),
                ..m
            },
            _ => m,
        },
        ScanPhase::Collecting => match e {
            EventModel::DeviceArrived(d) => ScanModel { devices: m.devices.push(d), ..m },
            EventModel::DrainTimedOut => ScanModel { phase: ScanPhase::Finished, ..m },
            _ => m,
        },
        ScanPhase::Finished => m,
    }
}

/// The engine after a whole run of events.
pub open spec fn run_spec(m: ScanModel, evs: Seq<EventModel>) -> ScanModel
    decreases evs.len(),
{
    if evs.len() == 0 {
        m
    } else {
        run_spec(step_spec(m, evs.first()), evs.drop_first())
    }
}

/// A finished scan stays as it is, whatever else is reported.
pub proof fn lemma_finished_is_absorbing(m: ScanModel, evs: Seq<EventModel>)
    requires
        m.phase == ScanPhase::Finished,
    ensures
        run_spec(m, evs) == m,
    decreases evs.len(),
{
    if evs.len() > 0 {
        lemma_finished_is_absorbing(step_spec(m, evs.first()), evs.drop_first());
    }
}

/// A scan whose provisioning fails returns that fatal error, accumulates
/// no device, and never reaches the broadcast phase: after the failure the
/// engine only ever asks the runtime to finish.
pub proof fn lemma_provision_failure_is_fatal(evs: Seq<EventModel>, err: ScanError)
    requires
        evs.len() > 0,
        evs.first() == EventModel::ProvisionFailed(err),
    ensures
        run_spec(init_spec(), evs).phase == ScanPhase::Finished,
        run_spec(init_spec(), evs).failure == Some(err),
        run_spec(init_spec(), evs).devices == Seq::<DeviceModel>::empty(),
        forall|k: int|
            1 <= k <= evs.len() ==> action_for(
                #[trigger] run_spec(init_spec(), evs.take(k)).phase,
            ) == ScanAction::Finish,
{
    let failed = step_spec(init_spec(), evs.first());
    lemma_finished_is_absorbing(failed, evs.drop_first());
    assert forall|k: int| 1 <= k <= evs.len() implies action_for(
        #[trigger] run_spec(init_spec(), evs.take(k)).phase,
    ) == ScanAction::Finish by {
        let prefix = evs.take(k);
        assert(prefix.first() == evs.first());
        lemma_finished_is_absorbing(failed, prefix.drop_first());
    }
}

/// A run in which no device ever arrives ends with the empty device list,
/// whatever else happens: a scan that hears nothing returns nothing.
pub proof fn lemma_no_arrivals_no_devices(m: ScanModel, evs: Seq<EventModel>)
    requires
        forall|k: int|
            0 <= k < evs.len() ==> !(#[trigger] evs[k] matches EventModel::DeviceArrived(_)),
        m.devices == Seq::<DeviceModel>::empty(),
    ensures
        run_spec(m, evs).devices == Seq::<DeviceModel>::empty(),
    decreases evs.len(),
{
    if evs.len() > 0 {
        assert(evs.first() == evs[0]);
        assert(forall|k: int|
            0 <= k < evs.drop_first().len() ==> evs.drop_first()[k] == evs[k + 1]);
        lemma_no_arrivals_no_devices(step_spec(m, evs.first()), evs.drop_first());
    }
}

/// The orchestrator of one bounded scan.
pub struct Scan {
    phase: ScanPhase,
    devices: Vec<Device>,
    failure: Option<ScanError>,
}

impl View for Scan {
    type V = ScanModel;

    closed spec fn view(&self) -> ScanModel {
        ScanModel {
            phase: self.phase,
            devices: self.devices@.map_values(|d: Device| d@),
            failure: self.failure,
        }
    }
}

impl Scan {
    /// A scan that has not started.
    pub fn new() -> (r: Scan)
        ensures
            r@ == init_spec(),
    {
        let s = Scan { phase: ScanPhase::Provisioning, devices: Vec::new(), failure: None };
        proof {
            assert(s@ =~= init_spec());
        }
        s
    }

    /// What the runtime must do next.
    pub fn next_action(&self) -> (r: ScanAction)
        ensures
            r == action_for(self@.phase),
    {
        match self.phase {
            ScanPhase::Provisioning => ScanAction::Provision,
            ScanPhase::Broadcasting => ScanAction::Broadcast,
            ScanPhase::Collecting => ScanAction::Receive,
            ScanPhase::Finished => ScanAction::Finish,
        }
    }

    /// Report the outcome of the action just performed.
    pub fn step(&mut self, event: ScanEvent)
        ensures
            final(self)@ == step_spec(old(self)@, event@),
    {
        let ghost pre = self@;
        let ghost ev = event@;
        match self.phase {
            ScanPhase::Provisioning => match event {
                ScanEvent::ProvisionOk => {
                    self.phase = ScanPhase::Broadcasting;
                },
                ScanEvent::ProvisionFailed(e) => {
                    self.phase = ScanPhase::Finished;
                    self.failure = Some(e);
                },
                _ => {},
            },
            ScanPhase::Broadcasting => match event {
                ScanEvent::BroadcastOk => {
                    self.phase = ScanPhase::Collecting;
                },
                ScanEvent::BroadcastFailed => {
                    self.phase = ScanPhase::Finished;
                    self.failure = Some(ScanError::Broadcast);
                },
                _ => {},
            },
            ScanPhase::Collecting => match event {
                ScanEvent::DeviceArrived(d) => {
                    self.devices.push(d);
                },
                ScanEvent::DrainTimedOut => {
                    self.phase = ScanPhase::Finished;
                },
                _ => {},
            },
            ScanPhase::Finished => {},
        }
        proof {
            assert(self@ =~= step_spec(pre, ev));
        }
    }

    /// The scan's outcome: the fatal error, or the devices in arrival
    /// order — possibly none, which is a valid result.
    pub fn result(self) -> (r: Result<Vec<Device>, ScanError>)
        requires
            self@.phase == ScanPhase::Finished,
        ensures
            self@.failure matches Some(e) ==> r == Err::<Vec<Device>, ScanError>(e),
            self@.failure is None ==> (r matches Ok(ds) && ds@.map_values(|d: Device| d@)
                == self@.devices),
    {
        match self.failure {
            Some(e) => Err(e),
            None => Ok(self.devices),
        }
    }
}

/// The single DNS-SD query the broadcaster sends: one PTR/IN question for
/// the well-known service name, with packet id 0.
pub fn build_query() -> (r: Vec<u8>)
    ensures
        r@ == query_wire_of(spec_service_name()),
{
    let name = service_name();
    proof {
        reveal_strlit("_googlecast._tcp.local");
    }
    build_ptr_query(name)
}

/// The standard mDNS multicast group address.
pub fn multicast_addr() -> (r: Ipv4)
    ensures
        r == (Ipv4 { a: 224, b: 0, c: 0, d: 251 }),
{
    Ipv4 { a: 224, b: 0, c: 0, d: 251 }
}

/// The standard mDNS port.
pub fn multicast_port() -> (r: u16)
    ensures
        r == 5353u16,
{
    5353
}

/// The wildcard local address: bind on all interfaces.
pub fn wildcard_addr() -> (r: Ipv4)
    ensures
        r == (Ipv4 { a: 0, b: 0, c: 0, d: 0 }),
{
    Ipv4 { a: 0, b: 0, c: 0, d: 0 }
}

/// The default scan window, in milliseconds.
pub fn default_scan_millis() -> (r: u64)
    ensures
        r == 350u64,
{
    350
}

} // verus!
