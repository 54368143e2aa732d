//! The watch manager: which devices have a live status session, the shared
//! re-poll sequence, the connection retry policy, and the topics and payloads
//! of the device protocol. The connection handle of a session is opaque here.
use crate::devices::{BambuDevice, BambuDeviceView};
use crate::text::{decimal_text, push_decimal};
use vstd::prelude::*;
use vstd::string::*;

verus! {

/// Port of the device's broker.
pub const MQTT_PORT: u16 = 8883;

/// Connection attempts before `watch` gives up.
pub const CONNECT_ATTEMPTS: u32 = 3;

/// Seconds between two connection attempts.
pub const RETRY_DELAY_SECS: u64 = 5;

/// Keep-alive interval of a session, in seconds.
pub const KEEP_ALIVE_SECS: u64 = 30;

/// Seconds between two re-poll rounds.
pub const REPOLL_INTERVAL_SECS: u64 = 300;

/// Why a watch operation failed.
pub enum WatchError {
    /// The device has no resolved address.
    MissingAddress,
    /// A session for the device already exists.
    AlreadyWatched,
    /// The connection client could not be made.
    ClientCreation(String),
    /// Every connection attempt failed.
    ConnectTimeout,
    /// Subscribing to the report topic failed.
    SubscribeFailed(String),
    /// Publishing the status poll failed.
    PublishFailed(String),
    /// No session exists for the device.
    NotWatched,
    /// The connection did not close cleanly; the session is gone all the same.
    DisconnectFailed(String),
}

/// What opening a session for one device needs.
pub struct WatchPlan {
    pub broker_uri: String,
    pub user_name: String,
    pub password: String,
    pub report_topic: String,
    pub request_topic: String,
    pub initial_poll: String,
}

/// What to do after a failed connection attempt.
#[derive(Debug, Clone, Copy, PartialEq, Eq, Structural)]
pub enum ConnectStep {
    /// Wait this many seconds, then try again.
    Retry { delay_secs: u64 },
    /// Stop: the attempts are used up.
    GiveUp,
}

/// A status poll to publish during a re-poll round: to the session at
/// `index` of the manager's list.
pub struct PollRequest {
    pub index: usize,
    pub topic: String,
    pub payload: String,
}

/// A watched device and its connection handle.
pub struct WatchedSession<S> {
    pub device: BambuDevice,
    pub session: S,
}

/// The manager's state as values: the watched devices in order of watching,
/// the connection handle of each (same order), whether the re-poll task runs,
/// and the next re-poll sequence number.
pub struct WatchState<S> {
    pub devices: Seq<BambuDeviceView>,
    pub sessions: Seq<S>,
    pub initialized: bool,
    pub sequence: u64,
}

pub open spec fn broker_uri(ip: Seq<char>) -> Seq<char> {
    "mqtts://"@ + ip + ":8883"@
}

pub open spec fn report_topic_of(dev_id: Seq<char>) -> Seq<char> {
    "device/"@ + dev_id + "/report"@
}

pub open spec fn request_topic_of(dev_id: Seq<char>) -> Seq<char> {
    "device/"@ + dev_id + "/request"@
}

/// The status-poll payload with sequence number `seq`.
pub open spec fn poll_payload_of(seq: nat) -> Seq<char> {
    "{\"pushing\":{\"sequence_id\":\""@ + decimal_text(seq)
        + "\",\"command\":\"pushall\",\"version\":1,\"push_target\":1}}"@
}

/// The step after `attempts` failed attempts.
pub open spec fn connect_step_after(attempts: u32) -> ConnectStep {
    if attempts < CONNECT_ATTEMPTS {
        ConnectStep::Retry { delay_secs: RETRY_DELAY_SECS }
    } else {
        ConnectStep::GiveUp
    }
}

/// Some watched device has the id `id`.
pub open spec fn has_device(devs: Seq<BambuDeviceView>, id: Seq<char>) -> bool {
    exists|i: int| 0 <= i < devs.len() && (#[trigger] devs[i]).dev_id == id
}

/// Number of watched devices with the id `id`.
pub open spec fn count_id(devs: Seq<BambuDeviceView>, id: Seq<char>) -> nat
    decreases devs.len(),
{
    if devs.len() == 0 {
        0
    } else {
        count_id(devs.drop_last(), id) + if devs.last().dev_id == id {
            1nat
        } else {
            0nat
        }
    }
}

/// Ids are unique, every watched device has an address, and each has one
/// connection handle.
pub open spec fn watch_state_wf<S>(s: WatchState<S>) -> bool {
    &&& s.sessions.len() == s.devices.len()
    &&& forall|i: int, j: int|
        0 <= i < j < s.devices.len() ==> (#[trigger] s.devices[i]).dev_id != (
        #[trigger] s.devices[j]).dev_id
    &&& forall|i: int| 0 <= i < s.devices.len() ==> (#[trigger] s.devices[i]).ip is Some
}

pub open spec fn session_views<S>(v: Seq<WatchedSession<S>>) -> Seq<BambuDeviceView> {
    v.map_values(|w: WatchedSession<S>| w.device@)
}

pub open spec fn handle_views<S>(v: Seq<WatchedSession<S>>) -> Seq<S> {
    v.map_values(|w: WatchedSession<S>| w.session)
}

/// The topic that a device publishes its status on.
pub fn report_topic(dev_id: &str) -> (r: String)
    ensures
        r@ == report_topic_of(dev_id@),
{
    String::from_str("device/").concat(dev_id).concat("/report")
}

/// The topic that takes status polls for a device.
pub fn request_topic(dev_id: &str) -> (r: String)
    ensures
        r@ == request_topic_of(dev_id@),
{
    String::from_str("device/").concat(dev_id).concat("/request")
}

/// The status-poll payload with sequence number `seq`.
pub fn poll_payload(seq: u64) -> (r: String)
    ensures
        r@ == poll_payload_of(seq as nat),
{
    let mut r = String::from_str("{\"pushing\":{\"sequence_id\":\"");
    push_decimal(&mut r, seq);
    r.append("\",\"command\":\"pushall\",\"version\":1,\"push_target\":1}}");
    r
}

/// What to do after `attempts` failed connection attempts: wait and retry
/// until `CONNECT_ATTEMPTS` have failed, then give up.
pub fn connect_step(attempts: u32) -> (r: ConnectStep)
    ensures
        r == connect_step_after(attempts),
{
    if attempts < CONNECT_ATTEMPTS {
        ConnectStep::Retry { delay_secs: RETRY_DELAY_SECS }
    } else {
        ConnectStep::GiveUp
    }
}

/// Manages the status sessions of watched devices; `S` is the connection
/// handle of one session.
pub struct BambuMQTTClient<S> {
    watched_devices: Vec<WatchedSession<S>>,
    is_initialized: bool,
    sequence: u64,
}

impl<S> View for BambuMQTTClient<S> {
    type V = WatchState<S>;

    closed spec fn view(&self) -> WatchState<S> {
        WatchState {
            devices: session_views(self.watched_devices@),
            sessions: handle_views(self.watched_devices@),
            initialized: self.is_initialized,
            sequence: self.sequence,
        }
    }
}

impl<S> BambuMQTTClient<S> {
    /// A manager with no sessions and no re-poll task; the first re-poll
    /// round uses sequence number 1, as 0 is the poll sent on watching.
    pub fn new() -> (r: BambuMQTTClient<S>)
        ensures
            r@.devices == Seq::<BambuDeviceView>::empty(),
            r@.sessions == Seq::<S>::empty(),
            !r@.initialized,
            r@.sequence == 1,
            watch_state_wf(r@),
    {
        let r = BambuMQTTClient { watched_devices: Vec::new(), is_initialized: false, sequence: 1 };
        assert(session_views(r.watched_devices@) =~= Seq::<BambuDeviceView>::empty());
        assert(handle_views(r.watched_devices@) =~= Seq::<S>::empty());
        r
    }

    pub fn is_initialized(&self) -> (r: bool)
        ensures
            r == self@.initialized,
    {
        self.is_initialized
    }

    pub fn watched_count(&self) -> (r: usize)
        ensures
            r == self@.devices.len(),
    {
        self.watched_devices.len()
    }

    /// The connection handle of the session at `index`.
    pub fn session_at(&self, index: usize) -> (r: &S)
        requires
            index < self@.devices.len(),
        ensures
            *r == self@.sessions[index as int],
    {
        &self.watched_devices[index].session
    }

    /// Index of the session for `dev_id`, or the number of sessions.
    fn index_of(&self, dev_id: &String) -> (r: usize)
        ensures
            r <= self@.devices.len(),
            r < self@.devices.len() ==> self@.devices[r as int].dev_id == dev_id@,
            r == self@.devices.len() <==> !has_device(self@.devices, dev_id@),
    {
        let ghost devs = self@.devices;
        let mut i: usize = 0;
        while i < self.watched_devices.len()
            invariant
                i <= self.watched_devices@.len(),
                devs == session_views(self.watched_devices@),
                forall|j: int| 0 <= j < i ==> (#[trigger] devs[j]).dev_id != dev_id@,
            decreases self.watched_devices@.len() - i,
        {
            assert(devs[i as int] == self.watched_devices@[i as int].device@);
            if self.watched_devices[i].device.dev_id == *dev_id {
                return i;
            }
            i = i + 1;
        }
        i
    }

    /// Whether a session exists for `dev_id`.
    pub fn is_watched(&self, dev_id: &String) -> (r: bool)
        ensures
            r == has_device(self@.devices, dev_id@),
    {
        self.index_of(dev_id) < self.watched_devices.len()
    }

    /// Marks the manager initialized. Returns whether the re-poll task is to
    /// be started now: true only when it was not initialized before.
    pub fn initialize(&mut self) -> (r: bool)
        ensures
            r == !old(self)@.initialized,
            final(self)@ == (WatchState { initialized: true, ..old(self)@ }),
    {
        if self.is_initialized {
            return false;
        }
        self.is_initialized = true;
        true
    }

    /// The status polls of one re-poll round, one for each watched device in
    /// order, all with the current sequence number; the number then advances.
    pub fn poll_round(&mut self) -> (r: Vec<PollRequest>)
        ensures
            r@.len() == old(self)@.devices.len(),
            forall|i: int|
                0 <= i < r@.len() ==> (#[trigger] r@[i]).index == i && r@[i].topic@
                    == request_topic_of(old(self)@.devices[i].dev_id) && r@[i].payload@
                    == poll_payload_of(old(self)@.sequence as nat),
            final(self)@.devices == old(self)@.devices,
            final(self)@.sessions == old(self)@.sessions,
            final(self)@.initialized == old(self)@.initialized,
            final(self)@.sequence == if old(self)@.sequence < u64::MAX {
                (old(self)@.sequence + 1) as u64
            } else {
                old(self)@.sequence
            },
    {
        let ghost devs = self@.devices;
        let mut r: Vec<PollRequest> = Vec::new();
        let mut i: usize = 0;
        while i < self.watched_devices.len()
            invariant
                i <= self.watched_devices@.len(),
                devs == session_views(self.watched_devices@),
                r@.len() == i,
                forall|j: int|
                    0 <= j < i ==> (#[trigger] r@[j]).index == j && r@[j].topic@
                        == request_topic_of(devs[j].dev_id) && r@[j].payload@ == poll_payload_of(
                        self.sequence as nat,
                    ),
            decreases self.watched_devices@.len() - i,
        {
            assert(devs[i as int] == self.watched_devices@[i as int].device@);
            let topic = request_topic(self.watched_devices[i].device.dev_id.as_str());
            let payload = poll_payload(self.sequence);
            r.push(PollRequest { index: i, topic, payload });
            i = i + 1;
        }
        if self.sequence < u64::MAX {
            self.sequence = self.sequence + 1;
        }
        r
    }

    /// Checks that `device` can be watched and says how to open its session.
    /// Fails without any other effect when the device has no address, or
    /// already has a session.
    pub fn begin_watch(&self, device: &BambuDevice) -> (r: Result<WatchPlan, WatchError>)
        ensures
            match r {
                Ok(p) => {
                    &&& device@.ip is Some
                    &&& !has_device(self@.devices, device@.dev_id)
                    &&& p.broker_uri@ == broker_uri(device@.ip->0)
                    &&& p.user_name@ == "bblp"@
                    &&& p.password@ == device@.dev_access_code
                    &&& p.report_topic@ == report_topic_of(device@.dev_id)
                    &&& p.request_topic@ == request_topic_of(device@.dev_id)
                    &&& p.initial_poll@ == poll_payload_of(0)
                },
                Err(WatchError::MissingAddress) => device@.ip is None,
                Err(WatchError::AlreadyWatched) => device@.ip is Some && has_device(
                    self@.devices,
                    device@.dev_id,
                ),
                Err(_) => false,
            },
    {
        let ip = match &device.ip {
            Some(ip) => ip,
            None => {
                return Err(WatchError::MissingAddress);
            },
        };
        if self.is_watched(&device.dev_id) {
            return Err(WatchError::AlreadyWatched);
        }
        let broker = String::from_str("mqtts://").concat(ip.as_str()).concat(":8883");
        Ok(
            WatchPlan {
                broker_uri: broker,
                user_name: String::from_str("bblp"),
                password: device.dev_access_code.clone(),
                report_topic: report_topic(device.dev_id.as_str()),
                request_topic: request_topic(device.dev_id.as_str()),
                initial_poll: poll_payload(0),
            },
        )
    }

    /// Records the session of a device whose connection is open. Refused, and
    /// the handle given back, when the device has no address or already has a
    /// session; the state is then unchanged.
    pub fn register(&mut self, device: BambuDevice, session: S) -> (r: Result<(), (WatchError, S)>)
        requires
            watch_state_wf(old(self)@),
        ensures
            watch_state_wf(final(self)@),
            final(self)@.initialized == old(self)@.initialized,
            final(self)@.sequence == old(self)@.sequence,
            match r {
                Ok(()) => {
                    &&& device@.ip is Some
                    &&& !has_device(old(self)@.devices, device@.dev_id)
                    &&& final(self)@.devices == old(self)@.devices.push(device@)
                    &&& final(self)@.sessions == old(self)@.sessions.push(session)
                    &&& count_id(final(self)@.devices, device@.dev_id) == 1
                },
                Err((WatchError::MissingAddress, s)) => s == session && device@.ip is None
                    && final(self)@ == old(self)@,
                Err((WatchError::AlreadyWatched, s)) => s == session && device@.ip is Some && has_device(
                    old(self)@.devices,
                    device@.dev_id,
                ) && final(self)@ == old(self)@,
                Err(_) => false,
            },
    {
        if device.ip.is_none() {
            return Err((WatchError::MissingAddress, session));
        }
        if self.is_watched(&device.dev_id) {
            return Err((WatchError::AlreadyWatched, session));
        }
        let ghost before = self@.devices;
        let ghost before_s = self@.sessions;
        let ghost d = device@;
        let ghost h = session;
        self.watched_devices.push(WatchedSession { device, session });
        assert(self@.devices =~= before.push(d));
        assert(self@.sessions =~= before_s.push(h));
        proof {
            lemma_count_absent(before, d.dev_id);
            assert(self@.devices.drop_last() =~= before);
        }
        Ok(())
    }

    /// Removes the session of `device` (found by id) and hands it back to be
    /// closed. Fails, changing nothing, when no session exists for it.
    pub fn unwatch_device(&mut self, device: &BambuDevice) -> (r: Result<
        WatchedSession<S>,
        WatchError,
    >)
        requires
            watch_state_wf(old(self)@),
        ensures
            watch_state_wf(final(self)@),
            final(self)@.initialized == old(self)@.initialized,
            final(self)@.sequence == old(self)@.sequence,
            match r {
                Ok(w) => {
                    &&& has_device(old(self)@.devices, device@.dev_id)
                    &&& w.device@.dev_id == device@.dev_id
                    &&& exists|i: int|
                        0 <= i < old(self)@.devices.len() && old(self)@.devices[i] == w.device@
                            && old(self)@.sessions[i] == w.session && final(self)@.devices == old(
                            self,
                        )@.devices.remove(i) && final(self)@.sessions == old(self)@.sessions.remove(
                            i,
                        )
                    &&& count_id(final(self)@.devices, device@.dev_id) == 0
                },
                Err(WatchError::NotWatched) => !has_device(old(self)@.devices, device@.dev_id)
                    && final(self)@ == old(self)@,
                Err(_) => false,
            },
    {
        let i = self.index_of(&device.dev_id);
        if i == self.watched_devices.len() {
            return Err(WatchError::NotWatched);
        }
        let ghost before = self@.devices;
        let ghost before_s = self@.sessions;
        let ghost id = device@.dev_id;
        let w = self.watched_devices.remove(i);
        assert(before[i as int] == w.device@);
        assert(before_s[i as int] == w.session);
        assert(self@.devices =~= before.remove(i as int));
        assert(self@.sessions =~= before_s.remove(i as int));
        proof {
            let after = before.remove(i as int);
            assert forall|j: int| 0 <= j < after.len() implies (#[trigger] after[j]).dev_id
                != id by {
                if j < i {
                    assert(after[j] == before[j]);
                } else {
                    assert(after[j] == before[j + 1]);
                }
            }
            lemma_count_absent(after, id);
        }
        Ok(w)
    }

    /// Removes every session and hands them back in order, to be closed.
    pub fn unwatch_all_devices(&mut self) -> (r: Vec<WatchedSession<S>>)
        ensures
            session_views(r@) == old(self)@.devices,
            handle_views(r@) == old(self)@.sessions,
            final(self)@ == (WatchState {
                devices: Seq::empty(),
                sessions: Seq::empty(),
                ..old(self)@
            }),
            watch_state_wf(final(self)@),
    {
        let mut all: Vec<WatchedSession<S>> = Vec::new();
        std::mem::swap(&mut all, &mut self.watched_devices);
        assert(session_views(self.watched_devices@) =~= Seq::<BambuDeviceView>::empty());
        assert(handle_views(self.watched_devices@) =~= Seq::<S>::empty());
        all
    }

    /// Stops the manager: when it was initialized, every session is removed
    /// and handed back to be closed, and it is marked uninitialized; when it
    /// was not, nothing changes and `None` comes back.
    pub fn deinitialize(&mut self) -> (r: Option<Vec<WatchedSession<S>>>)
        ensures
            match r {
                Some(v) => old(self)@.initialized && session_views(v@) == old(self)@.devices
                    && handle_views(v@) == old(self)@.sessions && final(self)@ == (WatchState {
                    devices: Seq::empty(),
                    sessions: Seq::empty(),
                    initialized: false,
                    ..old(self)@
                }),
                None => !old(self)@.initialized && final(self)@ == old(self)@,
            },
            watch_state_wf(old(self)@) ==> watch_state_wf(final(self)@),
    {
        if !self.is_initialized {
            return None;
        }
        let all = self.unwatch_all_devices();
        self.is_initialized = false;
        Some(all)
    }
}

/// A sequence without `id` counts it zero times.
pub proof fn lemma_count_absent(devs: Seq<BambuDeviceView>, id: Seq<char>)
    requires
        forall|i: int| 0 <= i < devs.len() ==> (#[trigger] devs[i]).dev_id != id,
    ensures
        count_id(devs, id) == 0,
    decreases devs.len(),
{
    if devs.len() > 0 {
        let p = devs.drop_last();
        assert forall|i: int| 0 <= i < p.len() implies (#[trigger] p[i]).dev_id != id by {
            assert(p[i] == devs[i]);
        }
        lemma_count_absent(p, id);
    }
}

impl WatchError {
    /// A human-readable account of the failure.
    pub fn message(&self) -> (r: String)
        ensures
            match self {
                WatchError::MissingAddress => r@ == "Expected the device to have an IP address, but none was found."@,
                WatchError::AlreadyWatched => r@ == "The device is already being watched."@,
                WatchError::ClientCreation(m) => r@ == "Failed to create MQTT client: "@ + m@,
                WatchError::ConnectTimeout => r@ == "Failed to connect to MQTT broker after 3 attempts"@,
                WatchError::SubscribeFailed(m) => r@ == "Failed to subscribe to status topic: "@ + m@,
                WatchError::PublishFailed(m) => r@ == "Failed to publish to status topic: "@ + m@,
                WatchError::NotWatched => r@ == "Expected to find the device in the watched devices, but none was found."@,
                WatchError::DisconnectFailed(m) => r@ == "Failed to disconnect from MQTT broker: "@ + m@,
            },
    {
        match self {
            WatchError::MissingAddress => String::from_str(
                "Expected the device to have an IP address, but none was found.",
            ),
            WatchError::AlreadyWatched => String::from_str("The device is already being watched."),
            WatchError::ClientCreation(m) => String::from_str(
                "Failed to create MQTT client: ",
            ).concat(m.as_str()),
            WatchError::ConnectTimeout => String::from_str(
                "Failed to connect to MQTT broker after 3 attempts",
            ),
            WatchError::SubscribeFailed(m) => String::from_str(
                "Failed to subscribe to status topic: ",
            ).concat(m.as_str()),
            WatchError::PublishFailed(m) => String::from_str(
                "Failed to publish to status topic: ",
            ).concat(m.as_str()),
            WatchError::NotWatched => String::from_str(
                "Expected to find the device in the watched devices, but none was found.",
            ),
            WatchError::DisconnectFailed(m) => String::from_str(
                "Failed to disconnect from MQTT broker: ",
            ).concat(m.as_str()),
        }
    }
}

/// In every well-formed state each device id has at most one session, and
/// exactly one when some session has it.
pub proof fn lemma_one_session_per_device<S>(s: WatchState<S>, id: Seq<char>)
    requires
        watch_state_wf(s),
    ensures
        count_id(s.devices, id) <= 1,
        count_id(s.devices, id) == 1 <==> has_device(s.devices, id),
{
    lemma_count_unique(s.devices, id);
}

proof fn lemma_count_unique(devs: Seq<BambuDeviceView>, id: Seq<char>)
    requires
        forall|i: int, j: int|
            0 <= i < j < devs.len() ==> (#[trigger] devs[i]).dev_id != (#[trigger] devs[j]).dev_id,
    ensures
        count_id(devs, id) <= 1,
        count_id(devs, id) == 1 <==> has_device(devs, id),
    decreases devs.len(),
{
    if devs.len() > 0 {
        let p = devs.drop_last();
        assert forall|i: int, j: int| 0 <= i < j < p.len() implies (#[trigger] p[i]).dev_id != (
        #[trigger] p[j]).dev_id by {
            assert(p[i] == devs[i] && p[j] == devs[j]);
        }
        lemma_count_unique(p, id);
        if devs.last().dev_id == id {
            assert forall|i: int| 0 <= i < p.len() implies (#[trigger] p[i]).dev_id != id by {
                assert(p[i] == devs[i]);
                assert(devs[i].dev_id != devs[devs.len() - 1].dev_id);
            }
            lemma_count_absent(p, id);
            assert(devs[devs.len() - 1].dev_id == id);
        } else {
            if has_device(devs, id) {
                let w = choose|w: int| 0 <= w < devs.len() && (#[trigger] devs[w]).dev_id == id;
                assert(w < p.len());
                assert(p[w] == devs[w]);
            }
            if has_device(p, id) {
                let w = choose|w: int| 0 <= w < p.len() && (#[trigger] p[w]).dev_id == id;
                assert(devs[w] == p[w]);
            }
        }
    }
}

} // verus!
