//! What the daemon knows and tells: the devices, the state of the cast and how
//! the last one ended, and the rules of starting a cast and of exiting.

use vstd::prelude::*;
use vstd::string::{StrSliceExecFns, StringExecFns};

use crate::pipeline::{settings_from, OptionValue, StreamSettings};
use crate::text::{decimal, push_decimal, same};
use crate::time::{elapsed, Duration, Instant};

verus! {

/// The name of the daemon on the session bus.
pub const BUS_NAME: &'static str = "org.gnome.ShellCast";

/// The path of the daemon's object.
pub const OBJECT_PATH: &'static str = "/org/gnome/ShellCast";

/// The daemon exits after this long with no casting and no calls, in seconds.
pub const IDLE_EXIT_SECS: u64 = 600;

/// What listeners on the bus are told about.
#[derive(Clone, Copy, PartialEq, Eq, Structural, Debug)]
pub enum Event {
    Devices,
    State,
    Volume,
}

/// A receiver on the network.
pub struct Device {
    pub id: String,
    pub name: String,
    /// Its network address.
    pub host: String,
    pub port: u16,
    /// Its capability bits.
    pub ca: u32,
    /// It can show a picture.
    pub has_video: bool,
}

/// What is cast.
#[derive(Clone, Copy, PartialEq, Eq, Structural, Debug)]
pub enum SourceKind {
    Screen,
    Window,
    Audio,
    Choose,
}

/// Technical detail of the active cast, surfaced in the extension menu when
/// the user enables "show details". Empty when idle.
pub struct CastDetails {
    /// "mirror" (low-latency Cast Streaming) or "hls" (fallback).
    pub transport: String,
    /// The video codec actually in use (e.g. "vp9", "h264").
    pub codec: String,
    /// The `GStreamer` encoder element chosen (e.g. "vah264enc"); empty for an
    /// audio-only cast. Worth showing because the choice is usually automatic.
    pub encoder: String,
    /// The raw format the encoder negotiated ("NV12"/"I420"). Filled in once
    /// the pipeline has prerolled, so it is empty for the first moment.
    pub format: String,
    /// Codecs the receiver accepted from the OFFER (mirroring only).
    pub receiver_codecs: Vec<String>,
}

/// The contents of [`CastDetails`].
#[verifier::ext_equal]
pub struct DetailsView {
    pub transport: Seq<char>,
    pub codec: Seq<char>,
    pub encoder: Seq<char>,
    pub format: Seq<char>,
    pub receiver_codecs: Seq<Seq<char>>,
}

impl View for CastDetails {
    type V = DetailsView;

    open spec fn view(&self) -> DetailsView {
        DetailsView {
            transport: self.transport@,
            codec: self.codec@,
            encoder: self.encoder@,
            format: self.format@,
            receiver_codecs: Seq::new(
                self.receiver_codecs@.len(),
                |i: int| self.receiver_codecs@[i]@,
            ),
        }
    }
}

impl DetailsView {
    pub open spec fn empty() -> DetailsView {
        DetailsView {
            transport: Seq::empty(),
            codec: Seq::empty(),
            encoder: Seq::empty(),
            format: Seq::empty(),
            receiver_codecs: Seq::empty(),
        }
    }
}

impl Default for CastDetails {
    fn default() -> (details: Self)
        ensures
            details@ == DetailsView::empty(),
    {
        let details = CastDetails {
            transport: String::new(),
            codec: String::new(),
            encoder: String::new(),
            format: String::new(),
            receiver_codecs: Vec::new(),
        };
        assert(details@ =~= DetailsView::empty());
        details
    }
}

impl CastDetails {
    /// Details with the same contents.
    pub fn copied(&self) -> (copy: CastDetails)
        ensures
            copy@ == self@,
    {
        let mut receiver_codecs: Vec<String> = Vec::new();
        let mut at: usize = 0;
        while at < self.receiver_codecs.len()
            invariant
                at <= self.receiver_codecs@.len(),
                receiver_codecs@.len() == at,
                forall|i: int|
                    0 <= i < at ==> (#[trigger] receiver_codecs@[i])@
                        == self.receiver_codecs@[i]@,
            decreases self.receiver_codecs@.len() - at,
        {
            receiver_codecs.push(self.receiver_codecs[at].clone());
            at = at + 1;
        }
        let copy = CastDetails {
            transport: self.transport.clone(),
            codec: self.codec.clone(),
            encoder: self.encoder.clone(),
            format: self.format.clone(),
            receiver_codecs,
        };
        assert(copy@.receiver_codecs =~= self@.receiver_codecs);
        copy
    }
}

/// What the daemon remembers between calls.
pub struct SharedState {
    /// (state, `device_id`); state is one of idle|connecting|casting|error.
    status: (String, String),
    details: CastDetails,
    /// How the last session ended: (kind, message), kind ∈ ""|"error"|"ended".
    /// "error" is a genuine failure; "ended" is the device disconnecting.
    last_event: (String, String),
    last_activity: Instant,
    /// How many casts were started, around the end of the numbers.
    generation: u64,
}

/// The contents of [`SharedState`].
pub struct StateView {
    pub status: (Seq<char>, Seq<char>),
    pub details: DetailsView,
    pub last_event: (Seq<char>, Seq<char>),
    pub last_activity: int,
    pub generation: u64,
}

impl View for SharedState {
    type V = StateView;

    closed spec fn view(&self) -> StateView {
        StateView {
            status: (self.status.0@, self.status.1@),
            details: self.details@,
            last_event: (self.last_event.0@, self.last_event.1@),
            last_activity: self.last_activity@,
            generation: self.generation,
        }
    }
}

impl StateView {
    /// The state of a daemon that has just started.
    pub open spec fn fresh(now: int) -> StateView {
        StateView {
            status: ("idle"@, Seq::empty()),
            details: DetailsView::empty(),
            last_event: (Seq::empty(), Seq::empty()),
            last_activity: now,
            generation: 0,
        }
    }

    /// The state after a call at `now`.
    pub open spec fn touched(self, now: int) -> StateView {
        StateView { last_activity: now, ..self }
    }

    /// The state after a cast was started at `now`: the end of the one before
    /// is forgotten.
    pub open spec fn started(self, now: int) -> StateView {
        StateView {
            last_event: (Seq::empty(), Seq::empty()),
            generation: if self.generation < u64::MAX {
                (self.generation + 1) as u64
            } else {
                0
            },
            last_activity: now,
            ..self
        }
    }

    /// Whether the daemon may exit: nothing is cast, and nothing has happened
    /// for long enough.
    pub open spec fn may_exit(self, now: int) -> bool {
        &&& self.status.0 == "idle"@ || self.status.0 == "error"@
        &&& elapsed(self.last_activity, now) > IDLE_EXIT_SECS * 1_000_000_000
    }
}

/// Why a cast is not started.
pub enum StartError {
    UnknownSource(u32),
    UnknownDevice(String),
    /// The named device cannot show a picture.
    AudioOnly(String),
}

impl StartError {
    /// What the caller is told.
    pub open spec fn text(&self) -> Seq<char> {
        match self {
            StartError::UnknownSource(source) => "unknown source type: "@ + decimal(
                *source as nat,
            ),
            StartError::UnknownDevice(id) => "unknown device: "@ + id@,
            StartError::AudioOnly(name) => name@
                + " is audio-only and cannot receive screen casts"@,
        }
    }

    /// What the caller is told.
    pub fn message(&self) -> (message: String)
        ensures
            message@ == self.text(),
    {
        match self {
            StartError::UnknownSource(source) => {
                let mut message = "unknown source type: ".to_owned();
                push_decimal(&mut message, *source as u64);
                message
            },
            StartError::UnknownDevice(id) => {
                let mut message = "unknown device: ".to_owned();
                message.append(id.as_str());
                message
            },
            StartError::AudioOnly(name) => {
                let mut message = name.clone();
                message.append(" is audio-only and cannot receive screen casts");
                message
            },
        }
    }

    /// The caller passed something that does not exist, rather than asking for
    /// something that cannot be done.
    pub fn is_invalid_argument(&self) -> (invalid: bool)
        ensures
            invalid == (self is UnknownSource),
    {
        matches!(self, StartError::UnknownSource(_))
    }
}

/// A cast that is to start.
pub struct StartedCast {
    /// Where its device stands among the known ones.
    pub device: usize,
    pub source: SourceKind,
    pub settings: StreamSettings,
    /// The number of the cast.
    pub generation: u64,
}

/// The source that a number stands for.
pub open spec fn source_numbered(source: u32) -> Option<SourceKind> {
    if source == 0 {
        Some(SourceKind::Screen)
    } else if source == 1 {
        Some(SourceKind::Window)
    } else if source == 2 {
        Some(SourceKind::Audio)
    } else if source == 3 {
        Some(SourceKind::Choose)
    } else {
        None
    }
}

fn source_kind(source: u32) -> (kind: Option<SourceKind>)
    ensures
        kind == source_numbered(source),
{
    match source {
        0 => Some(SourceKind::Screen),
        1 => Some(SourceKind::Window),
        2 => Some(SourceKind::Audio),
        3 => Some(SourceKind::Choose),
        _ => None,
    }
}

/// Where the first device with an id stands.
pub open spec fn device_with(devices: Seq<Device>, id: Seq<char>) -> Option<int>
    decreases devices.len(),
{
    if devices.len() == 0 {
        None
    } else {
        match device_with(devices.drop_last(), id) {
            Some(at) => Some(at),
            None => if devices.last().id@ == id {
                Some(devices.len() - 1)
            } else {
                None
            },
        }
    }
}

/// What is found among the first devices is found among all.
proof fn lemma_device_found_early(devices: Seq<Device>, id: Seq<char>, upto: int)
    requires
        0 <= upto <= devices.len(),
        device_with(devices.take(upto), id) is Some,
    ensures
        device_with(devices, id) == device_with(devices.take(upto), id),
    decreases devices.len() - upto,
{
    if upto < devices.len() {
        assert(devices.take(upto + 1).drop_last() =~= devices.take(upto));
        lemma_device_found_early(devices, id, upto + 1);
    } else {
        assert(devices.take(upto) =~= devices);
    }
}

fn find_device(devices: &Vec<Device>, id: &str) -> (found: Option<usize>)
    ensures
        found is Some <==> device_with(devices@, id@) is Some,
        found matches Some(at) ==> at < devices@.len() && device_with(devices@, id@) == Some(
            at as int,
        ),
{
    let mut at: usize = 0;
    assert(devices@.take(0) =~= Seq::empty());
    while at < devices.len()
        invariant
            at <= devices@.len(),
            device_with(devices@.take(at as int), id@) is None,
        decreases devices@.len() - at,
    {
        assert(devices@.take(at + 1).drop_last() =~= devices@.take(at as int));
        if same(devices[at].id.as_str(), id) {
            proof {
                lemma_device_found_early(devices@, id@, at + 1);
            }
            return Some(at);
        }
        at = at + 1;
    }
    assert(devices@.take(at as int) =~= devices@);
    None
}

impl SharedState {
    pub fn new(now: Instant) -> (state: SharedState)
        ensures
            state@ == StateView::fresh(now@),
    {
        SharedState {
            status: ("idle".to_owned(), String::new()),
            details: CastDetails::default(),
            last_event: (String::new(), String::new()),
            last_activity: now,
            generation: 0,
        }
    }

    /// Takes note that something happened.
    pub fn touch(&mut self, now: Instant)
        ensures
            final(self)@ == old(self)@.touched(now@),
    {
        self.last_activity = now;
    }

    /// Moves the cast to a state, and says what to tell the listeners about.
    pub fn set_status(&mut self, state: &str, device_id: &str, now: Instant) -> (event: Event)
        ensures
            event == Event::State,
            final(self)@ == (StateView { status: (state@, device_id@), ..old(self)@ }).touched(
                now@,
            ),
    {
        self.status = (state.to_owned(), device_id.to_owned());
        self.touch(now);
        Event::State
    }

    pub fn status(&self) -> (status: (String, String))
        ensures
            (status.0@, status.1@) == self@.status,
    {
        (self.status.0.clone(), self.status.1.clone())
    }

    pub fn set_details(&mut self, details: CastDetails)
        ensures
            final(self)@ == (StateView { details: details@, ..old(self)@ }),
    {
        self.details = details;
    }

    /// Records the negotiated raw format, which is only known once the pipeline
    /// has prerolled - after `set_details` has already run.
    pub fn set_detail_format(&mut self, format: &str)
        ensures
            final(self)@ == (StateView {
                details: DetailsView { format: format@, ..old(self)@.details },
                ..old(self)@
            }),
    {
        self.details.format = format.to_owned();
        assert(self@.details.receiver_codecs =~= old(self)@.details.receiver_codecs);
    }

    pub fn clear_details(&mut self)
        ensures
            final(self)@ == (StateView { details: DetailsView::empty(), ..old(self)@ }),
    {
        self.details = CastDetails::default();
    }

    pub fn details(&self) -> (details: CastDetails)
        ensures
            details@ == self@.details,
    {
        self.details.copied()
    }

    pub fn set_last_event(&mut self, kind: &str, message: &str)
        ensures
            final(self)@ == (StateView { last_event: (kind@, message@), ..old(self)@ }),
    {
        self.last_event = (kind.to_owned(), message.to_owned());
    }

    pub fn last_event(&self) -> (event: (String, String))
        ensures
            (event.0@, event.1@) == self@.last_event,
    {
        (self.last_event.0.clone(), self.last_event.1.clone())
    }

    /// The number of the last cast that was started.
    pub fn generation(&self) -> (generation: u64)
        ensures
            generation == self@.generation,
    {
        self.generation
    }

    /// Starts a cast to a device, or says why not: the source has to be known,
    /// the device too, and a device without a picture takes only audio.
    pub fn start_cast(
        &mut self,
        devices: &Vec<Device>,
        device_id: &str,
        source: u32,
        options: &Vec<(String, OptionValue)>,
        now: Instant,
    ) -> (cast: Result<StartedCast, StartError>)
        ensures
            match (source_numbered(source), device_with(devices@, device_id@)) {
                (None, _) => {
                    &&& cast matches Err(StartError::UnknownSource(number)) && number == source
                    &&& final(self)@ == old(self)@.touched(now@)
                },
                (Some(_), None) => {
                    &&& cast matches Err(StartError::UnknownDevice(id)) && id@ == device_id@
                    &&& final(self)@ == old(self)@.touched(now@)
                },
                (Some(kind), Some(at)) => if !devices@[at].has_video && kind
                    != SourceKind::Audio {
                    &&& cast matches Err(StartError::AudioOnly(name)) && name@
                        == devices@[at].name@
                    &&& final(self)@ == old(self)@.touched(now@)
                } else {
                    &&& cast matches Ok(started)
                    &&& started.device == at
                    &&& started.source == kind
                    &&& started.settings == settings_from(options@)
                    &&& started.generation == final(self)@.generation
                    &&& final(self)@ == old(self)@.started(now@)
                },
            },
    {
        self.touch(now);
        let kind = match source_kind(source) {
            Some(kind) => kind,
            None => {
                return Err(StartError::UnknownSource(source));
            },
        };
        let device = match find_device(devices, device_id) {
            Some(at) => at,
            None => {
                return Err(StartError::UnknownDevice(device_id.to_owned()));
            },
        };
        if !devices[device].has_video && kind != SourceKind::Audio {
            return Err(StartError::AudioOnly(devices[device].name.clone()));
        }
        let settings = StreamSettings::from_options(options);
        // Fresh start: clear any previous session's end reason.
        self.last_event = (String::new(), String::new());
        self.generation = if self.generation < u64::MAX {
            self.generation + 1
        } else {
            0
        };
        Ok(StartedCast { device, source: kind, settings, generation: self.generation })
    }

    /// Whether to exit now, so that the daemon does not linger forever.
    pub fn should_exit(&self, now: Instant) -> (exit: bool)
        ensures
            exit == self@.may_exit(now@),
    {
        (same(self.status.0.as_str(), "idle") || same(self.status.0.as_str(), "error"))
            && now.saturating_duration_since(self.last_activity).nanos > Duration::from_secs(
            IDLE_EXIT_SECS,
        ).nanos
    }
}

/// Whether a text stands before another or at the same place, character by
/// character.
pub open spec fn text_le(a: Seq<char>, b: Seq<char>) -> bool
    decreases a.len(),
{
    if a.len() == 0 {
        true
    } else if b.len() == 0 {
        false
    } else if a[0] == b[0] {
        text_le(a.skip(1), b.skip(1))
    } else {
        (a[0] as int) < (b[0] as int)
    }
}

fn text_not_after(a: &str, b: &str) -> (ordered: bool)
    ensures
        ordered == text_le(a@, b@),
{
    let a_len: usize = a.unicode_len();
    let b_len: usize = b.unicode_len();
    let mut at: usize = 0;
    assert(a@.skip(0) =~= a@);
    assert(b@.skip(0) =~= b@);
    while at < a_len
        invariant
            at <= a_len,
            at <= b_len,
            a_len == a@.len(),
            b_len == b@.len(),
            text_le(a@.skip(at as int), b@.skip(at as int)) == text_le(a@, b@),
        decreases a_len - at,
    {
        if at >= b_len {
            return false;
        }
        let x: u32 = a.get_char(at) as u32;
        let y: u32 = b.get_char(at) as u32;
        proof {
            assert(a@.skip(at as int)[0] == a@[at as int]);
            assert(b@.skip(at as int)[0] == b@[at as int]);
            assert(a@.skip(at as int).skip(1) =~= a@.skip(at + 1));
            assert(b@.skip(at as int).skip(1) =~= b@.skip(at + 1));
        }
        if x < y {
            return true;
        }
        if x > y {
            return false;
        }
        at = at + 1;
    }
    true
}

/// A device as it is listed: id, name, address with port, capability bits.
pub struct ListedDevice {
    pub id: String,
    pub name: String,
    pub address: String,
    pub ca: u32,
}

/// The contents of a [`ListedDevice`].
pub struct ListedView {
    pub id: Seq<char>,
    pub name: Seq<char>,
    pub address: Seq<char>,
    pub ca: u32,
}

impl View for ListedDevice {
    type V = ListedView;

    open spec fn view(&self) -> ListedView {
        ListedView { id: self.id@, name: self.name@, address: self.address@, ca: self.ca }
    }
}

/// How a device is listed.
pub open spec fn listed(device: Device) -> ListedView {
    ListedView {
        id: device.id@,
        name: device.name@,
        address: device.host@ + ":"@ + decimal(device.port as nat),
        ca: device.ca,
    }
}

/// A list with an entry put in before the first whose name stands after its own.
pub open spec fn put_in(list: Seq<ListedView>, entry: ListedView) -> Seq<ListedView>
    decreases list.len(),
{
    if list.len() == 0 || text_le(list.last().name, entry.name) {
        list.push(entry)
    } else {
        put_in(list.drop_last(), entry).push(list.last())
    }
}

/// Some devices as they are listed, sorted by name; those of the same name in
/// their order.
pub open spec fn listing(devices: Seq<Device>) -> Seq<ListedView>
    decreases devices.len(),
{
    if devices.len() == 0 {
        Seq::empty()
    } else {
        put_in(listing(devices.drop_last()), listed(devices.last()))
    }
}

/// The contents of some listed devices.
pub open spec fn entries(list: Seq<ListedDevice>) -> Seq<ListedView> {
    Seq::new(list.len(), |i: int| list[i]@)
}

fn list_device(device: &Device) -> (entry: ListedDevice)
    ensures
        entry@ == listed(*device),
{
    let mut address = device.host.clone();
    address.append(":");
    push_decimal(&mut address, device.port as u64);
    ListedDevice { id: device.id.clone(), name: device.name.clone(), address, ca: device.ca }
}

/// The devices as the extension's menu lists them, sorted by name.
pub fn list_devices(devices: &Vec<Device>) -> (list: Vec<ListedDevice>)
    ensures
        entries(list@) == listing(devices@),
        sorted_by_name(entries(list@)),
        entries(list@).to_multiset() == Seq::new(
            devices@.len(),
            |i: int| listed(devices@[i]),
        ).to_multiset(),
{
    let mut list: Vec<ListedDevice> = Vec::new();
    let mut at: usize = 0;
    assert(entries(list@) =~= Seq::empty());
    assert(devices@.take(0) =~= Seq::empty());
    while at < devices.len()
        invariant
            at <= devices@.len(),
            entries(list@) == listing(devices@.take(at as int)),
        decreases devices@.len() - at,
    {
        let entry = list_device(&devices[at]);
        let ghost before = list@;
        let ghost item = entry@;
        let mut place: usize = list.len();
        assert(before.take(place as int) =~= before);
        assert(before.skip(place as int) =~= Seq::empty());
        assert(put_in(entries(before), item) =~= put_in(
            entries(before.take(place as int)),
            item,
        ) + entries(before.skip(place as int)));
        while place > 0
            invariant
                place <= list@.len(),
                list@ == before,
                item == entry@,
                put_in(entries(before), item) == put_in(
                    entries(before.take(place as int)),
                    item,
                ) + entries(before.skip(place as int)),
            ensures
                place <= list@.len(),
                list@ == before,
                item == entry@,
                put_in(entries(before), item) == entries(before.take(place as int)).push(item)
                    + entries(before.skip(place as int)),
            decreases place,
        {
            let ghost head = entries(before.take(place as int));
            assert(head.last() == before[place - 1]@);
            if text_not_after(list[place - 1].name.as_str(), entry.name.as_str()) {
                break ;
            }
            proof {
                assert(head.drop_last() =~= entries(before.take(place - 1)));
                assert(entries(before.skip(place - 1)) =~= seq![before[place - 1]@] + entries(
                    before.skip(place as int),
                ));
                assert(put_in(head, item) + entries(before.skip(place as int)) =~= put_in(
                    entries(before.take(place - 1)),
                    item,
                ) + entries(before.skip(place - 1)));
            }
            place = place - 1;
        }
        list.insert(place, entry);
        proof {
            assert(entries(list@) =~= entries(before.take(place as int)).push(item) + entries(
                before.skip(place as int),
            ));
            assert(devices@.take(at + 1).drop_last() =~= devices@.take(at as int));
        }
        at = at + 1;
    }
    assert(devices@.take(at as int) =~= devices@);
    proof {
        law_devices_are_listed_by_name(devices@);
    }
    list
}

proof fn lemma_text_order_is_total(a: Seq<char>, b: Seq<char>)
    ensures
        text_le(a, b) || text_le(b, a),
    decreases a.len(),
{
    if a.len() > 0 && b.len() > 0 && a[0] == b[0] {
        lemma_text_order_is_total(a.skip(1), b.skip(1));
    }
}

proof fn lemma_text_order_is_transitive(a: Seq<char>, b: Seq<char>, c: Seq<char>)
    requires
        text_le(a, b),
        text_le(b, c),
    ensures
        text_le(a, c),
    decreases a.len(),
{
    if a.len() > 0 && b.len() > 0 && c.len() > 0 && a[0] == b[0] && b[0] == c[0] {
        lemma_text_order_is_transitive(a.skip(1), b.skip(1), c.skip(1));
    }
}

/// Whether a list is sorted by name.
pub open spec fn sorted_by_name(list: Seq<ListedView>) -> bool {
    forall|i: int, j: int| 0 <= i <= j < list.len() ==> text_le(list[i].name, list[j].name)
}

proof fn lemma_put_in(list: Seq<ListedView>, entry: ListedView)
    requires
        sorted_by_name(list),
    ensures
        sorted_by_name(put_in(list, entry)),
        put_in(list, entry).to_multiset() == list.to_multiset().insert(entry),
        forall|i: int|
            0 <= i < put_in(list, entry).len() ==> (#[trigger] put_in(list, entry)[i]) == entry
                || list.contains(put_in(list, entry)[i]),
    decreases list.len(),
{
    broadcast use vstd::seq_lib::group_to_multiset_ensures;

    lemma_text_order_is_total(entry.name, entry.name);
    if list.len() == 0 {
        assert(list.push(entry)[0] == entry);
    } else if text_le(list.last().name, entry.name) {
        let after = list.push(entry);
        assert forall|i: int, j: int| 0 <= i <= j < after.len() implies text_le(
            after[i].name,
            after[j].name,
        ) by {
            if j == list.len() && i < j {
                assert(text_le(list[i].name, list.last().name));
                lemma_text_order_is_transitive(list[i].name, list.last().name, entry.name);
            }
        }
        assert forall|i: int| 0 <= i < after.len() implies (#[trigger] after[i]) == entry
            || list.contains(after[i]) by {
            if i < list.len() {
                assert(list[i] == after[i]);
            }
        }
    } else {
        let rest = list.drop_last();
        let last = list.last();
        lemma_put_in(rest, entry);
        let head = put_in(rest, entry);
        let after = head.push(last);
        assert forall|i: int| 0 <= i < head.len() implies text_le(
            (#[trigger] head[i]).name,
            last.name,
        ) by {
            if head[i] == entry {
                lemma_text_order_is_total(entry.name, last.name);
            } else {
                let k = rest.index_of(head[i]);
                assert(list[k] == head[i]);
                assert(text_le(list[k].name, list[list.len() - 1].name));
            }
        }
        assert forall|i: int, j: int| 0 <= i <= j < after.len() implies text_le(
            after[i].name,
            after[j].name,
        ) by {
            if j == head.len() {
                if i < j {
                    assert(text_le(head[i].name, last.name));
                } else {
                    lemma_text_order_is_total(last.name, last.name);
                }
            } else {
                assert(text_le(head[i].name, head[j].name));
            }
        }
        assert forall|i: int| 0 <= i < after.len() implies (#[trigger] after[i]) == entry
            || list.contains(after[i]) by {
            if i < head.len() {
                assert(after[i] == head[i]);
                if head[i] != entry {
                    let k = rest.index_of(head[i]);
                    assert(list[k] == after[i]);
                }
            } else {
                assert(list[list.len() - 1] == after[i]);
            }
        }
        assert(list =~= rest.push(last));
        assert(after.to_multiset() =~= list.to_multiset().insert(entry));
    }
}

/// The devices are listed in the order of their names, each as often as it is
/// known.
pub proof fn law_devices_are_listed_by_name(devices: Seq<Device>)
    ensures
        sorted_by_name(listing(devices)),
        listing(devices).to_multiset() == Seq::new(
            devices.len(),
            |i: int| listed(devices[i]),
        ).to_multiset(),
    decreases devices.len(),
{
    broadcast use vstd::seq_lib::group_to_multiset_ensures;

    let all = Seq::new(devices.len(), |i: int| listed(devices[i]));
    if devices.len() > 0 {
        let rest = devices.drop_last();
        law_devices_are_listed_by_name(rest);
        lemma_put_in(listing(rest), listed(devices.last()));
        let before = Seq::new(rest.len(), |i: int| listed(rest[i]));
        assert(all =~= before.push(listed(devices.last())));
    } else {
        assert(all =~= Seq::empty());
        assert(listing(devices) =~= Seq::empty());
    }
}

/// The daemon never exits while it connects or casts.
pub proof fn law_no_exit_during_a_cast(state: StateView, now: int)
    requires
        state.status.0 == "connecting"@ || state.status.0 == "casting"@,
    ensures
        !state.may_exit(now),
{
    reveal_strlit("connecting");
    reveal_strlit("casting");
    reveal_strlit("idle");
    reveal_strlit("error");
    assert("connecting"@.len() == 10);
    assert("casting"@.len() == 7);
    assert("idle"@.len() == 4);
    assert("error"@.len() == 5);
}

/// Every call keeps the daemon running for the whole idle time.
pub proof fn law_calls_postpone_the_exit(state: StateView, now: int, later: int)
    requires
        state.touched(now).may_exit(later),
    ensures
        later - now > IDLE_EXIT_SECS * 1_000_000_000,
{
}

/// Casts that follow each other have different numbers.
pub proof fn law_casts_are_told_apart(state: StateView, now: int, later: int)
    ensures
        state.started(now).generation != state.generation,
        state.started(now).started(later).generation != state.started(now).generation,
        state.started(now).started(later).generation != state.generation,
{
}

/// A daemon that has just started casts nothing, has nothing to tell, and has
/// numbered no cast.
pub proof fn law_a_daemon_starts_idle(
    now: Instant,
    state: SharedState,
    status: (String, String),
    event: (String, String),
    details: CastDetails,
    generation: u64,
)
    requires
        call_ensures(SharedState::new, (now,), state),
        call_ensures(SharedState::status, (&state,), status),
        call_ensures(SharedState::last_event, (&state,), event),
        call_ensures(SharedState::details, (&state,), details),
        call_ensures(SharedState::generation, (&state,), generation),
    ensures
        status.0@ == "idle"@,
        status.1@.len() == 0,
        event.0@.len() == 0,
        event.1@.len() == 0,
        details.transport@.len() == 0,
        details.codec@.len() == 0,
        details.encoder@.len() == 0,
        details.format@.len() == 0,
        details.receiver_codecs@.len() == 0,
        generation == 0,
        state@.last_activity == now.nanos,
{
    assert(details@.receiver_codecs.len() == details.receiver_codecs@.len());
}

/// The state that was set last is the one that is read, and setting it leaves
/// the details, the end of the last cast and the number of casts alone. The
/// listeners hear of it, and it counts as activity.
pub proof fn law_the_state_set_is_the_state_read(
    state: &mut SharedState,
    name: &str,
    device_id: &str,
    now: Instant,
    event: Event,
    status: (String, String),
)
    requires
        call_ensures(SharedState::set_status, (state, name, device_id, now), event),
        call_ensures(SharedState::status, (final(state),), status),
    ensures
        status.0@ == name@,
        status.1@ == device_id@,
        event == Event::State,
        final(state)@.details == old(state)@.details,
        final(state)@.last_event == old(state)@.last_event,
        final(state)@.generation == old(state)@.generation,
        final(state)@.last_activity == now.nanos,
{
}

/// The details that were set last are those that are read, with the format
/// filled in where that came later; nothing else changes with them.
pub proof fn law_the_details_set_are_the_details_read(
    state: &mut SharedState,
    given: CastDetails,
    read: CastDetails,
    i: int,
)
    requires
        call_ensures(SharedState::set_details, (state, given), ()),
        call_ensures(SharedState::details, (final(state),), read),
    ensures
        read.transport@ == given.transport@,
        read.codec@ == given.codec@,
        read.encoder@ == given.encoder@,
        read.format@ == given.format@,
        read.receiver_codecs@.len() == given.receiver_codecs@.len(),
        0 <= i < given.receiver_codecs@.len() ==> read.receiver_codecs@[i]@
            == given.receiver_codecs@[i]@,
        final(state)@.status == old(state)@.status,
        final(state)@.last_event == old(state)@.last_event,
        final(state)@.generation == old(state)@.generation,
        final(state)@.last_activity == old(state)@.last_activity,
{
    assert(read@.receiver_codecs.len() == given@.receiver_codecs.len());
    if 0 <= i < given.receiver_codecs@.len() {
        assert(read@.receiver_codecs[i] == given@.receiver_codecs[i]);
    }
}

/// A format that comes later is filled in beside the other details, which stay.
pub proof fn law_the_format_is_filled_in(
    state: &mut SharedState,
    before: CastDetails,
    format: &str,
    after: CastDetails,
    i: int,
)
    requires
        call_ensures(SharedState::details, (old(state),), before),
        call_ensures(SharedState::set_detail_format, (state, format), ()),
        call_ensures(SharedState::details, (final(state),), after),
    ensures
        after.format@ == format@,
        after.transport@ == before.transport@,
        after.codec@ == before.codec@,
        after.encoder@ == before.encoder@,
        after.receiver_codecs@.len() == before.receiver_codecs@.len(),
        0 <= i < before.receiver_codecs@.len() ==> after.receiver_codecs@[i]@
            == before.receiver_codecs@[i]@,
        final(state)@.status == old(state)@.status,
        final(state)@.last_event == old(state)@.last_event,
        final(state)@.generation == old(state)@.generation,
        final(state)@.last_activity == old(state)@.last_activity,
{
    assert(after@.receiver_codecs.len() == before@.receiver_codecs.len());
    if 0 <= i < before.receiver_codecs@.len() {
        assert(after@.receiver_codecs[i] == before@.receiver_codecs[i]);
    }
}

/// Cleared details read as those of a daemon that has just started; nothing else
/// is cleared with them.
pub proof fn law_cleared_details_are_empty(state: &mut SharedState, read: CastDetails)
    requires
        call_ensures(SharedState::clear_details, (state,), ()),
        call_ensures(SharedState::details, (final(state),), read),
    ensures
        read.transport@.len() == 0,
        read.codec@.len() == 0,
        read.encoder@.len() == 0,
        read.format@.len() == 0,
        read.receiver_codecs@.len() == 0,
        final(state)@.status == old(state)@.status,
        final(state)@.last_event == old(state)@.last_event,
        final(state)@.generation == old(state)@.generation,
        final(state)@.last_activity == old(state)@.last_activity,
{
    assert(read@.receiver_codecs.len() == read.receiver_codecs@.len());
}

/// The end that was recorded last is the one that is read, and recording it
/// changes nothing else.
pub proof fn law_the_end_recorded_is_the_end_read(
    state: &mut SharedState,
    kind: &str,
    message: &str,
    read: (String, String),
)
    requires
        call_ensures(SharedState::set_last_event, (state, kind, message), ()),
        call_ensures(SharedState::last_event, (final(state),), read),
    ensures
        read.0@ == kind@,
        read.1@ == message@,
        final(state)@.status == old(state)@.status,
        final(state)@.details == old(state)@.details,
        final(state)@.generation == old(state)@.generation,
        final(state)@.last_activity == old(state)@.last_activity,
{
}

/// A call only moves the time of the last activity.
pub proof fn law_calls_only_move_the_time(state: &mut SharedState, now: Instant)
    requires
        call_ensures(SharedState::touch, (state, now), ()),
    ensures
        final(state)@.last_activity == now.nanos,
        final(state)@.status == old(state)@.status,
        final(state)@.details == old(state)@.details,
        final(state)@.last_event == old(state)@.last_event,
        final(state)@.generation == old(state)@.generation,
{
}

/// Whether a device of this id is known.
pub open spec fn is_known(devices: Seq<Device>, id: Seq<char>) -> bool {
    exists|i: int| 0 <= i < devices.len() && (#[trigger] devices[i]).id@ == id
}

/// Whether the device at a place is the first of its id.
pub open spec fn is_first(devices: Seq<Device>, id: Seq<char>, at: int) -> bool {
    &&& 0 <= at < devices.len()
    &&& devices[at].id@ == id
    &&& forall|i: int| 0 <= i < at ==> (#[trigger] devices[i]).id@ != id
}

/// The device that is found is the first of its id, and one is found whenever
/// one is known.
proof fn lemma_device_with(devices: Seq<Device>, id: Seq<char>)
    ensures
        device_with(devices, id) is Some <==> is_known(devices, id),
        device_with(devices, id) matches Some(at) ==> is_first(devices, id, at),
    decreases devices.len(),
{
    if devices.len() > 0 {
        let rest = devices.drop_last();
        lemma_device_with(rest, id);
        if is_known(rest, id) {
            let i = choose|i: int| 0 <= i < rest.len() && (#[trigger] rest[i]).id@ == id;
            assert(devices[i].id@ == id);
            let at = device_with(rest, id)->Some_0;
            assert(devices[at] == rest[at]);
            assert forall|k: int| 0 <= k < at implies (#[trigger] devices[k]).id@ != id by {
                assert(rest[k] == devices[k]);
            }
        } else {
            assert forall|k: int| 0 <= k < rest.len() implies (#[trigger] devices[k]).id@
                != id by {
                assert(rest[k] == devices[k]);
            }
            if devices.last().id@ == id {
                assert(devices[devices.len() - 1].id@ == id);
            }
        }
    }
}

/// A cast starts when its source is one of the four, its device is known, and
/// the device can show a picture or is asked for audio alone; nothing else keeps
/// it from starting. It then goes to the first device of that id, casts the
/// source asked for with the settings that the options ask for, and takes the
/// next number. A cast that does not start takes no number, and leaves the end
/// of the last one to be read.
pub proof fn law_casts_start_where_they_can(
    state: &mut SharedState,
    devices: Vec<Device>,
    device_id: &str,
    source: u32,
    options: Vec<(String, OptionValue)>,
    now: Instant,
    cast: Result<StartedCast, StartError>,
    at: int,
)
    requires
        is_first(devices@, device_id@, at),
        call_ensures(
            SharedState::start_cast,
            (state, &devices, device_id, source, &options, now),
            cast,
        ),
    ensures
        cast is Ok <==> source <= 3 && (devices@[at].has_video || source == 2),
        cast is Err ==> {
            &&& final(state)@.generation == old(state)@.generation
            &&& final(state)@.last_event == old(state)@.last_event
        },
        cast matches Ok(started) ==> {
            &&& started.device == at
            &&& started.source == SourceKind::Screen <==> source == 0
            &&& started.source == SourceKind::Window <==> source == 1
            &&& started.source == SourceKind::Audio <==> source == 2
            &&& started.source == SourceKind::Choose <==> source == 3
            &&& started.generation == final(state)@.generation
            &&& old(state)@.generation < u64::MAX ==> started.generation
                == old(state)@.generation + 1
            &&& old(state)@.generation == u64::MAX ==> started.generation == 0
            &&& final(state)@.last_event.0.len() == 0
            &&& final(state)@.last_event.1.len() == 0
            &&& forall|settings: StreamSettings|
                #[trigger] call_ensures(StreamSettings::from_options, (&options,), settings)
                    ==> started.settings == settings
        },
        final(state)@.last_activity == now.nanos,
        final(state)@.status == old(state)@.status,
        final(state)@.details == old(state)@.details,
{
    lemma_device_with(devices@, device_id@);
    assert(devices@[at].id@ == device_id@);
}

/// A cast that does not start says why: a source that is none of the four before
/// anything else, then a device that nobody knows, then a picture that the
/// device cannot show.
pub proof fn law_refused_casts_say_why(
    state: &mut SharedState,
    devices: Vec<Device>,
    device_id: &str,
    source: u32,
    options: Vec<(String, OptionValue)>,
    now: Instant,
    cast: Result<StartedCast, StartError>,
)
    requires
        call_ensures(
            SharedState::start_cast,
            (state, &devices, device_id, source, &options, now),
            cast,
        ),
    ensures
        source > 3 <==> (cast matches Err(StartError::UnknownSource(_))),
        cast matches Err(StartError::UnknownSource(number)) ==> number == source,
        source <= 3 && !is_known(devices@, device_id@) <==> (cast matches Err(
            StartError::UnknownDevice(_),
        )),
        cast matches Err(StartError::UnknownDevice(id)) ==> id@ == device_id@,
        cast matches Err(StartError::AudioOnly(name)) ==> source != 2 && exists|at: int|
            {
                &&& is_first(devices@, device_id@, at)
                &&& !(#[trigger] devices@[at]).has_video
                &&& name@ == devices@[at].name@
            },
        cast is Err ==> {
            &&& final(state)@.generation == old(state)@.generation
            &&& final(state)@.last_event == old(state)@.last_event
            &&& final(state)@.status == old(state)@.status
            &&& final(state)@.details == old(state)@.details
            &&& final(state)@.last_activity == now.nanos
        },
{
    lemma_device_with(devices@, device_id@);
    if let Some(at) = device_with(devices@, device_id@) {
        assert(is_first(devices@, device_id@, at));
        assert(devices@[at].id@ == device_id@);
    }
}

/// What a caller is told of a refusal names what was asked for, and only a
/// source that does not exist is a mistake of the caller's.
pub proof fn law_refusals_name_what_was_asked(error: StartError, message: String, invalid: bool)
    requires
        call_ensures(StartError::message, (&error,), message),
        call_ensures(StartError::is_invalid_argument, (&error,), invalid),
    ensures
        error matches StartError::UnknownSource(source) ==> message@ == "unknown source type: "@
            + decimal(source as nat),
        error matches StartError::UnknownDevice(id) ==> message@ == "unknown device: "@ + id@,
        error matches StartError::AudioOnly(name) ==> message@ == name@
            + " is audio-only and cannot receive screen casts"@,
        invalid <==> (error matches StartError::UnknownSource(_)),
{
}

/// The daemon exits once it has neither connected nor cast and heard of nothing
/// for more than ten minutes, and at no other time.
pub proof fn law_the_daemon_exits_after_ten_idle_minutes(
    state: SharedState,
    now: Instant,
    exit: bool,
)
    requires
        call_ensures(SharedState::should_exit, (&state, now), exit),
    ensures
        exit <==> {
            &&& now.nanos - state@.last_activity > 600_000_000_000
            &&& state@.status.0 == "idle"@ || state@.status.0 == "error"@
        },
{
}

/// Whether a text stands before another, or is the same: it is the beginning of
/// the other, or the first character in which the two differ is the smaller one.
pub open spec fn in_order(a: Seq<char>, b: Seq<char>) -> bool {
    ||| a.len() <= b.len() && a == b.take(a.len() as int)
    ||| exists|k: int|
        {
            &&& 0 <= k < a.len()
            &&& k < b.len()
            &&& a.take(k) == b.take(k)
            &&& (#[trigger] a[k] as int) < (b[k] as int)
        }
}

proof fn lemma_text_le_is_in_order(a: Seq<char>, b: Seq<char>)
    requires
        text_le(a, b),
    ensures
        in_order(a, b),
    decreases a.len(),
{
    if a.len() == 0 {
        assert(a =~= b.take(0));
    } else if a[0] == b[0] {
        lemma_text_le_is_in_order(a.skip(1), b.skip(1));
        let (x, y) = (a.skip(1), b.skip(1));
        if x.len() <= y.len() && x == y.take(x.len() as int) {
            assert forall|i: int| 0 <= i < a.len() implies a[i] == b[i] by {
                if i > 0 {
                    assert(x[i - 1] == y.take(x.len() as int)[i - 1]);
                }
            }
            assert(a =~= b.take(a.len() as int));
        } else {
            let k = choose|k: int|
                {
                    &&& 0 <= k < x.len()
                    &&& k < y.len()
                    &&& x.take(k) == y.take(k)
                    &&& (#[trigger] x[k] as int) < (y[k] as int)
                };
            assert forall|i: int| 0 <= i < k + 1 implies a[i] == b[i] by {
                if i > 0 {
                    assert(x.take(k)[i - 1] == y.take(k)[i - 1]);
                }
            }
            assert(a.take(k + 1) =~= b.take(k + 1));
            assert(a[k + 1] == x[k] && b[k + 1] == y[k]);
        }
    } else {
        assert(a.take(0) =~= b.take(0));
        assert((a[0] as int) < (b[0] as int));
    }
}

/// The entries of a list that have a name, in their order.
pub open spec fn of_name(list: Seq<ListedView>, name: Seq<char>) -> Seq<ListedView>
    decreases list.len(),
{
    if list.len() == 0 {
        Seq::empty()
    } else if list.last().name == name {
        of_name(list.drop_last(), name).push(list.last())
    } else {
        of_name(list.drop_last(), name)
    }
}

proof fn lemma_put_in_keeps_names(list: Seq<ListedView>, entry: ListedView, name: Seq<char>)
    ensures
        of_name(put_in(list, entry), name) == of_name(list.push(entry), name),
    decreases list.len(),
{
    assert(list.push(entry).drop_last() =~= list);
    if list.len() > 0 && !text_le(list.last().name, entry.name) {
        let rest = list.drop_last();
        let last = list.last();
        lemma_put_in_keeps_names(rest, entry, name);
        lemma_text_order_is_total(entry.name, entry.name);
        assert(put_in(rest, entry).push(last).drop_last() =~= put_in(rest, entry));
        assert(rest.push(entry).drop_last() =~= rest);
        assert(rest.push(entry).last() == entry);
        assert(put_in(rest, entry).push(last).last() == last);
        assert(of_name(rest.push(entry), name) == if entry.name == name {
            of_name(rest, name).push(entry)
        } else {
            of_name(rest, name)
        });
        assert(of_name(list, name) == if last.name == name {
            of_name(rest, name).push(last)
        } else {
            of_name(rest, name)
        });
        assert(of_name(list.push(entry), name) == if entry.name == name {
            of_name(list, name).push(entry)
        } else {
            of_name(list, name)
        });
        assert(of_name(put_in(list, entry), name) == if last.name == name {
            of_name(put_in(rest, entry), name).push(last)
        } else {
            of_name(put_in(rest, entry), name)
        });
    }
}

proof fn lemma_listing_keeps_names(devices: Seq<Device>, name: Seq<char>)
    ensures
        of_name(listing(devices), name) == of_name(
            Seq::new(devices.len(), |i: int| listed(devices[i])),
            name,
        ),
    decreases devices.len(),
{
    let all = Seq::new(devices.len(), |i: int| listed(devices[i]));
    if devices.len() > 0 {
        let rest = devices.drop_last();
        let before = Seq::new(rest.len(), |i: int| listed(rest[i]));
        lemma_listing_keeps_names(rest, name);
        lemma_put_in_keeps_names(listing(rest), listed(devices.last()), name);
        assert(listing(rest).push(listed(devices.last())).drop_last() =~= listing(rest));
        assert(all.drop_last() =~= before);
        assert(all.last() == listed(devices.last()));
    } else {
        assert(all =~= Seq::empty());
    }
}

/// The menu lists every known device, each once, with its id, name, address and
/// capabilities as they are known: by name from the smaller to the larger, and
/// those of one name in the order in which they are known.
pub proof fn law_the_menu_lists_every_device(
    devices: Vec<Device>,
    list: Vec<ListedDevice>,
    name: Seq<char>,
    all: Seq<ListedView>,
)
    requires
        call_ensures(list_devices, (&devices,), list),
        all.len() == devices@.len(),
        forall|i: int|
            0 <= i < all.len() ==> {
                &&& (#[trigger] all[i]).id == devices@[i].id@
                &&& all[i].name == devices@[i].name@
                &&& all[i].address == devices@[i].host@ + ":"@ + decimal(
                    devices@[i].port as nat,
                )
                &&& all[i].ca == devices@[i].ca
            },
    ensures
        list@.len() == devices@.len(),
        forall|i: int, j: int|
            0 <= i < j < list@.len() ==> in_order(
                (#[trigger] list@[i]).name@,
                (#[trigger] list@[j]).name@,
            ),
        of_name(entries(list@), name) == of_name(all, name),
{
    assert(all =~= Seq::new(devices@.len(), |i: int| listed(devices@[i])));
    lemma_listing_keeps_names(devices@, name);
    assert(entries(list@).len() == list@.len());
    assert(entries(list@).to_multiset().len() == all.to_multiset().len());
    entries(list@).to_multiset_ensures();
    all.to_multiset_ensures();
    assert forall|i: int, j: int| 0 <= i < j < list@.len() implies in_order(
        (#[trigger] list@[i]).name@,
        (#[trigger] list@[j]).name@,
    ) by {
        let shown = entries(list@);
        assert(text_le(shown[i].name, shown[j].name));
        lemma_text_le_is_in_order(shown[i].name, shown[j].name);
    }
}

/// Copied details have the same contents, field by field.
pub proof fn law_copied_details_are_the_same(details: CastDetails, copy: CastDetails, i: int)
    requires
        call_ensures(CastDetails::copied, (&details,), copy),
    ensures
        copy.transport@ == details.transport@,
        copy.codec@ == details.codec@,
        copy.encoder@ == details.encoder@,
        copy.format@ == details.format@,
        copy.receiver_codecs@.len() == details.receiver_codecs@.len(),
        0 <= i < details.receiver_codecs@.len() ==> copy.receiver_codecs@[i]@
            == details.receiver_codecs@[i]@,
{
    assert(copy@.receiver_codecs.len() == details@.receiver_codecs.len());
    if 0 <= i < details.receiver_codecs@.len() {
        assert(copy@.receiver_codecs[i] == details@.receiver_codecs[i]);
    }
}

} // verus!
