//! Video sources.
//!
//! [`VideoSource`] is what every kind of input offers; [`CameraSource`] is the one that
//! takes its frames from a camera, and [`SourceManager`] holds one for each camera that
//! was found. As with cameras, the capture threads are driven from outside.

use crate::capture::{newest_delivery, CameraIndex, DeviceInfo, FrameReply};
use crate::text::{decimal_text, join3};
use vstd::prelude::*;

pub use crate::capture::FrameData;

verus! {

/// Type-safe wrapper around the number of a video source.
#[derive(Debug, Clone, Copy, PartialEq, Eq, Structural, Hash)]
pub struct SourceId(pub usize);

/// What is known of a source, for display.
#[derive(Debug, Clone)]
pub struct SourceInfo {
    pub id: SourceId,
    pub name: String,
}

/// What every kind of video source offers.
pub trait VideoSource: Send {
    /// The number of the source.
    spec fn source_id(&self) -> SourceId;

    /// The name of the source.
    spec fn source_name(&self) -> Seq<char>;

    /// Whether the source has been started.
    spec fn started(&self) -> bool;

    /// The number of the source.
    fn id(&self) -> (id: SourceId)
        ensures
            id == self.source_id(),
    ;

    /// The name of the source.
    fn name(&self) -> (name: &str)
        ensures
            name@ == self.source_name(),
    ;

    /// Starts the source, unless it has been started. Where a capture thread has to be
    /// started for that, its device is returned.
    fn start(&mut self) -> (r: Result<Option<CameraIndex>, String>)
        ensures
            final(self).source_id() == old(self).source_id(),
            final(self).source_name() == old(self).source_name(),
            final(self).started() == (old(self).started() || r is Ok),
            old(self).started() ==> r == Ok::<Option<CameraIndex>, String>(None),
    ;

    /// Stops the source.
    fn stop(&mut self)
        ensures
            final(self).source_id() == old(self).source_id(),
            final(self).source_name() == old(self).source_name(),
            !final(self).started(),
    ;

    /// Answers a request for a frame, of which `received` has come since the last request.
    /// A source that has not been started is started first.
    fn get_frame(&mut self, received: Vec<Result<FrameData, String>>) -> (r: Result<
        FrameReply,
        String,
    >)
        ensures
            final(self).source_id() == old(self).source_id(),
            final(self).source_name() == old(self).source_name(),
            final(self).started() == (old(self).started() || r is Ok),
    ;
}

/// The answer to a request for a frame of a source.
pub open spec fn frame_reply(
    started: bool,
    device: CameraIndex,
    received: Seq<Result<FrameData, String>>,
) -> Result<FrameReply, String> {
    if started {
        match crate::capture::newest(received) {
            Ok(frame) => Ok(FrameReply::Frame(frame)),
            Err(message) => Err(message),
        }
    } else {
        Ok(FrameReply::Start(device))
    }
}

/// A source that takes its frames from a camera.
pub struct CameraSource {
    id: SourceId,
    name: String,
    index: CameraIndex,
    started: bool,
}

impl CameraSource {
    /// The device that the source takes its frames from.
    pub closed spec fn device(&self) -> CameraIndex {
        self.index
    }

    /// Makes a source that has not been started.
    pub fn new(id: SourceId, name: String, index: CameraIndex) -> (s: Self)
        ensures
            s.source_id() == id,
            s.source_name() == name@,
            s.device() == index,
            !s.started(),
    {
        CameraSource { id, name, index, started: false }
    }
}

impl VideoSource for CameraSource {
    closed spec fn source_id(&self) -> SourceId {
        self.id
    }

    closed spec fn source_name(&self) -> Seq<char> {
        self.name@
    }

    closed spec fn started(&self) -> bool {
        self.started
    }

    fn id(&self) -> (id: SourceId) {
        self.id
    }

    fn name(&self) -> (name: &str) {
        self.name.as_str()
    }

    fn start(&mut self) -> (r: Result<Option<CameraIndex>, String>)
        ensures
            r == Ok::<Option<CameraIndex>, String>(
                if old(self).started() {
                    None
                } else {
                    Some(old(self).device())
                },
            ),
            final(self).device() == old(self).device(),
    {
        if self.started {
            return Ok(None);
        }
        self.started = true;
        Ok(Some(self.index.clone()))
    }

    fn stop(&mut self)
        ensures
            final(self).device() == old(self).device(),
    {
        self.started = false;
    }

    fn get_frame(&mut self, received: Vec<Result<FrameData, String>>) -> (r: Result<
        FrameReply,
        String,
    >)
        ensures
            r == frame_reply(old(self).started(), old(self).device(), received@),
            final(self).started(),
            final(self).device() == old(self).device(),
    {
        match self.start() {
            Err(message) => Err(message),
            Ok(Some(index)) => Ok(FrameReply::Start(index)),
            Ok(None) => match newest_delivery(received) {
                Ok(frame) => Ok(FrameReply::Frame(frame)),
                Err(message) => Err(message),
            },
        }
    }
}

/// The message that there is no such source.
pub open spec fn not_found(id: SourceId) -> Seq<char> {
    "Source SourceId("@ + crate::text::decimal(id.0 as nat) + ") not found"@
}

/// Makes the message that there is no such source.
fn not_found_message(id: SourceId) -> (message: String)
    ensures
        message@ == not_found(id),
{
    join3("Source SourceId(", decimal_text(id.0 as u128).as_str(), ") not found")
}

/// Holds a source for each camera that was found.
pub struct SourceManager {
    sources: Vec<CameraSource>,
    source_infos: Vec<SourceInfo>,
}

impl SourceManager {
    /// The name of each source, in the order of their numbers.
    pub closed spec fn names(&self) -> Seq<Seq<char>> {
        self.sources@.map_values(|s: CameraSource| s.source_name())
    }

    /// The device of each source.
    pub closed spec fn devices(&self) -> Seq<CameraIndex> {
        self.sources@.map_values(|s: CameraSource| s.device())
    }

    /// Whether each source has been started.
    pub closed spec fn started(&self) -> Seq<bool> {
        self.sources@.map_values(|s: CameraSource| s.started())
    }

    /// The sources are numbered in the order in which their cameras were found, and there
    /// is an entry for display for each.
    pub closed spec fn wf(&self) -> bool {
        &&& self.sources@.len() == self.source_infos@.len()
        &&& forall|i: int|
            0 <= i < self.sources@.len() ==> (#[trigger] self.sources@[i]).source_id().0 == i
        &&& forall|i: int|
            0 <= i < self.sources@.len() ==> (#[trigger] self.source_infos@[i]).id.0 == i
                && self.source_infos@[i].name@ == self.sources@[i].source_name()
    }

    /// Makes a source for each of the listed devices, none of which is started.
    pub fn new(devices: Vec<DeviceInfo>) -> (m: Self)
        ensures
            m.wf(),
            m.names() == devices@.map_values(|d: DeviceInfo| d.name@),
            m.devices() == devices@.map_values(|d: DeviceInfo| d.index),
            m.started() == devices@.map_values(|d: DeviceInfo| false),
    {
        let mut sources: Vec<CameraSource> = Vec::new();
        let mut source_infos: Vec<SourceInfo> = Vec::new();
        let n: usize = devices.len();
        let mut i: usize = 0;
        while i < n
            invariant
                i <= n,
                n == devices@.len(),
                sources@.len() == i,
                source_infos@.len() == i,
                forall|j: int|
                    0 <= j < i ==> {
                        &&& (#[trigger] sources@[j]).source_id().0 == j
                        &&& sources@[j].source_name() == devices@[j].name@
                        &&& sources@[j].device() == devices@[j].index
                        &&& !sources@[j].started()
                    },
                forall|j: int|
                    0 <= j < i ==> (#[trigger] source_infos@[j]).id.0 == j && source_infos@[j].name@
                        == devices@[j].name@,
            decreases n - i,
        {
            let id = SourceId(i);
            source_infos.push(SourceInfo { id, name: devices[i].name.clone() });
            sources.push(
                CameraSource::new(id, devices[i].name.clone(), devices[i].index.clone()),
            );
            i = i + 1;
        }
        let m = SourceManager { sources, source_infos };
        assert(m.names() =~= devices@.map_values(|d: DeviceInfo| d.name@));
        assert(m.devices() =~= devices@.map_values(|d: DeviceInfo| d.index));
        assert(m.started() =~= devices@.map_values(|d: DeviceInfo| false));
        m
    }

    /// What is known of the sources.
    pub fn available_sources(&self) -> (infos: &[SourceInfo])
        requires
            self.wf(),
        ensures
            infos@.len() == self.names().len(),
            forall|i: int|
                0 <= i < infos@.len() ==> (#[trigger] infos@[i]).id.0 == i && infos@[i].name@
                    == self.names()[i],
    {
        self.source_infos.as_slice()
    }

    /// Starts a source. Where it has not been started yet, the device is returned on which
    /// a capture thread has to be started.
    pub fn open_source(&mut self, source_id: SourceId) -> (r: Result<Option<CameraIndex>, String>)
        requires
            old(self).wf(),
        ensures
            final(self).wf(),
            final(self).names() == old(self).names(),
            final(self).devices() == old(self).devices(),
            if source_id.0 < old(self).started().len() {
                &&& final(self).started() == old(self).started().update(source_id.0 as int, true)
                &&& r == Ok::<Option<CameraIndex>, String>(
                    if old(self).started()[source_id.0 as int] {
                        None
                    } else {
                        Some(old(self).devices()[source_id.0 as int])
                    },
                )
            } else {
                &&& final(self).started() == old(self).started()
                &&& r matches Err(message) && message@ == not_found(source_id)
            },
    {
        if source_id.0 >= self.sources.len() {
            return Err(not_found_message(source_id));
        }
        let r = self.sources[source_id.0].start();
        assert(self.names() =~= old(self).names());
        assert(self.devices() =~= old(self).devices());
        assert(self.started() =~= old(self).started().update(source_id.0 as int, true));
        r
    }

    /// Stops a source, if there is such a source.
    pub fn close_source(&mut self, source_id: SourceId)
        requires
            old(self).wf(),
        ensures
            final(self).wf(),
            final(self).names() == old(self).names(),
            final(self).devices() == old(self).devices(),
            final(self).started() == if source_id.0 < old(self).started().len() {
                old(self).started().update(source_id.0 as int, false)
            } else {
                old(self).started()
            },
    {
        if source_id.0 < self.sources.len() {
            self.sources[source_id.0].stop();
            assert(self.names() =~= old(self).names());
            assert(self.devices() =~= old(self).devices());
            assert(self.started() =~= old(self).started().update(source_id.0 as int, false));
        }
    }

    /// Answers a request for a frame of a source, of whose capture thread `received` has
    /// come since the last request. A source that has not been started is started first.
    pub fn get_frame(
        &mut self,
        source_id: SourceId,
        received: Vec<Result<FrameData, String>>,
    ) -> (r: Result<FrameReply, String>)
        requires
            old(self).wf(),
        ensures
            final(self).wf(),
            final(self).names() == old(self).names(),
            final(self).devices() == old(self).devices(),
            if source_id.0 < old(self).started().len() {
                &&& final(self).started() == old(self).started().update(source_id.0 as int, true)
                &&& r == frame_reply(
                    old(self).started()[source_id.0 as int],
                    old(self).devices()[source_id.0 as int],
                    received@,
                )
            } else {
                &&& final(self).started() == old(self).started()
                &&& r matches Err(message) && message@ == not_found(source_id)
            },
    {
        if source_id.0 >= self.sources.len() {
            return Err(not_found_message(source_id));
        }
        let r = self.sources[source_id.0].get_frame(received);
        assert(self.names() =~= old(self).names());
        assert(self.devices() =~= old(self).devices());
        assert(self.started() =~= old(self).started().update(source_id.0 as int, true));
        r
    }

    /// The numbers of all sources, started or not.
    pub fn active_source_ids(&self) -> (ids: Vec<SourceId>)
        requires
            self.wf(),
        ensures
            ids@ == Seq::new(self.names().len(), |i: int| SourceId(i as usize)),
    {
        let mut ids: Vec<SourceId> = Vec::new();
        let n: usize = self.source_infos.len();
        let mut i: usize = 0;
        while i < n
            invariant
                self.wf(),
                i <= n,
                n == self.source_infos@.len(),
                ids@ =~= Seq::new(i as nat, |j: int| SourceId(j as usize)),
            decreases n - i,
        {
            ids.push(self.source_infos[i].id);
            i = i + 1;
        }
        ids
    }
}

/// A manager has a name, a device and a state for each of its sources.
pub proof fn law_tables_agree(m: &SourceManager)
    ensures
        m.names().len() == m.devices().len() == m.started().len(),
{
}

/// Stopping a source undoes starting it, and starting it again does nothing more.
pub proof fn law_stop_undoes_start(started: Seq<bool>, id: SourceId)
    requires
        id.0 < started.len(),
    ensures
        !started[id.0 as int] ==> started.update(id.0 as int, true).update(id.0 as int, false)
            == started,
        started[id.0 as int] ==> started.update(id.0 as int, true) == started,
{
    assert(!started[id.0 as int] ==> started.update(id.0 as int, true).update(id.0 as int, false)
        =~= started);
    assert(started[id.0 as int] ==> started.update(id.0 as int, true) =~= started);
}

/// A source that had to be started for a request answers the next one from what its
/// capture thread delivered.
pub proof fn law_started_source_answers(
    device: CameraIndex,
    received: Seq<Result<FrameData, String>>,
)
    ensures
        frame_reply(false, device, received) == Ok::<FrameReply, String>(FrameReply::Start(device)),
        frame_reply(true, device, received) is Ok <==> crate::capture::newest(received) is Ok,
        frame_reply(true, device, Seq::empty()) == Ok::<FrameReply, String>(
            FrameReply::Frame(None),
        ),
{
}

/// A source that has been started answers with the last of the waiting frames, be there one
/// or many, as long as no message waits, and with no frame where nothing waits.
pub proof fn law_source_answers_with_the_last_frame(
    device: CameraIndex,
    received: Seq<Result<FrameData, String>>,
)
    requires
        forall|i: int| 0 <= i < received.len() ==> #[trigger] received[i] is Ok,
    ensures
        received.len() == 0 ==> frame_reply(true, device, received) == Ok::<FrameReply, String>(
            FrameReply::Frame(None),
        ),
        received.len() > 0 ==> frame_reply(true, device, received) == Ok::<FrameReply, String>(
            FrameReply::Frame(Some(received[received.len() - 1]->Ok_0)),
        ),
{
    crate::capture::law_newest_is_the_last_frame(received);
}

/// A source that has been started answers with the last of the waiting messages, whatever
/// frames wait before or behind it.
pub proof fn law_source_answers_with_the_last_message(
    device: CameraIndex,
    received: Seq<Result<FrameData, String>>,
    j: int,
)
    requires
        0 <= j < received.len(),
        received[j] is Err,
        forall|i: int| j < i < received.len() ==> #[trigger] received[i] is Ok,
    ensures
        frame_reply(true, device, received) == Err::<FrameReply, String>(received[j]->Err_0),
{
    crate::capture::law_last_message_wins(received, j);
}

/// The message that a source was not found names that source.
pub proof fn law_message_names_the_source(id: SourceId)
    ensures
        ({
            let m = not_found(id);
            let n = m.len() as int;
            &&& n >= 28
            &&& m.subrange(0, 16) == "Source SourceId("@
            &&& crate::text::number(m.subrange(16, n - 11)) == id.0
            &&& m.subrange(n - 11, n) == ") not found"@
        }),
{
    reveal_strlit("Source SourceId(");
    reveal_strlit(") not found");
    let d = crate::text::decimal(id.0 as nat);
    crate::text::law_decimal_reads_back(id.0 as nat);
    let m = not_found(id);
    let n = m.len() as int;
    assert(m.subrange(0, 16) =~= "Source SourceId("@);
    assert(m.subrange(16, n - 11) =~= d);
    assert(m.subrange(n - 11, n) =~= ") not found"@);
}

} // verus!
