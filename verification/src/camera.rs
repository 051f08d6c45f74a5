//! Camera management.
//!
//! Keeps the list of the cameras that were found and the set of those that are
//! streaming. The capture threads and their channels are driven from outside, on the
//! decisions taken here.

use crate::capture::{newest_delivery, CameraIndex, DeviceInfo, FrameReply};
use crate::text::{decimal_text, join3};
use std::collections::HashSet;
use vstd::prelude::*;

pub use crate::capture::FrameData;

verus! {

broadcast use vstd::std_specs::hash::group_hash_axioms;

/// Type-safe wrapper around the number of a camera.
#[derive(Debug, Clone, Copy, PartialEq, Eq, Structural, Hash)]
pub struct CameraId(pub usize);

/// What is known of a camera.
#[derive(Debug, Clone)]
pub struct CameraInfo {
    pub id: CameraId,
    pub name: String,
    pub index: CameraIndex,
}

/// The message that there is no such camera.
pub open spec fn not_found(id: CameraId) -> Seq<char> {
    "Camera CameraId("@ + crate::text::decimal(id.0 as nat) + ") not found"@
}

/// The cameras that are streaming once `id` has been opened, of `found` cameras.
pub open spec fn opened(active: Set<usize>, found: nat, id: CameraId) -> Set<usize> {
    if id.0 < found {
        active.insert(id.0)
    } else {
        active
    }
}

/// Manages the cameras, and which of them are streaming.
pub struct CameraManager {
    available_cameras: Vec<CameraInfo>,
    active: HashSet<usize>,
}

impl CameraManager {
    /// The cameras that were found.
    pub closed spec fn cameras(&self) -> Seq<CameraInfo> {
        self.available_cameras@
    }

    /// The numbers of the cameras that are streaming.
    pub closed spec fn active(&self) -> Set<usize> {
        self.active@
    }

    /// The cameras are numbered in the order in which they were found, and only a camera
    /// that was found can be streaming.
    pub open spec fn wf(&self) -> bool {
        &&& forall|i: int|
            0 <= i < self.cameras().len() ==> (#[trigger] self.cameras()[i]).id.0 == i
        &&& forall|n: usize| #[trigger] self.active().contains(n) ==> n < self.cameras().len()
        &&& self.active().finite()
    }

    /// Makes a manager of the listed devices, none of which is streaming.
    pub fn new(devices: Vec<DeviceInfo>) -> (m: Self)
        ensures
            m.wf(),
            m.active() == Set::<usize>::empty(),
            m.cameras() == Seq::new(
                devices@.len(),
                |i: int|
                    (CameraInfo {
                        id: CameraId(i as usize),
                        name: devices@[i].name,
                        index: devices@[i].index,
                    }),
            ),
    {
        let mut available_cameras: Vec<CameraInfo> = Vec::new();
        let n: usize = devices.len();
        let mut i: usize = 0;
        while i < n
            invariant
                i <= n,
                n == devices@.len(),
                available_cameras@ =~= Seq::new(
                    i as nat,
                    |j: int|
                        (CameraInfo {
                            id: CameraId(j as usize),
                            name: devices@[j].name,
                            index: devices@[j].index,
                        }),
                ),
            decreases n - i,
        {
            available_cameras.push(
                CameraInfo {
                    id: CameraId(i),
                    name: devices[i].name.clone(),
                    index: devices[i].index.clone(),
                },
            );
            i = i + 1;
        }
        CameraManager { available_cameras, active: HashSet::new() }
    }

    /// The cameras that were found.
    pub fn available_cameras(&self) -> (cameras: &[CameraInfo])
        ensures
            cameras@ == self.cameras(),
    {
        self.available_cameras.as_slice()
    }

    /// Opens a camera. Where it is not streaming yet, the device is returned on which a
    /// capture thread has to be started; where it is, there is nothing to do.
    pub fn open_camera(&mut self, camera_id: CameraId) -> (r: Result<Option<CameraIndex>, String>)
        requires
            old(self).wf(),
        ensures
            final(self).wf(),
            final(self).cameras() == old(self).cameras(),
            final(self).active() == opened(
                old(self).active(),
                old(self).cameras().len(),
                camera_id,
            ),
            match r {
                Ok(None) => old(self).active().contains(camera_id.0),
                Ok(Some(index)) => {
                    &&& !old(self).active().contains(camera_id.0)
                    &&& camera_id.0 < old(self).cameras().len()
                    &&& index == old(self).cameras()[camera_id.0 as int].index
                },
                Err(message) => {
                    &&& camera_id.0 >= old(self).cameras().len()
                    &&& message@ == not_found(camera_id)
                },
            },
    {
        if self.active.contains(&camera_id.0) {
            assert(self.active() =~= old(self).active().insert(camera_id.0));
            return Ok(None);
        }
        if camera_id.0 >= self.available_cameras.len() {
            return Err(
                join3(
                    "Camera CameraId(",
                    decimal_text(camera_id.0 as u128).as_str(),
                    ") not found",
                ),
            );
        }
        let index = self.available_cameras[camera_id.0].index.clone();
        self.active.insert(camera_id.0);
        Ok(Some(index))
    }

    /// Closes a camera.
    pub fn close_camera(&mut self, camera_id: CameraId)
        requires
            old(self).wf(),
        ensures
            final(self).wf(),
            final(self).cameras() == old(self).cameras(),
            final(self).active() == old(self).active().remove(camera_id.0),
    {
        self.active.remove(&camera_id.0);
    }

    /// Answers a request for a frame of a camera, of whose capture thread `received` has
    /// come since the last request. A camera that is not streaming is opened first.
    pub fn get_frame(
        &mut self,
        camera_id: CameraId,
        received: Vec<Result<FrameData, String>>,
    ) -> (r: Result<FrameReply, String>)
        requires
            old(self).wf(),
        ensures
            final(self).wf(),
            final(self).cameras() == old(self).cameras(),
            final(self).active() == opened(
                old(self).active(),
                old(self).cameras().len(),
                camera_id,
            ),
            if camera_id.0 >= old(self).cameras().len() {
                r matches Err(message) && message@ == not_found(camera_id)
            } else if old(self).active().contains(camera_id.0) {
                match crate::capture::newest(received@) {
                    Ok(frame) => r == Ok::<FrameReply, String>(FrameReply::Frame(frame)),
                    Err(message) => r == Err::<FrameReply, String>(message),
                }
            } else {
                r == Ok::<FrameReply, String>(
                    FrameReply::Start(old(self).cameras()[camera_id.0 as int].index),
                )
            },
            camera_id.0 < old(self).cameras().len() ==> r == crate::source::frame_reply(
                old(self).active().contains(camera_id.0),
                old(self).cameras()[camera_id.0 as int].index,
                received@,
            ),
    {
        match self.open_camera(camera_id) {
            Err(message) => Err(message),
            Ok(Some(index)) => Ok(FrameReply::Start(index)),
            Ok(None) => match newest_delivery(received) {
                Ok(frame) => Ok(FrameReply::Frame(frame)),
                Err(message) => Err(message),
            },
        }
    }

    /// The cameras that are streaming, in no particular order.
    pub fn active_camera_ids(&self) -> (ids: Vec<CameraId>)
        ensures
            ids@.no_duplicates(),
            forall|id: CameraId| #[trigger] ids@.contains(id) <==> self.active().contains(id.0),
            ids@.len() == self.active().len(),
    {
        let mut ids: Vec<CameraId> = Vec::new();
        let ghost keys = vstd::std_specs::iter::IteratorSpec::remaining(
            &vstd::std_specs::hash::spec_hash_keys_iter(&self.active),
        );
        for n in iter: self.active.iter()
            invariant
                iter.seq() == keys,
                ids@ == keys.take(iter.index()).map_values(|n: &usize| CameraId(*n)),
        {
            ids.push(CameraId(*n));
        }
        proof {
            assert forall|id: CameraId| #[trigger] ids@.contains(id) <==> self.active().contains(
                id.0,
            ) by {
                assert(self.active@ == keys.unref().to_set());
                if ids@.contains(id) {
                    let j = choose|j: int| 0 <= j < ids@.len() && ids@[j] == id;
                    assert(keys.unref()[j] == id.0);
                }
                if self.active().contains(id.0) {
                    let j = choose|j: int| 0 <= j < keys.unref().len() && keys.unref()[j] == id.0;
                    assert(ids@[j] == id);
                }
            }
        }
        ids
    }
}

/// Opening a camera that is streaming already does nothing, so that opening it twice is
/// opening it once.
pub proof fn law_reopening_does_nothing(active: Set<usize>, found: nat, id: CameraId)
    ensures
        active.contains(id.0) ==> opened(active, found, id) == active,
        opened(opened(active, found, id), found, id) == opened(active, found, id),
{
    assert(active.contains(id.0) ==> active.insert(id.0) =~= active);
    assert(active.insert(id.0).insert(id.0) =~= active.insert(id.0));
}

/// Closing a camera undoes opening it.
pub proof fn law_close_undoes_open(active: Set<usize>, found: nat, id: CameraId)
    requires
        !active.contains(id.0),
    ensures
        opened(active, found, id).remove(id.0) == active,
{
    assert(opened(active, found, id).remove(id.0) =~= active);
}

/// Opening or closing a camera leaves all others as they are.
pub proof fn law_other_cameras_unchanged(
    active: Set<usize>,
    found: nat,
    id: CameraId,
    other: CameraId,
)
    requires
        id != other,
    ensures
        opened(active, found, id).contains(other.0) == active.contains(other.0),
        active.remove(id.0).contains(other.0) == active.contains(other.0),
{
}

/// A camera that was opened, by itself or for a request, is streaming at the next request.
pub proof fn law_started_camera_is_streaming(active: Set<usize>, found: nat, id: CameraId)
    requires
        id.0 < found,
    ensures
        opened(active, found, id).contains(id.0),
{
}

/// Opening a camera that was not found leaves all cameras as they are, and opening one that
/// was found makes it stream, whatever was streaming before.
pub proof fn law_only_found_cameras_open(active: Set<usize>, found: nat, id: CameraId, n: usize)
    ensures
        opened(active, found, id).contains(n) <==> active.contains(n) || (n == id.0 && n < found),
{
}

/// The message that a camera was not found names that camera.
pub proof fn law_message_names_the_camera(id: CameraId)
    ensures
        ({
            let m = not_found(id);
            let n = m.len() as int;
            &&& n >= 28
            &&& m.subrange(0, 16) == "Camera CameraId("@
            &&& crate::text::number(m.subrange(16, n - 11)) == id.0
            &&& m.subrange(n - 11, n) == ") not found"@
        }),
{
    reveal_strlit("Camera CameraId(");
    reveal_strlit(") not found");
    let d = crate::text::decimal(id.0 as nat);
    crate::text::law_decimal_reads_back(id.0 as nat);
    let m = not_found(id);
    let n = m.len() as int;
    assert(m.subrange(0, 16) =~= "Camera CameraId("@);
    assert(m.subrange(16, n - 11) =~= d);
    assert(m.subrange(n - 11, n) =~= ") not found"@);
}

} // verus!
