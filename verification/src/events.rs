//! The events that start a compute job and report on it.

use crate::traits::{AssetId, ComputeTrait};
use std::marker::PhantomData;
use vstd::prelude::*;

verus! {

/// The number of workgroups that one dispatch covers in each dimension.
#[derive(Copy, Clone, Debug, PartialEq, Eq, Structural)]
pub struct Workgroups {
    pub x: u32,
    pub y: u32,
    pub z: u32,
}

impl Workgroups {
    /// A dispatch of zero workgroups in some dimension does nothing and is
    /// rejected.
    pub open spec fn is_dispatchable(self) -> bool {
        self.x != 0 && self.y != 0 && self.z != 0
    }

    pub fn new(x: u32, y: u32, z: u32) -> (workgroups: Self)
        ensures
            workgroups == (Workgroups { x, y, z }),
    {
        Workgroups { x, y, z }
    }

    /// Whether every dimension is at least one.
    pub fn dispatchable(&self) -> (ok: bool)
        ensures
            ok == self.is_dispatchable(),
    {
        self.x != 0 && self.y != 0 && self.z != 0
    }
}

/// A pass to run a compute shader.
#[derive(Debug, PartialEq, Eq)]
pub struct Pass {
    /// Entry point for the pipeline; there is one pipeline per entry point.
    pub entry: &'static str,
    /// Workgroup sizes to dispatch under that pipeline, one dispatch each.
    pub workgroups: Vec<Workgroups>,
}

/// What a [`Pass`] holds.
pub struct PassView {
    pub entry: Seq<char>,
    pub workgroups: Seq<Workgroups>,
}

impl View for Pass {
    type V = PassView;

    open spec fn view(&self) -> PassView {
        PassView { entry: self.entry@, workgroups: self.workgroups@ }
    }
}

/// The views of `passes`, in order.
pub open spec fn pass_views(passes: Seq<Pass>) -> Seq<PassView> {
    passes.map_values(|p: Pass| p@)
}

impl Clone for Pass {
    fn clone(&self) -> (pass: Self)
        ensures
            pass@ == self@,
    {
        let mut workgroups: Vec<Workgroups> = Vec::new();
        let mut i: usize = 0;
        while i < self.workgroups.len()
            invariant
                i <= self.workgroups@.len(),
                workgroups@ == self.workgroups@.take(i as int),
            decreases self.workgroups@.len() - i,
        {
            workgroups.push(self.workgroups[i]);
            assert(self.workgroups@.take(i + 1) == self.workgroups@.take(i as int).push(
                self.workgroups@[i as int],
            ));
            i += 1;
        }
        assert(self.workgroups@.take(i as int) == self.workgroups@);
        Pass { entry: self.entry, workgroups }
    }
}

impl Pass {
    /// A pass that dispatches `workgroups` once under `entry`.
    pub fn new(entry: &'static str, workgroups: Workgroups) -> (pass: Self)
        ensures
            pass@ == (PassView { entry: entry@, workgroups: seq![workgroups] }),
    {
        let sizes = vec![workgroups];
        assert(sizes@ =~= seq![workgroups]);
        Pass { entry, workgroups: sizes }
    }
}

/// Copies `passes`.
pub fn clone_passes(passes: &Vec<Pass>) -> (copy: Vec<Pass>)
    ensures
        pass_views(copy@) == pass_views(passes@),
{
    let mut copy: Vec<Pass> = Vec::new();
    let mut i: usize = 0;
    while i < passes.len()
        invariant
            i <= passes@.len(),
            pass_views(copy@) == pass_views(passes@).take(i as int),
        decreases passes@.len() - i,
    {
        let pass = passes[i].clone();
        let ghost before = copy@;
        copy.push(pass);
        assert(pass_views(copy@) =~= pass_views(before).push(pass@));
        assert(pass_views(passes@).take(i + 1) =~= pass_views(passes@).take(i as int).push(
            passes@[i as int]@,
        ));
        i += 1;
    }
    assert(pass_views(passes@).take(i as int) =~= pass_views(passes@));
    copy
}

/// Event to trigger a compute shader; it may name several passes, each with
/// several workgroup sizes.
#[verifier::reject_recursive_types(T)]
pub struct ComputeEvent<T: ComputeTrait> {
    pub passes: Vec<Pass>,
    /// Whether the application wants to do without the copy back to the
    /// owner.  The engine keeps the wish with the job.
    pub dont_copy: bool,
    /// How often the job has been put back because its bindings could not be
    /// prepared.
    pub retry: u32,
    pub _marker: PhantomData<T>,
}

/// What a job holds: its passes, and the two settings.
pub struct ComputeEventView {
    pub passes: Seq<PassView>,
    pub dont_copy: bool,
    pub retry: u32,
}

impl<T: ComputeTrait> View for ComputeEvent<T> {
    type V = ComputeEventView;

    open spec fn view(&self) -> ComputeEventView {
        ComputeEventView {
            passes: pass_views(self.passes@),
            dont_copy: self.dont_copy,
            retry: self.retry,
        }
    }
}

/// A job of the single pass `pass` that copies back and was never retried.
pub open spec fn single_pass_job(pass: PassView) -> ComputeEventView {
    ComputeEventView { passes: seq![pass], dont_copy: false, retry: 0 }
}

impl<T: ComputeTrait> Clone for ComputeEvent<T> {
    fn clone(&self) -> (event: Self)
        ensures
            event@ == self@,
    {
        ComputeEvent {
            passes: clone_passes(&self.passes),
            dont_copy: self.dont_copy,
            retry: self.retry,
            _marker: PhantomData,
        }
    }
}

/// `event` is a job of one pass, which dispatches `workgroups` once; it
/// copies back and was never retried.
pub open spec fn dispatches_once(event: ComputeEventView, workgroups: Workgroups) -> bool {
    &&& event.passes.len() == 1
    &&& event.passes[0].workgroups == seq![workgroups]
    &&& !event.dont_copy
    &&& event.retry == 0
}

impl<T: ComputeTrait> ComputeEvent<T> {
    /// A job that dispatches `workgroups` once under the first entry point
    /// that `T` declares.
    pub fn new(workgroups: Workgroups) -> (event: Self)
        ensures
            dispatches_once(event@, workgroups),
    {
        let entries = T::entry_points();
        Self::new_first(&entries, workgroups)
    }

    /// A job that dispatches `workgroups` once under the first of the entry
    /// points `entries`.
    pub fn new_first(entries: &Vec<&'static str>, workgroups: Workgroups) -> (event: Self)
        requires
            entries@.len() > 0,
        ensures
            event@ == single_pass_job(
                PassView { entry: entries@[0]@, workgroups: seq![workgroups] },
            ),
    {
        Self::new_named(entries[0], workgroups)
    }

    /// A job that dispatches `workgroups` once under the entry point `name`.
    pub fn new_named(name: &'static str, workgroups: Workgroups) -> (event: Self)
        ensures
            event@ == single_pass_job(PassView { entry: name@, workgroups: seq![workgroups] }),
    {
        let pass = Pass::new(name, workgroups);
        let passes = vec![pass];
        assert(pass_views(passes@) =~= seq![pass@]);
        ComputeEvent { passes, dont_copy: false, retry: 0, _marker: PhantomData }
    }

    /// A job that dispatches `x` by `y` by `z` workgroups once under the first
    /// entry point that `T` declares.
    pub fn new_xyz(x: u32, y: u32, z: u32) -> (event: Self)
        ensures
            dispatches_once(event@, Workgroups { x, y, z }),
    {
        Self::new(Workgroups::new(x, y, z))
    }

    /// Appends a pass that dispatches `workgroup` once under `entry`.
    pub fn add_pass(&mut self, entry: &'static str, workgroup: Workgroups) -> (event: &mut Self)
        ensures
            event@ == (ComputeEventView {
                passes: old(self)@.passes.push(
                    PassView { entry: entry@, workgroups: seq![workgroup] },
                ),
                ..old(self)@
            }),
            *final(self) == *final(event),
    {
        let pass = Pass::new(entry, workgroup);
        let ghost before = self.passes@;
        self.passes.push(pass);
        assert(pass_views(self.passes@) =~= pass_views(before).push(pass@));
        self
    }
}

impl<T: ComputeTrait> Default for ComputeEvent<T> {
    /// A job that dispatches a single workgroup under the first entry point
    /// that `T` declares.
    fn default() -> (event: Self)
        ensures
            dispatches_once(event@, Workgroups { x: 1, y: 1, z: 1 }),
    {
        Self::new(Workgroups::new(1, 1, 1))
    }
}

/// Puts a job back in the queue after its bindings could not be prepared.
#[verifier::reject_recursive_types(T)]
pub struct RequeueComputeEvent<T: ComputeTrait> {
    pub passes: Vec<Pass>,
    /// How often the job has been put back, this time included.
    pub retry: u32,
    pub _marker: PhantomData<T>,
}

/// Notifies the owner that a job has completed and its results are visible.
#[verifier::reject_recursive_types(T)]
pub struct ComputeComplete<T: ComputeTrait> {
    pub dont_copy: bool,
    pub _marker: PhantomData<T>,
}

impl<T: ComputeTrait> Default for ComputeComplete<T> {
    fn default() -> (complete: Self)
        ensures
            !complete.dont_copy,
    {
        ComputeComplete { dont_copy: false, _marker: PhantomData }
    }
}

/// Notifies the owner that the shader source of `T` has changed.
#[verifier::reject_recursive_types(T)]
pub struct ComputeShaderModified<T: ComputeTrait> {
    pub _marker: PhantomData<T>,
}

impl<T: ComputeTrait> Default for ComputeShaderModified<T> {
    fn default() -> Self {
        ComputeShaderModified { _marker: PhantomData }
    }
}

/// A change that the asset store reports.
#[derive(Copy, Clone, Debug, PartialEq, Eq, Structural)]
pub enum AssetEvent {
    Added { id: AssetId },
    Modified { id: AssetId },
    Removed { id: AssetId },
    Unused { id: AssetId },
    LoadedWithDependencies { id: AssetId },
}

/// Whether one of `events` reports that the asset `id` was modified.
pub open spec fn reports_modified(events: Seq<AssetEvent>, id: AssetId) -> bool {
    events.contains(AssetEvent::Modified { id })
}

/// Looks through the changes of one cycle for a modification of the shader
/// `asset_id` of `T`, and returns the notification to send if there is one.
pub fn shader_modified<T: ComputeTrait>(events: &Vec<AssetEvent>, asset_id: AssetId) -> (notify:
    Option<ComputeShaderModified<T>>)
    ensures
        notify.is_some() == reports_modified(events@, asset_id),
{
    let mut i: usize = 0;
    while i < events.len()
        invariant
            i <= events@.len(),
            forall|j: int| 0 <= j < i ==> events@[j] != (AssetEvent::Modified { id: asset_id }),
        decreases events@.len() - i,
    {
        let found = match events[i] {
            AssetEvent::Modified { id } => id == asset_id,
            _ => false,
        };
        if found {
            return Some(ComputeShaderModified::default());
        }
        i += 1;
    }
    None
}

} // verus!
