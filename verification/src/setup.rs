//! Setting the engine up in an application, once.

use crate::channel::{create_compute_channels, ComputeReceiver, ComputeSender};
use crate::plugin::ComputeRetryLimit;
use crate::traits::ComputeTrait;
use std::marker::PhantomData;
use vstd::prelude::*;

verus! {

/// What has been set up in an application so far.
pub struct ComputeApp {
    main_plugin_added: bool,
}

impl ComputeApp {
    /// Whether the part that all data types share has been set up.
    pub closed spec fn main_plugin_added(&self) -> bool {
        self.main_plugin_added
    }

    /// An application in which nothing has been set up.
    pub fn new() -> (app: Self)
        ensures
            !app.main_plugin_added(),
    {
        ComputeApp { main_plugin_added: false }
    }

    /// Whether the part that all data types share has been set up.
    pub fn is_main_plugin_added(&self) -> (added: bool)
        ensures
            added == self.main_plugin_added(),
    {
        self.main_plugin_added
    }
}

/// The part of the engine that all data types share.
#[derive(Copy, Clone, Debug, PartialEq, Eq, Default)]
pub struct MainComputePlugin;

impl MainComputePlugin {
    /// Sets the shared part up, unless that has been done.  Returns whether
    /// it was done now: then the caller registers what belongs to it.
    pub fn build(&self, app: &mut ComputeApp) -> (first: bool)
        ensures
            final(app).main_plugin_added(),
            first == !old(app).main_plugin_added(),
    {
        if app.main_plugin_added {
            return false;
        }
        app.main_plugin_added = true;
        true
    }
}

/// The engine for the data type `T`, with the dispatch in the render graph.
#[verifier::reject_recursive_types(T)]
pub struct ComputePlugin<T: ComputeTrait> {
    _marker: PhantomData<T>,
}

impl<T: ComputeTrait> Default for ComputePlugin<T> {
    fn default() -> Self {
        ComputePlugin { _marker: PhantomData }
    }
}

/// What the engine of one data type adds to an application.
#[verifier::reject_recursive_types(T)]
pub struct ComputeSetup<T: ComputeTrait> {
    /// Whether the shared part was set up along with it.
    pub main_plugin: bool,
    /// The end of the channel that goes to the device context.
    pub sender: ComputeSender<T>,
    /// The end of the channel that stays with the owner.
    pub receiver: ComputeReceiver<T>,
}

impl<T: ComputeTrait> ComputePlugin<T> {
    /// Sets the engine up for `T`: the shared part, unless that has been
    /// done, and the channel between the device context and the owner.
    pub fn build(&self, app: &mut ComputeApp) -> (setup: ComputeSetup<T>)
        ensures
            final(app).main_plugin_added(),
            setup.main_plugin == !old(app).main_plugin_added(),
    {
        let main_plugin = MainComputePlugin.build(app);
        let (sender, receiver) = create_compute_channels::<T>();
        ComputeSetup { main_plugin, sender, receiver }
    }
}

/// The engine for the data type `T`, with a worker that runs each job at
/// once.
#[verifier::reject_recursive_types(T)]
pub struct ComputeWorkerPlugin<T: ComputeTrait> {
    _marker: PhantomData<T>,
}

impl<T: ComputeTrait> Default for ComputeWorkerPlugin<T> {
    fn default() -> Self {
        ComputeWorkerPlugin { _marker: PhantomData }
    }
}

impl<T: ComputeTrait> ComputeWorkerPlugin<T> {
    /// Sets the worker up for `T`: the shared part, unless that has been
    /// done, and the retry limit, which is 5 until the application sets
    /// another.  Returns the limit and whether the shared part was set up
    /// along with it.
    pub fn build(&self, app: &mut ComputeApp) -> (setup: (ComputeRetryLimit<T>, bool))
        ensures
            final(app).main_plugin_added(),
            setup.0.count == 5,
            setup.1 == !old(app).main_plugin_added(),
    {
        let main_plugin = MainComputePlugin.build(app);
        (ComputeRetryLimit::default(), main_plugin)
    }
}

} // verus!
