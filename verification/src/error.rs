//! What can go wrong with a compute job.

use vstd::prelude::*;
use vstd::string::StringExecFns;

verus! {

/// The result of an operation of the engine.
pub type Result<T> = std::result::Result<T, Error>;

/// A staging buffer of a job: that of a binding slot, or that of an image,
/// named by its position among the job's images.
#[derive(Copy, Clone, Debug, PartialEq, Eq, Structural)]
pub enum StagingTarget {
    Slot(u32),
    Image(usize),
}

/// Why a job, or a pass of it, did not run to its end.
#[derive(Debug, PartialEq, Eq)]
pub enum Error {
    /// The data type has no pipeline for the entry point of this name.
    MissingPipeline(String),
    /// The pipeline is still being compiled.
    PipelineNotReady,
    /// A resource that the bindings depend on was not available yet.
    BindGroupPrepareFailed,
    /// The engine lost track of a buffer that it needs for the readback.
    StagingBufferMissing(StagingTarget),
    /// The device could not map a staging buffer for reading.
    MappingFailed,
    /// The owner has not drained the channel of results.
    ChannelFull,
}

/// What an [`Error`] holds.
pub enum ErrorView {
    MissingPipeline(Seq<char>),
    PipelineNotReady,
    BindGroupPrepareFailed,
    StagingBufferMissing(StagingTarget),
    MappingFailed,
    ChannelFull,
}

impl View for Error {
    type V = ErrorView;

    open spec fn view(&self) -> ErrorView {
        match *self {
            Error::MissingPipeline(name) => ErrorView::MissingPipeline(name@),
            Error::PipelineNotReady => ErrorView::PipelineNotReady,
            Error::BindGroupPrepareFailed => ErrorView::BindGroupPrepareFailed,
            Error::StagingBufferMissing(target) => ErrorView::StagingBufferMissing(target),
            Error::MappingFailed => ErrorView::MappingFailed,
            Error::ChannelFull => ErrorView::ChannelFull,
        }
    }
}

/// The views of `errors`, in order.
pub open spec fn error_views(errors: Seq<Error>) -> Seq<ErrorView> {
    errors.map_values(|e: Error| e@)
}

impl ErrorView {
    /// The same job may succeed when it is tried again later.
    pub open spec fn is_recoverable(self) -> bool {
        self is PipelineNotReady || self is BindGroupPrepareFailed
    }

    /// The sentence that describes the error.
    pub open spec fn message(self) -> Seq<char> {
        match self {
            ErrorView::MissingPipeline(name) => "Missing pipeline for entry point `"@ + name + "`."@,
            ErrorView::PipelineNotReady => "Pipeline isn't ready yet."@,
            ErrorView::BindGroupPrepareFailed => "Bind group could not be prepared."@,
            ErrorView::StagingBufferMissing(StagingTarget::Slot(_)) => "Staging buffer of a binding slot not found."@,
            ErrorView::StagingBufferMissing(StagingTarget::Image(_)) => "Staging buffer of an image not found."@,
            ErrorView::MappingFailed => "Staging buffer could not be mapped."@,
            ErrorView::ChannelFull => "The channel of results is full."@,
        }
    }
}

impl Error {

    /// Whether the same job may succeed when it is tried again later; every
    /// other error is final.
    pub fn recoverable(&self) -> (recoverable: bool)
        ensures
            recoverable == self@.is_recoverable(),
    {
        match self {
            Error::PipelineNotReady | Error::BindGroupPrepareFailed => true,
            _ => false,
        }
    }

    /// A sentence that describes the error.
    pub fn message(&self) -> (text: String)
        ensures
            text@ == self@.message(),
    {
        match self {
            Error::MissingPipeline(name) => {
                String::from_str("Missing pipeline for entry point `").concat(
                    name.as_str(),
                ).concat("`.")
            },
            Error::PipelineNotReady => String::from_str("Pipeline isn't ready yet."),
            Error::BindGroupPrepareFailed => String::from_str("Bind group could not be prepared."),
            Error::StagingBufferMissing(StagingTarget::Slot(_)) => String::from_str(
                "Staging buffer of a binding slot not found.",
            ),
            Error::StagingBufferMissing(StagingTarget::Image(_)) => String::from_str(
                "Staging buffer of an image not found.",
            ),
            Error::MappingFailed => String::from_str("Staging buffer could not be mapped."),
            Error::ChannelFull => String::from_str("The channel of results is full."),
        }
    }
}

/// All of `results` where none is an error; else the first error.
pub open spec fn collect<A>(results: Seq<std::result::Result<A, ErrorView>>) -> std::result::Result<
    Seq<A>,
    ErrorView,
>
    decreases results.len(),
{
    if results.len() == 0 {
        Ok(Seq::empty())
    } else {
        match collect(results.drop_last()) {
            Err(e) => Err(e),
            Ok(values) => match results.last() {
                Ok(value) => Ok(values.push(value)),
                Err(e) => Err(e),
            },
        }
    }
}

/// Once there is an error among the first `n` of `results`, it is the
/// first error of all.
pub proof fn lemma_collect_fails<A>(results: Seq<std::result::Result<A, ErrorView>>, n: int)
    requires
        0 <= n <= results.len(),
        collect(results.take(n)) is Err,
    ensures
        collect(results) == collect(results.take(n)),
    decreases results.len() - n,
{
    if n < results.len() {
        assert(results.take(n + 1).drop_last() =~= results.take(n));
        lemma_collect_fails(results, n + 1);
    } else {
        assert(results.take(n) =~= results);
    }
}

/// Where no result is an error, there is a value for each result, in order.
pub proof fn lemma_collect_all<A>(results: Seq<std::result::Result<A, ErrorView>>)
    requires
        collect(results) is Ok,
    ensures
        collect(results)->Ok_0.len() == results.len(),
        forall|i: int|
            0 <= i < results.len() ==> #[trigger] results[i] == Ok::<A, ErrorView>(
                collect(results)->Ok_0[i],
            ),
    decreases results.len(),
{
    if results.len() > 0 {
        lemma_collect_all(results.drop_last());
        assert forall|i: int| 0 <= i < results.len() implies #[trigger] results[i] == Ok::<
            A,
            ErrorView,
        >(collect(results)->Ok_0[i]) by {
            if i < results.len() - 1 {
                assert(results[i] == results.drop_last()[i]);
            }
        }
    }
}

/// Where every result is a value, all the values are collected, in order.
pub proof fn lemma_collect_values<A>(values: Seq<A>)
    ensures
        collect(values.map_values(|v: A| Ok::<A, ErrorView>(v))) == Ok::<Seq<A>, ErrorView>(values),
    decreases values.len(),
{
    let results = values.map_values(|v: A| Ok::<A, ErrorView>(v));
    if values.len() == 0 {
        assert(values =~= Seq::empty());
    } else {
        lemma_collect_values(values.drop_last());
        assert(results.drop_last() =~= values.drop_last().map_values(|v: A| Ok::<A, ErrorView>(v)));
        assert(values.drop_last().push(values.last()) =~= values);
    }
}

} // verus!
