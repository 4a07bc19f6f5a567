//! The hand-off of results from the device context to the owner of the data
//! object.
//!
//! The channel holds two messages: when the two contexts run side by side,
//! the device context can finish a dispatch before the owner has taken the
//! message of the one before.  A full channel means that the owner does not
//! drain it, and is an error.

use crate::error::{collect, Error, ErrorView};
use crate::events::{AssetEvent, ComputeComplete};
use crate::readback::{image_results, image_views, mapped_views, read_images};
use crate::resources::{BufferDimensions, PreparedCompute, RenderComputePasses};
use crate::traits::{AssetId, ComputeTrait};
use crossbeam_channel::{Receiver, Sender, TrySendError};
use vstd::prelude::*;

verus! {

/// The number of messages that the channel holds.
pub const CHANNEL_CAPACITY: usize = 2;

/// `crossbeam_channel::Sender`, the sending end of a channel.  Nothing is
/// known of what is inside.
#[verifier::external_type_specification]
#[verifier::external_body]
#[verifier::reject_recursive_types(T)]
pub struct ExSender<T>(Sender<T>);

/// `crossbeam_channel::Receiver`, the receiving end of a channel.  Nothing
/// is known of what is inside.
#[verifier::external_type_specification]
#[verifier::external_body]
#[verifier::reject_recursive_types(T)]
pub struct ExReceiver<T>(Receiver<T>);

/// The results of one dispatch on their way to the owner.
pub struct ComputeMessage<T: ComputeTrait> {
    /// The data object with the results in it, where binding slots were read
    /// back.
    pub data: Option<T>,
    /// The bytes of each image that was read back.
    pub images: Vec<(AssetId, Vec<u8>)>,
}

/// The end of the channel that the owner receives from.
#[verifier::reject_recursive_types(T)]
pub struct ComputeReceiver<T: ComputeTrait>(pub Receiver<ComputeMessage<T>>);

/// The end of the channel that the device context sends into.
#[verifier::reject_recursive_types(T)]
pub struct ComputeSender<T: ComputeTrait>(pub Sender<ComputeMessage<T>>);

/// What became of a message that was offered to the channel.
pub enum SendOutcome<M> {
    /// The channel has taken the message.
    Sent,
    /// The channel was full; here is the message.
    Full(M),
    /// The other end is gone; here is the message.
    Disconnected(M),
}

/// Calls `crossbeam_channel::bounded`, which makes a channel that holds at
/// most `cap` messages and returns its two ends.  The function panics on a
/// capacity that is too large for its bookkeeping, and with a capacity of
/// zero it makes a channel of another kind, one that holds no message at
/// all; neither is asked for here.
#[verifier::external_body]
fn bounded_channel<M>(cap: usize) -> (ends: (Sender<M>, Receiver<M>))
    requires
        0 < cap <= 1024,
{
    crossbeam_channel::bounded(cap)
}

/// Calls `Sender::try_send`, which offers `msg` to the channel without
/// waiting.  A message that the channel does not take comes back as it was,
/// inside the error, which also tells a full channel from one whose other
/// end is gone.
#[verifier::external_body]
fn try_send_message<M>(sender: &Sender<M>, msg: M) -> (outcome: SendOutcome<M>)
    ensures
        match outcome {
            SendOutcome::Sent => true,
            SendOutcome::Full(back) => back == msg,
            SendOutcome::Disconnected(back) => back == msg,
        },
{
    match sender.try_send(msg) {
        Ok(()) => SendOutcome::Sent,
        Err(TrySendError::Full(back)) => SendOutcome::Full(back),
        Err(TrySendError::Disconnected(back)) => SendOutcome::Disconnected(back),
    }
}

/// Calls `Receiver::try_recv`, which takes the next message out of the
/// channel without waiting.  There is none where the channel is empty, be
/// the other end there or gone.
#[verifier::external_body]
fn try_recv_message<M>(receiver: &Receiver<M>) -> (msg: Option<M>) {
    receiver.try_recv().ok()
}

/// Makes the channel between the device context and the owner; it holds
/// [`CHANNEL_CAPACITY`] messages.
pub fn create_compute_channels<T: ComputeTrait>() -> (ends: (ComputeSender<T>, ComputeReceiver<T>)) {
    let (s, r) = bounded_channel::<ComputeMessage<T>>(CHANNEL_CAPACITY);
    (ComputeSender(s), ComputeReceiver(r))
}

/// What a sender reports after it has offered a message: a full channel is
/// an error.  A channel whose owner is gone is none: there is nobody left to
/// wait for the results, and the message is discarded.
pub fn delivery<M>(outcome: SendOutcome<M>) -> (sent: Result<(), Error>)
    ensures
        match outcome {
            SendOutcome::Full(_) => sent is Err && sent->Err_0@ == ErrorView::ChannelFull,
            _ => sent is Ok,
        },
{
    match outcome {
        SendOutcome::Full(_) => Err(Error::ChannelFull),
        _ => Ok(()),
    }
}

impl<T: ComputeTrait> ComputeSender<T> {
    /// Offers `msg` to the channel without waiting.  The only error is
    /// `ChannelFull`.
    pub fn send(&self, msg: ComputeMessage<T>) -> (sent: Result<(), Error>)
        ensures
            sent is Err ==> sent->Err_0@ == ErrorView::ChannelFull,
    {
        delivery(try_send_message(&self.0, msg))
    }
}

impl<T: ComputeTrait> ComputeReceiver<T> {
    /// Takes the next message out of the channel, if there is one.
    pub fn receive(&self) -> (msg: Option<ComputeMessage<T>>) {
        try_recv_message(&self.0)
    }
}

/// The message for the results of one dispatch.  The data object goes along
/// only where binding slots were read back into it: `staged` is their
/// number.
pub fn message_for<T: ComputeTrait>(data: T, staged: usize, images: Vec<(AssetId, Vec<u8>)>) -> (msg:
    ComputeMessage<T>)
    ensures
        msg.data == if staged == 0 {
            None
        } else {
            Some(data)
        },
        msg.images == images,
{
    ComputeMessage {
        data: if staged == 0 {
            None
        } else {
            Some(data)
        },
        images,
    }
}

/// What a [`ComputeMessage`] holds.
pub struct ComputeMessageView<T> {
    pub data: Option<T>,
    pub images: Seq<(AssetId, Seq<u8>)>,
}

impl<T: ComputeTrait> View for ComputeMessage<T> {
    type V = ComputeMessageView<T>;

    open spec fn view(&self) -> ComputeMessageView<T> {
        ComputeMessageView { data: self.data, images: image_views(self.images@) }
    }
}

/// The message for the results of one dispatch: the data object, where
/// `staged` binding slots were read back into it and `staged` is not zero,
/// and the rows of each image without their padding; or the first image that
/// cannot be read.
pub open spec fn results<T>(
    data: T,
    staged: nat,
    images: Seq<(AssetId, BufferDimensions)>,
    mapped_images: Seq<Option<Seq<u8>>>,
) -> Result<ComputeMessageView<T>, ErrorView> {
    match collect(image_results(images, mapped_images)) {
        Err(e) => Err(e),
        Ok(rows) => Ok(
            ComputeMessageView {
                data: if staged == 0 {
                    None
                } else {
                    Some(data)
                },
                images: rows,
            },
        ),
    }
}

/// Reads the images of one dispatch out of their mapped staging buffers and
/// makes the message for the owner.  `data` is the data object after the
/// binding slots that were read back have been decoded into it, and
/// `mapped_images` holds what the device handed back for the staging buffer
/// of each image of `passes`.
pub fn results_message<T: ComputeTrait>(
    data: T,
    passes: &RenderComputePasses<T>,
    prepared: &PreparedCompute<T>,
    mapped_images: &Vec<Option<Vec<u8>>>,
) -> (msg: Result<ComputeMessage<T>, Error>)
    ensures
        match results(
            data,
            prepared.staging_buffers.storage@.len(),
            passes.images@,
            mapped_views(mapped_images@),
        ) {
            Ok(expected) => msg is Ok && msg->Ok_0@ == expected,
            Err(e) => msg is Err && msg->Err_0@ == e,
        },
{
    match read_images(&passes.images, mapped_images) {
        Err(e) => Err(e),
        Ok(images) => Ok(message_for(data, prepared.staging_buffers.storage.len(), images)),
    }
}

/// Reads the results of one dispatch, as [`results_message`] does, and sends
/// them to the owner.  Nothing is sent where an image cannot be read.  After
/// that the only error is `ChannelFull`.
pub fn read_and_send<T: ComputeTrait>(
    data: T,
    passes: &RenderComputePasses<T>,
    prepared: &PreparedCompute<T>,
    mapped_images: &Vec<Option<Vec<u8>>>,
    sender: &ComputeSender<T>,
) -> (sent: Result<(), Error>)
    ensures
        match results(
            data,
            prepared.staging_buffers.storage@.len(),
            passes.images@,
            mapped_views(mapped_images@),
        ) {
            Err(e) => sent is Err && sent->Err_0@ == e,
            Ok(_) => sent is Err ==> sent->Err_0@ == ErrorView::ChannelFull,
        },
{
    match results_message(data, passes, prepared, mapped_images) {
        Err(e) => Err(e),
        Ok(msg) => sender.send(msg),
    }
}

/// A data object together with the mark that tells its owner whether it has
/// changed since the owner last looked.  A change starts a new dispatch, so
/// results that come back from a dispatch are written without the mark.
pub struct Watched<T> {
    value: T,
    changed: bool,
}

impl<T> Watched<T> {
    /// The data object.
    pub closed spec fn value(&self) -> T {
        self.value
    }

    /// Whether the data object counts as changed.
    pub closed spec fn is_changed(&self) -> bool {
        self.changed
    }

    /// A new data object counts as changed.
    pub fn new(value: T) -> (watched: Self)
        ensures
            watched.value() == value,
            watched.is_changed(),
    {
        Watched { value, changed: true }
    }

    /// The data object.
    pub fn get(&self) -> (value: &T)
        ensures
            *value == self.value(),
    {
        &self.value
    }

    /// Whether the data object counts as changed.
    pub fn changed(&self) -> (changed: bool)
        ensures
            changed == self.is_changed(),
    {
        self.changed
    }

    /// Writes the data object and marks it as changed.
    pub fn set(&mut self, value: T)
        ensures
            final(self).value() == value,
            final(self).is_changed(),
    {
        self.value = value;
        self.changed = true;
    }

    /// Writes the data object and leaves the mark as it is.
    pub fn set_silently(&mut self, value: T)
        ensures
            final(self).value() == value,
            final(self).is_changed() == old(self).is_changed(),
    {
        self.value = value;
    }

    /// Takes the mark off, once the owner has looked.
    pub fn clear_changed(&mut self)
        ensures
            final(self).value() == old(self).value(),
            !final(self).is_changed(),
    {
        self.changed = false;
    }
}

/// What the owner does with a message beyond writing the data object.
#[verifier::reject_recursive_types(T)]
pub struct Delivered<T: ComputeTrait> {
    /// The bytes to write into each image.
    pub images: Vec<(AssetId, Vec<u8>)>,
    /// For each image that is written, in order, the notice that it was
    /// modified.
    pub asset_events: Vec<AssetEvent>,
    /// The notice that the dispatch has completed.
    pub complete: ComputeComplete<T>,
}

/// The notice that each of `images` was modified.
pub open spec fn modified_events(images: Seq<(AssetId, Vec<u8>)>) -> Seq<AssetEvent> {
    images.map_values(|image: (AssetId, Vec<u8>)| AssetEvent::Modified { id: image.0 })
}

/// Makes the notice that each of `images` was modified, in their order.
pub fn modified_notices(images: &Vec<(AssetId, Vec<u8>)>) -> (asset_events: Vec<AssetEvent>)
    ensures
        asset_events@ == modified_events(images@),
{
    let mut asset_events: Vec<AssetEvent> = Vec::new();
    let mut i: usize = 0;
    while i < images.len()
        invariant
            i <= images@.len(),
            asset_events@ == modified_events(images@).take(i as int),
        decreases images@.len() - i,
    {
        asset_events.push(AssetEvent::Modified { id: images[i].0 });
        assert(asset_events@ =~= modified_events(images@).take(i + 1));
        i += 1;
    }
    assert(modified_events(images@).take(i as int) =~= modified_events(images@));
    asset_events
}

/// Applies the results `msg` of a dispatch: the data object that came with
/// them is written into `data` without marking it as changed, and the images
/// are handed on with a notice for each.
pub fn apply_message<T: ComputeTrait>(data: &mut Watched<T>, msg: ComputeMessage<T>) -> (delivered:
    Delivered<T>)
    ensures
        final(data).value() == match msg.data {
            Some(value) => value,
            None => old(data).value(),
        },
        final(data).is_changed() == old(data).is_changed(),
        delivered.images == msg.images,
        delivered.asset_events@ == modified_events(msg.images@),
        !delivered.complete.dont_copy,
{
    if let Some(value) = msg.data {
        data.set_silently(value);
    }
    let asset_events = modified_notices(&msg.images);
    Delivered { images: msg.images, asset_events, complete: ComputeComplete::default() }
}

/// Takes the next message out of the channel, if there is one, and applies
/// it to `data` as [`apply_received`] does.  Whatever has arrived, `data` is
/// not marked as changed by it; without a message nothing changes at all.
pub fn listen_receiver<T: ComputeTrait>(data: &mut Watched<T>, receiver: &ComputeReceiver<T>) -> (delivered:
    Option<Delivered<T>>)
    ensures
        exists|received: Option<ComputeMessage<T>>| #[trigger]
            delivers(*old(data), received, *final(data), delivered),
        final(data).is_changed() == old(data).is_changed(),
        delivered is None ==> final(data).value() == old(data).value(),
        delivered is Some ==> {
            &&& delivered->Some_0.asset_events@ == modified_events(delivered->Some_0.images@)
            &&& !delivered->Some_0.complete.dont_copy
        },
{
    let received = receiver.receive();
    let delivered = apply_received(data, received);
    assert(delivers(*old(data), received, *data, delivered));
    delivered
}

/// What the owner makes of `received`, which is what the channel handed
/// out.  Without a message the data object `before` stays as it is, `after`,
/// and nothing is delivered.  With one, the data object that came with it is
/// written, the change mark stays as it was, the images are handed on with a
/// notice for each, and the dispatch is reported as completed.
pub open spec fn delivers<T: ComputeTrait>(
    before: Watched<T>,
    received: Option<ComputeMessage<T>>,
    after: Watched<T>,
    delivered: Option<Delivered<T>>,
) -> bool {
    &&& after.is_changed() == before.is_changed()
    &&& match received {
        None => delivered is None && after.value() == before.value(),
        Some(msg) => {
            &&& delivered is Some
            &&& after.value() == match msg.data {
                Some(value) => value,
                None => before.value(),
            }
            &&& delivered->Some_0.images == msg.images
            &&& delivered->Some_0.asset_events@ == modified_events(msg.images@)
            &&& !delivered->Some_0.complete.dont_copy
        },
    }
}

/// Applies what the channel handed out: nothing without a message, and the
/// message as [`apply_message`] does where there is one.
pub fn apply_received<T: ComputeTrait>(
    data: &mut Watched<T>,
    received: Option<ComputeMessage<T>>,
) -> (delivered: Option<Delivered<T>>)
    ensures
        delivers(*old(data), received, *final(data), delivered),
{
    match received {
        None => None,
        Some(msg) => Some(apply_message(data, msg)),
    }
}

/// The notice, for each of `ids`, that the asset was modified.  It makes
/// everything that depends on one of these assets look at it again.
pub fn mark_shader_modified(ids: &Vec<AssetId>) -> (events: Vec<AssetEvent>)
    ensures
        events@ == ids@.map_values(|id: AssetId| AssetEvent::Modified { id }),
{
    let mut events: Vec<AssetEvent> = Vec::new();
    let mut i: usize = 0;
    while i < ids.len()
        invariant
            i <= ids@.len(),
            events@ == ids@.map_values(|id: AssetId| AssetEvent::Modified { id }).take(i as int),
        decreases ids@.len() - i,
    {
        events.push(AssetEvent::Modified { id: ids[i] });
        assert(events@ =~= ids@.map_values(|id: AssetId| AssetEvent::Modified { id }).take(i + 1));
        i += 1;
    }
    assert(events@ =~= ids@.map_values(|id: AssetId| AssetEvent::Modified { id }));
    events
}

} // verus!
