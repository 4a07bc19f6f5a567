//! Which of the passes that were asked for in one cycle are run.
//!
//! A pass is refused when the data type declares no entry point of its name,
//! or when one of its dispatches covers no workgroup.  Of the passes that
//! remain, the first of each entry point is run.

use crate::events::{pass_views, ComputeEvent, ComputeEventView, Pass, PassView};
use crate::resources::{
    layouts_fit, BufferDimensions, RenderComputePasses, COPY_BYTES_PER_ROW_ALIGNMENT,
};
use crate::traits::{entry_names, find_entry, AssetId, ComputeTrait};
use std::marker::PhantomData;
use vstd::prelude::*;

verus! {

/// Why a pass is refused.
#[derive(Copy, Clone, Debug, PartialEq, Eq, Structural)]
pub enum PassDefect {
    /// The data type declares no entry point of the pass's name.
    UnknownEntryPoint,
    /// A dispatch of the pass has a workgroup count of zero.
    ZeroWorkgroups,
}

/// A pass that was refused, and why.
#[derive(Debug, PartialEq, Eq)]
pub struct PassWarning {
    pub entry: &'static str,
    pub defect: PassDefect,
}

/// What a [`PassWarning`] holds.
pub struct PassWarningView {
    pub entry: Seq<char>,
    pub defect: PassDefect,
}

impl View for PassWarning {
    type V = PassWarningView;

    open spec fn view(&self) -> PassWarningView {
        PassWarningView { entry: self.entry@, defect: self.defect }
    }
}

/// The views of `warnings`, in order.
pub open spec fn warning_views(warnings: Seq<PassWarning>) -> Seq<PassWarningView> {
    warnings.map_values(|w: PassWarning| w@)
}

/// Some dispatch of `pass` covers no workgroup.
pub open spec fn has_empty_dispatch(pass: PassView) -> bool {
    exists|i: int| 0 <= i < pass.workgroups.len() && !(#[trigger] pass.workgroups[i]).is_dispatchable()
}

/// What is wrong with `pass` for a data type that declares `entries`.
pub open spec fn pass_defect(pass: PassView, entries: Seq<Seq<char>>) -> Option<PassDefect> {
    if !entries.contains(pass.entry) {
        Some(PassDefect::UnknownEntryPoint)
    } else if has_empty_dispatch(pass) {
        Some(PassDefect::ZeroWorkgroups)
    } else {
        None
    }
}

/// `pass` names a declared entry point and every dispatch of it covers at
/// least one workgroup.
pub open spec fn pass_is_valid(pass: PassView, entries: Seq<Seq<char>>) -> bool {
    pass_defect(pass, entries) is None
}

/// The valid passes among `passes`, in order.
pub open spec fn valid_passes(passes: Seq<PassView>, entries: Seq<Seq<char>>) -> Seq<PassView> {
    passes.filter(|p: PassView| pass_is_valid(p, entries))
}

/// The warning for each refused pass among `passes`, in order.
pub open spec fn pass_warnings(passes: Seq<PassView>, entries: Seq<Seq<char>>) -> Seq<
    PassWarningView,
> {
    passes.filter_map(
        |p: PassView|
            match pass_defect(p, entries) {
                Some(defect) => Some(PassWarningView { entry: p.entry, defect }),
                None => None,
            },
    )
}

/// The entry points that `passes` name, in order.
pub open spec fn entries_of(passes: Seq<PassView>) -> Seq<Seq<char>> {
    passes.map_values(|p: PassView| p.entry)
}

/// `passes` without every pass whose entry point an earlier pass names.
pub open spec fn first_by_entry(passes: Seq<PassView>) -> Seq<PassView>
    decreases passes.len(),
{
    if passes.len() == 0 {
        Seq::empty()
    } else {
        let earlier = passes.drop_last();
        if entries_of(earlier).contains(passes.last().entry) {
            first_by_entry(earlier)
        } else {
            first_by_entry(earlier).push(passes.last())
        }
    }
}

/// The passes of all `events`, in the order in which they were queued.
pub open spec fn queued_passes(events: Seq<ComputeEventView>) -> Seq<PassView>
    decreases events.len(),
{
    if events.len() == 0 {
        Seq::empty()
    } else {
        queued_passes(events.drop_last()) + events.last().passes
    }
}

/// The passes that are run for the jobs `events` of one cycle.
pub open spec fn runnable_passes(events: Seq<ComputeEventView>, entries: Seq<Seq<char>>) -> Seq<
    PassView,
> {
    first_by_entry(valid_passes(queued_passes(events), entries))
}

/// Looks for what is wrong with `pass`.
pub fn check_pass(pass: &Pass, entries: &Vec<&'static str>) -> (defect: Option<PassDefect>)
    ensures
        defect == pass_defect(pass@, entry_names(entries@)),
{
    if find_entry(entries, pass.entry).is_none() {
        return Some(PassDefect::UnknownEntryPoint);
    }
    let mut i: usize = 0;
    while i < pass.workgroups.len()
        invariant
            i <= pass.workgroups@.len(),
            entry_names(entries@).contains(pass@.entry),
            forall|j: int| 0 <= j < i ==> (#[trigger] pass.workgroups@[j]).is_dispatchable(),
        decreases pass.workgroups@.len() - i,
    {
        if !pass.workgroups[i].dispatchable() {
            assert(!pass@.workgroups[i as int].is_dispatchable());
            return Some(PassDefect::ZeroWorkgroups);
        }
        i += 1;
    }
    None
}

/// Splits `passes` into those that are valid for a data type that declares
/// `entries`, and a warning for each of the others.
pub fn validate_passes(passes: &Vec<Pass>, entries: &Vec<&'static str>) -> (split: (
    Vec<Pass>,
    Vec<PassWarning>,
))
    ensures
        pass_views(split.0@) == valid_passes(pass_views(passes@), entry_names(entries@)),
        warning_views(split.1@) == pass_warnings(pass_views(passes@), entry_names(entries@)),
{
    let ghost names = entry_names(entries@);
    let ghost all = pass_views(passes@);
    let mut valid: Vec<Pass> = Vec::new();
    let mut warnings: Vec<PassWarning> = Vec::new();
    let mut i: usize = 0;
    proof {
        reveal(Seq::filter);
        assert(all.take(0) =~= Seq::empty());
    }
    while i < passes.len()
        invariant
            i <= passes@.len(),
            names == entry_names(entries@),
            all == pass_views(passes@),
            pass_views(valid@) == valid_passes(all.take(i as int), names),
            warning_views(warnings@) == pass_warnings(all.take(i as int), names),
        decreases passes@.len() - i,
    {
        let pass = &passes[i];
        proof {
            reveal(Seq::filter);
            assert(all.take(i + 1).drop_last() =~= all.take(i as int));
            assert(all.take(i + 1).last() == pass@);
        }
        let ghost valid_before = valid@;
        let ghost warnings_before = warnings@;
        match check_pass(pass, entries) {
            None => {
                let copy = pass.clone();
                valid.push(copy);
                assert(pass_views(valid@) =~= pass_views(valid_before).push(pass@));
            },
            Some(defect) => {
                let warning = PassWarning { entry: pass.entry, defect };
                warnings.push(warning);
                assert(warning_views(warnings@) =~= warning_views(warnings_before) + seq![
                    warning@,
                ]);
            },
        }
        i += 1;
    }
    assert(all.take(i as int) =~= all);
    (valid, warnings)
}

/// A pass of `passes` names `entry` exactly if a pass that [`first_by_entry`]
/// keeps does.
pub proof fn lemma_first_by_entry_keeps_entries(passes: Seq<PassView>, entry: Seq<char>)
    ensures
        entries_of(first_by_entry(passes)).contains(entry) == entries_of(passes).contains(entry),
    decreases passes.len(),
{
    let kept = first_by_entry(passes);
    if passes.len() > 0 {
        let earlier = passes.drop_last();
        let last = passes.last();
        lemma_first_by_entry_keeps_entries(earlier, entry);
        lemma_first_by_entry_keeps_entries(earlier, last.entry);
        let kept_earlier = first_by_entry(earlier);
        if entries_of(passes).contains(entry) {
            let k = choose|k: int| 0 <= k < passes.len() && entries_of(passes)[k] == entry;
            if k < earlier.len() {
                assert(entries_of(earlier)[k] == entry);
                let m = choose|m: int|
                    0 <= m < kept_earlier.len() && entries_of(kept_earlier)[m] == entry;
                assert(entries_of(kept)[m] == entry);
            } else if entries_of(earlier).contains(last.entry) {
                let m = choose|m: int|
                    0 <= m < kept_earlier.len() && entries_of(kept_earlier)[m] == entry;
                assert(entries_of(kept)[m] == entry);
            } else {
                assert(entries_of(kept)[kept.len() - 1] == entry);
            }
        }
        if entries_of(kept).contains(entry) {
            let m = choose|m: int| 0 <= m < kept.len() && entries_of(kept)[m] == entry;
            if m < kept_earlier.len() {
                assert(entries_of(kept_earlier)[m] == entry);
                let k = choose|k: int| 0 <= k < earlier.len() && entries_of(earlier)[k] == entry;
                assert(entries_of(passes)[k] == entry);
            } else {
                assert(entries_of(passes)[passes.len() - 1] == entry);
            }
        }
    }
}

/// Keeps the first pass of each entry point.
pub fn dedup_passes(passes: &Vec<Pass>) -> (kept: Vec<Pass>)
    ensures
        pass_views(kept@) == first_by_entry(pass_views(passes@)),
{
    let ghost all = pass_views(passes@);
    let mut kept: Vec<Pass> = Vec::new();
    let mut i: usize = 0;
    proof {
        assert(all.take(0) =~= Seq::empty());
    }
    while i < passes.len()
        invariant
            i <= passes@.len(),
            all == pass_views(passes@),
            pass_views(kept@) == first_by_entry(all.take(i as int)),
        decreases passes@.len() - i,
    {
        let pass = &passes[i];
        let ghost earlier = all.take(i as int);
        proof {
            assert(all.take(i + 1).drop_last() =~= earlier);
            assert(all.take(i + 1).last() == pass@);
            lemma_first_by_entry_keeps_entries(earlier, pass@.entry);
        }
        let mut used = false;
        let mut k: usize = 0;
        while k < kept.len() && !used
            invariant
                k <= kept@.len(),
                used ==> entries_of(pass_views(kept@)).contains(pass@.entry),
                !used ==> forall|j: int| 0 <= j < k ==> kept@[j]@.entry != pass@.entry,
            decreases kept@.len() - k + if used { 0int } else { 1int },
        {
            if crate::traits::same_name(kept[k].entry, pass.entry) {
                used = true;
                assert(entries_of(pass_views(kept@))[k as int] == pass@.entry);
            } else {
                k += 1;
            }
        }
        if !used {
            assert forall|j: int| 0 <= j < entries_of(pass_views(kept@)).len() implies entries_of(
                pass_views(kept@),
            )[j] != pass@.entry by {
                assert(entries_of(pass_views(kept@))[j] == kept@[j]@.entry);
            }
            let ghost before = kept@;
            let copy = pass.clone();
            kept.push(copy);
            assert(pass_views(kept@) =~= pass_views(before).push(pass@));
        }
        i += 1;
    }
    assert(all.take(i as int) =~= all);
    kept
}

/// An image of the data object that is read back: its identity, its size in
/// pixels and the size of a pixel in bytes.
#[derive(Copy, Clone, Debug, PartialEq, Eq, Structural)]
pub struct ImageInfo {
    pub handle: AssetId,
    pub width: usize,
    pub height: usize,
    pub pixel_size: usize,
}

impl ImageInfo {
    /// The padded rows of the image have a length that the machine can hold,
    /// and all of them together a size that a buffer can have.
    pub open spec fn fits(self) -> bool {
        &&& BufferDimensions::fits(self.width, self.pixel_size, COPY_BYTES_PER_ROW_ALIGNMENT)
        &&& BufferDimensions::spec_new(self.width, self.height, self.pixel_size).allocatable()
    }

    /// Whether the staging buffer of the image can be laid out.
    pub fn representable(&self) -> (fits: bool)
        ensures
            fits == self.fits(),
    {
        match BufferDimensions::checked_new(self.width, self.height, self.pixel_size) {
            None => false,
            Some(dim) => dim.checked_buffer_size().is_some(),
        }
    }

    /// The layout of the staging buffer for this image.
    pub open spec fn layout(self) -> (AssetId, BufferDimensions) {
        (self.handle, BufferDimensions::spec_new(self.width, self.height, self.pixel_size))
    }
}

/// The layout of the staging buffer for each of `images`.
pub open spec fn image_layouts(images: Seq<ImageInfo>) -> Seq<(AssetId, BufferDimensions)> {
    images.map_values(|image: ImageInfo| image.layout())
}

/// The views of `events`, in order.
pub open spec fn event_views<T: ComputeTrait>(events: Seq<ComputeEvent<T>>) -> Seq<
    ComputeEventView,
> {
    events.map_values(|e: ComputeEvent<T>| e@)
}

/// Collects the passes of all `events`, in the order in which they were
/// queued.
pub fn collect_passes<T: ComputeTrait>(events: &Vec<ComputeEvent<T>>) -> (passes: Vec<Pass>)
    ensures
        pass_views(passes@) == queued_passes(event_views(events@)),
{
    let ghost all = event_views(events@);
    let mut passes: Vec<Pass> = Vec::new();
    let mut i: usize = 0;
    proof {
        assert(all.take(0) =~= Seq::empty());
    }
    while i < events.len()
        invariant
            i <= events@.len(),
            all == event_views(events@),
            pass_views(passes@) == queued_passes(all.take(i as int)),
        decreases events@.len() - i,
    {
        let event = &events[i];
        let ghost before = pass_views(passes@);
        let ghost added = pass_views(event.passes@);
        proof {
            assert(all.take(i + 1).drop_last() =~= all.take(i as int));
            assert(all.take(i + 1).last() == event@);
        }
        let mut k: usize = 0;
        while k < event.passes.len()
            invariant
                k <= event.passes@.len(),
                added == pass_views(event.passes@),
                pass_views(passes@) == before + added.take(k as int),
            decreases event.passes@.len() - k,
        {
            let copy = event.passes[k].clone();
            let ghost so_far = passes@;
            passes.push(copy);
            assert(pass_views(passes@) =~= pass_views(so_far).push(copy@));
            assert(before + added.take(k + 1) =~= (before + added.take(k as int)).push(copy@));
            k += 1;
        }
        assert(added.take(k as int) =~= added);
        i += 1;
    }
    assert(all.take(i as int) =~= all);
    passes
}

/// The layout of the staging buffer for each of `images`.
pub fn layout_images(images: &Vec<ImageInfo>) -> (layouts: Vec<(AssetId, BufferDimensions)>)
    requires
        forall|i: int| 0 <= i < images@.len() ==> (#[trigger] images@[i]).fits(),
    ensures
        layouts@ == image_layouts(images@),
        layouts_fit(layouts@),
{
    let mut layouts: Vec<(AssetId, BufferDimensions)> = Vec::new();
    let mut i: usize = 0;
    while i < images.len()
        invariant
            i <= images@.len(),
            forall|i: int| 0 <= i < images@.len() ==> (#[trigger] images@[i]).fits(),
            layouts@ == image_layouts(images@).take(i as int),
            layouts_fit(layouts@),
        decreases images@.len() - i,
    {
        let image = &images[i];
        assert(image.fits());
        let dim = BufferDimensions::new(image.width, image.height, image.pixel_size);
        layouts.push((image.handle, dim));
        assert(layouts@ =~= image_layouts(images@).take(i + 1));
        i += 1;
    }
    assert(image_layouts(images@).take(i as int) =~= image_layouts(images@));
    layouts
}

/// Decides what the device context runs for the jobs `compute_events` of one
/// cycle, for a data type that declares the entry points `entries`: the
/// valid passes, the first of each entry point, together with the staging
/// layout of each of the data object's `images`.  There is nothing to run,
/// and `None` is returned, where no pass is left.  Each refused pass is
/// reported with a warning.
pub fn extract_resource<T: ComputeTrait>(
    compute_events: &Vec<ComputeEvent<T>>,
    images: &Vec<ImageInfo>,
    entries: &Vec<&'static str>,
) -> (extracted: (Option<RenderComputePasses<T>>, Vec<PassWarning>))
    requires
        forall|i: int| 0 <= i < images@.len() ==> (#[trigger] images@[i]).fits(),
    ensures
        warning_views(extracted.1@) == pass_warnings(
            queued_passes(event_views(compute_events@)),
            entry_names(entries@),
        ),
        match extracted.0 {
            None => runnable_passes(event_views(compute_events@), entry_names(entries@)).len()
                == 0,
            Some(render) => {
                &&& render.passes@.len() > 0
                &&& pass_views(render.passes@) == runnable_passes(
                    event_views(compute_events@),
                    entry_names(entries@),
                )
                &&& render.images@ == image_layouts(images@)
                &&& layouts_fit(render.images@)
            },
        },
{
    let queued = collect_passes(compute_events);
    let (valid, warnings) = validate_passes(&queued, entries);
    let passes = dedup_passes(&valid);
    if passes.len() == 0 {
        return (None, warnings);
    }
    let layouts = layout_images(images);
    (Some(RenderComputePasses { passes, images: layouts, _marker: PhantomData }), warnings)
}

/// The valid passes of a sequence are those of its front followed by those
/// of its back.
proof fn lemma_valid_passes_split(passes: Seq<PassView>, entries: Seq<Seq<char>>, i: int)
    requires
        0 <= i < passes.len(),
    ensures
        valid_passes(passes, entries) == valid_passes(passes.take(i), entries) + (if pass_is_valid(
            passes[i],
            entries,
        ) {
            seq![passes[i]]
        } else {
            Seq::empty()
        }) + valid_passes(passes.skip(i + 1), entries),
{
    let valid = |p: PassView| pass_is_valid(p, entries);
    let front = passes.take(i);
    let one = seq![passes[i]];
    let back = passes.skip(i + 1);
    assert(passes =~= front + one + back);
    Seq::filter_distributes_over_add(front + one, back, valid);
    Seq::filter_distributes_over_add(front, one, valid);
    reveal_with_fuel(Seq::filter, 2);
    assert(one.drop_last() =~= Seq::<PassView>::empty());
    assert(one.filter(valid) =~= if pass_is_valid(passes[i], entries) {
        one
    } else {
        Seq::empty()
    });
}

/// A refused pass is dropped and the others are not affected: whether its
/// entry point is not declared or one of its dispatches covers no workgroup,
/// the passes that run are those that would run had it never been asked
/// for, and it is not among them.
pub proof fn lemma_refused_pass_is_dropped(passes: Seq<PassView>, entries: Seq<Seq<char>>, i: int)
    requires
        0 <= i < passes.len(),
        !pass_is_valid(passes[i], entries),
    ensures
        valid_passes(passes, entries) == valid_passes(passes.remove(i), entries),
        first_by_entry(valid_passes(passes, entries)) == first_by_entry(
            valid_passes(passes.remove(i), entries),
        ),
        !first_by_entry(valid_passes(passes, entries)).contains(passes[i]),
{
    let valid = |p: PassView| pass_is_valid(p, entries);
    let front = passes.take(i);
    let back = passes.skip(i + 1);
    lemma_valid_passes_split(passes, entries, i);
    assert(passes.remove(i) =~= front + back);
    Seq::filter_distributes_over_add(front, back, valid);
    assert(valid_passes(passes, entries) =~= valid_passes(passes.remove(i), entries));
    let run = first_by_entry(valid_passes(passes, entries));
    if run.contains(passes[i]) {
        lemma_first_by_entry_is_subset(valid_passes(passes, entries), passes[i]);
        let k = choose|k: int|
            0 <= k < valid_passes(passes, entries).len() && valid_passes(passes, entries)[k]
                == passes[i];
        passes.lemma_filter_pred(valid, k);
    }
}

/// What [`first_by_entry`] keeps is among the passes it was given.
pub proof fn lemma_first_by_entry_is_subset(passes: Seq<PassView>, pass: PassView)
    requires
        first_by_entry(passes).contains(pass),
    ensures
        passes.contains(pass),
    decreases passes.len(),
{
    if passes.len() > 0 {
        let earlier = passes.drop_last();
        let kept = first_by_entry(passes);
        let k = choose|k: int| 0 <= k < kept.len() && kept[k] == pass;
        if k < first_by_entry(earlier).len() {
            assert(first_by_entry(earlier)[k] == pass);
            lemma_first_by_entry_is_subset(earlier, pass);
            let m = choose|m: int| 0 <= m < earlier.len() && earlier[m] == pass;
            assert(passes[m] == pass);
        } else {
            assert(passes[passes.len() - 1] == pass);
        }
    }
}

/// What [`first_by_entry`] keeps of a sequence, it keeps of every longer one.
proof fn lemma_first_by_entry_grows(front: Seq<PassView>, back: Seq<PassView>, pass: PassView)
    requires
        first_by_entry(front).contains(pass),
    ensures
        first_by_entry(front + back).contains(pass),
    decreases back.len(),
{
    if back.len() == 0 {
        assert(front + back =~= front);
    } else {
        lemma_first_by_entry_grows(front, back.drop_last(), pass);
        assert((front + back).drop_last() =~= front + back.drop_last());
        let shorter = first_by_entry(front + back.drop_last());
        let k = choose|k: int| 0 <= k < shorter.len() && shorter[k] == pass;
        assert(first_by_entry(front + back)[k] == pass);
    }
}

/// A valid pass runs, whatever else was asked for, unless an earlier valid
/// pass names the same entry point.
pub proof fn lemma_valid_pass_runs(passes: Seq<PassView>, entries: Seq<Seq<char>>, i: int)
    requires
        0 <= i < passes.len(),
        pass_is_valid(passes[i], entries),
        forall|j: int|
            0 <= j < i && pass_is_valid(#[trigger] passes[j], entries) ==> passes[j].entry
                != passes[i].entry,
    ensures
        first_by_entry(valid_passes(passes, entries)).contains(passes[i]),
{
    let valid = |p: PassView| pass_is_valid(p, entries);
    let front = valid_passes(passes.take(i), entries);
    let back = valid_passes(passes.skip(i + 1), entries);
    lemma_valid_passes_split(passes, entries, i);
    assert(valid_passes(passes, entries) =~= front.push(passes[i]) + back);
    if entries_of(front).contains(passes[i].entry) {
        let k = choose|k: int| 0 <= k < front.len() && entries_of(front)[k] == passes[i].entry;
        passes.take(i).lemma_filter_pred(valid, k);
        assert(front.contains(front[k]));
        passes.take(i).lemma_filter_contains_rev(valid, front[k]);
        let j = choose|j: int| 0 <= j < passes.take(i).len() && passes.take(i)[j] == front[k];
        assert(passes[j] == front[k]);
        assert(false);
    }
    assert(front.push(passes[i]).drop_last() =~= front);
    let kept = first_by_entry(front.push(passes[i]));
    assert(kept[kept.len() - 1] == passes[i]);
    lemma_first_by_entry_grows(front.push(passes[i]), back, passes[i]);
}

/// Each refused pass is reported: a warning names its entry point and what
/// is wrong with it.
pub proof fn lemma_refused_pass_is_reported(passes: Seq<PassView>, entries: Seq<Seq<char>>, i: int)
    requires
        0 <= i < passes.len(),
        !pass_is_valid(passes[i], entries),
    ensures
        pass_warnings(passes, entries).contains(
            PassWarningView {
                entry: passes[i].entry,
                defect: pass_defect(passes[i], entries).unwrap(),
            },
        ),
    decreases passes.len(),
{
    let warnings = pass_warnings(passes, entries);
    let earlier = passes.drop_last();
    if i == passes.len() - 1 {
        assert(warnings[warnings.len() - 1].entry == passes[i].entry);
    } else {
        lemma_refused_pass_is_reported(earlier, entries, i);
        let shorter = pass_warnings(earlier, entries);
        let k = choose|k: int|
            0 <= k < shorter.len() && shorter[k] == (PassWarningView {
                entry: passes[i].entry,
                defect: pass_defect(passes[i], entries).unwrap(),
            });
        assert(warnings[k] == shorter[k]);
    }
}

} // verus!
