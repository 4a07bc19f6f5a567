//! From mapped staging buffers to the bytes of the results.
//!
//! The bytes of a binding slot are handed on as they are.  An image arrives
//! with each row padded to the copy row alignment; the padding is taken out,
//! so that the rows follow one another.

use crate::error::{collect, lemma_collect_fails, Error, ErrorView, StagingTarget};
use crate::resources::{BufferDimensions, StagingBuffer};
use crate::traits::AssetId;
use vstd::arithmetic::div_mod::{lemma_fundamental_div_mod, lemma_fundamental_div_mod_converse};
use vstd::prelude::*;
use vstd::slice::{slice_subrange, slice_to_vec};

verus! {

/// A cell of a grid of rows of `width` cells lies at `row * width + column`.
proof fn lemma_cell(row: int, column: int, width: int, height: int)
    requires
        0 <= row < height,
        0 <= column < width,
    ensures
        0 <= row * width + column < width * height,
        (row * width + column) / width == row,
        (row * width + column) % width == column,
{
    lemma_fundamental_div_mod_converse(row * width + column, width, row, column);
    assert(row * width + column < width * height) by (nonlinear_arith)
        requires
            0 <= row < height,
            0 <= column < width,
    ;
    assert(0 <= row * width) by (nonlinear_arith)
        requires
            0 <= row,
            0 <= width,
    ;
}

/// A position in a grid of `height` rows of `width` cells lies in a row and
/// a column of it.
proof fn lemma_row_column(i: int, width: int, height: int)
    requires
        0 <= i < width * height,
        0 <= height,
        0 < width,
    ensures
        0 <= i / width < height,
        0 <= i % width < width,
        i == (i / width) * width + i % width,
{
    lemma_fundamental_div_mod(i, width);
    let row = i / width;
    assert(width * row == row * width) by (nonlinear_arith);
    assert(0 <= row < height) by (nonlinear_arith)
        requires
            i == row * width + i % width,
            0 <= i % width < width,
            0 <= i < width * height,
            0 < width,
    ;
}

/// `buffer` is long enough to hold the rows that `dim` lays out: every row
/// but the last with its padding.
pub open spec fn holds_rows(buffer: Seq<u8>, dim: BufferDimensions) -> bool {
    dim.height > 0 ==> (dim.height - 1) * dim.padded_bytes_per_row + dim.unpadded_bytes_per_row
        <= buffer.len()
}

/// The rows of the image that `buffer` holds under the layout `dim`, one
/// after the other and without their padding.
pub open spec fn unpadded_rows(buffer: Seq<u8>, dim: BufferDimensions) -> Seq<u8> {
    Seq::new(
        (dim.unpadded_bytes_per_row * dim.height) as nat,
        |i: int|
            buffer[(i / (dim.unpadded_bytes_per_row as int)) * dim.padded_bytes_per_row + i % (
            dim.unpadded_bytes_per_row as int)],
    )
}

/// The rows of `data` under the layout `dim`: each row is followed by zeros
/// up to the padded length.
pub open spec fn padded_rows(data: Seq<u8>, dim: BufferDimensions) -> Seq<u8> {
    Seq::new(
        (dim.padded_bytes_per_row * dim.height) as nat,
        |i: int|
            if i % (dim.padded_bytes_per_row as int) < dim.unpadded_bytes_per_row {
                data[(i / (dim.padded_bytes_per_row as int)) * dim.unpadded_bytes_per_row + i % (
                dim.padded_bytes_per_row as int)]
            } else {
                0u8
            },
    )
}

/// Every byte of padding in `buffer` is zero.
pub open spec fn zero_padded(buffer: Seq<u8>, dim: BufferDimensions) -> bool {
    forall|i: int|
        0 <= i < buffer.len() && i % (dim.padded_bytes_per_row as int)
            >= dim.unpadded_bytes_per_row ==> #[trigger] buffer[i] == 0
}

/// Takes the padding out of the rows of an image: row `r` of the result is
/// the first `dim.unpadded_bytes_per_row` bytes that `padded_data` holds from
/// `r * dim.padded_bytes_per_row` on.
pub fn strip_row_padding(padded_data: &[u8], dim: &BufferDimensions) -> (data: Vec<u8>)
    requires
        dim.wf(),
        holds_rows(padded_data@, *dim),
    ensures
        data@ == unpadded_rows(padded_data@, *dim),
{
    let unpadded = dim.unpadded_bytes_per_row;
    let padded = dim.padded_bytes_per_row;
    let available = padded_data.len();
    let mut data: Vec<u8> = Vec::new();
    let mut row: usize = 0;
    assert(0 * unpadded == 0) by (nonlinear_arith);
    while row < dim.height
        invariant
            row <= dim.height,
            available == padded_data@.len(),
            unpadded == dim.unpadded_bytes_per_row,
            padded == dim.padded_bytes_per_row,
            unpadded <= padded,
            holds_rows(padded_data@, *dim),
            data@.len() == row * unpadded,
            forall|i: int|
                0 <= i < data@.len() ==> #[trigger] data@[i] == padded_data@[(i / (unpadded as int))
                    * padded + i % (unpadded as int)],
        decreases dim.height - row,
    {
        assert(row * padded + unpadded <= (dim.height - 1) * padded + unpadded) by (nonlinear_arith)
            requires
                row <= dim.height - 1,
                0 <= padded,
        ;
        assert(0 <= row * padded) by (nonlinear_arith)
            requires
                0 <= row,
                0 <= padded,
        ;
        let start: usize = row * padded;
        let end: usize = start + unpadded;
        let ghost before = data@;
        let line = slice_subrange(padded_data, start, end);
        data.extend_from_slice(line);
        assert((row + 1) * unpadded == row * unpadded + unpadded) by (nonlinear_arith);
        assert forall|i: int| 0 <= i < data@.len() implies #[trigger] data@[i] == padded_data@[(i
            / (unpadded as int)) * padded + i % (unpadded as int)] by {
            if i >= before.len() {
                let column = i - row * unpadded;
                lemma_cell(row as int, column, unpadded as int, row + 1);
                assert(data@[i] == line@[column]);
            }
        }
        row += 1;
    }
    assert(data@ =~= unpadded_rows(padded_data@, *dim)) by {
        assert(dim.height * unpadded == unpadded * dim.height) by (nonlinear_arith);
    }
    data
}

/// Lays the rows of `data` out with padding: row `r` of `data` stands at
/// `r * dim.padded_bytes_per_row`, followed by zeros.
pub fn pad_rows(data: &[u8], dim: &BufferDimensions) -> (padded_data: Vec<u8>)
    requires
        dim.wf(),
        data@.len() == dim.unpadded_bytes_per_row * dim.height,
    ensures
        padded_data@ == padded_rows(data@, *dim),
{
    let unpadded = dim.unpadded_bytes_per_row;
    let padded = dim.padded_bytes_per_row;
    let available = data.len();
    let mut padded_data: Vec<u8> = Vec::new();
    let mut row: usize = 0;
    assert(0 * padded == 0) by (nonlinear_arith);
    while row < dim.height
        invariant
            row <= dim.height,
            available == data@.len(),
            unpadded == dim.unpadded_bytes_per_row,
            padded == dim.padded_bytes_per_row,
            unpadded <= padded,
            data@.len() == unpadded * dim.height,
            padded_data@.len() == row * padded,
            forall|i: int|
                0 <= i < padded_data@.len() ==> #[trigger] padded_data@[i] == padded_rows(
                    data@,
                    *dim,
                )[i],
        decreases dim.height - row,
    {
        assert(row * unpadded + unpadded <= unpadded * dim.height) by (nonlinear_arith)
            requires
                row + 1 <= dim.height,
                0 <= unpadded,
        ;
        assert(0 <= row * unpadded) by (nonlinear_arith)
            requires
                0 <= row,
                0 <= unpadded,
        ;
        assert(row * padded + padded <= padded * dim.height) by (nonlinear_arith)
            requires
                row + 1 <= dim.height,
                0 <= padded,
        ;
        let start: usize = row * unpadded;
        let ghost before = padded_data@;
        let line = slice_subrange(data, start, start + unpadded);
        padded_data.extend_from_slice(line);
        let mut column: usize = unpadded;
        while column < padded
            invariant
                unpadded <= column <= padded,
                padded_data@.len() == before.len() + column,
                forall|i: int|
                    0 <= i < before.len() + unpadded ==> #[trigger] padded_data@[i] == if i
                        < before.len() {
                        before[i]
                    } else {
                        line@[i - before.len()]
                    },
                forall|i: int|
                    before.len() + unpadded <= i < padded_data@.len() ==> #[trigger] padded_data@[i]
                        == 0,
            decreases padded - column,
        {
            padded_data.push(0u8);
            column += 1;
        }
        assert((row + 1) * padded == row * padded + padded) by (nonlinear_arith);
        assert forall|i: int| 0 <= i < padded_data@.len() implies #[trigger] padded_data@[i]
            == padded_rows(data@, *dim)[i] by {
            if i >= before.len() {
                let at = i - row * padded;
                lemma_cell(row as int, at, padded as int, dim.height as int);
                assert(padded * dim.height == dim.height * padded) by (nonlinear_arith);
            }
        }
        row += 1;
    }
    assert(padded_data@ =~= padded_rows(data@, *dim)) by {
        assert(dim.height * padded == padded * dim.height) by (nonlinear_arith);
    }
    padded_data
}

/// A staging buffer of the size that the layout asks for holds all the rows.
pub proof fn lemma_staging_buffer_holds_rows(buffer: Seq<u8>, dim: BufferDimensions)
    requires
        dim.wf(),
        buffer.len() == dim.spec_buffer_size(),
    ensures
        holds_rows(buffer, dim),
{
    if dim.height > 0 {
        assert((dim.height - 1) * dim.padded_bytes_per_row + dim.padded_bytes_per_row
            == dim.padded_bytes_per_row * dim.height) by (nonlinear_arith);
    }
}

/// Padding rows and taking the padding out again gives the rows back.
pub proof fn lemma_strip_after_pad(data: Seq<u8>, dim: BufferDimensions)
    requires
        dim.wf(),
        data.len() == dim.unpadded_bytes_per_row * dim.height,
    ensures
        unpadded_rows(padded_rows(data, dim), dim) == data,
{
    let unpadded = dim.unpadded_bytes_per_row as int;
    let padded = dim.padded_bytes_per_row as int;
    let height = dim.height as int;
    let stripped = unpadded_rows(padded_rows(data, dim), dim);
    assert forall|i: int| 0 <= i < data.len() implies stripped[i] == data[i] by {
        assert(unpadded > 0) by (nonlinear_arith)
            requires
                0 <= i < unpadded * height,
                0 <= unpadded,
        ;
        lemma_row_column(i, unpadded, height);
        let row = i / unpadded;
        let column = i % unpadded;
        lemma_cell(row, column, padded, height);
    }
    assert(stripped =~= data);
}

/// Taking the padding out of a padded buffer and padding the rows again
/// gives the buffer back, byte for byte, where its padding is zero.
pub proof fn lemma_pad_after_strip(buffer: Seq<u8>, dim: BufferDimensions)
    requires
        dim.wf(),
        buffer.len() == dim.padded_bytes_per_row * dim.height,
        zero_padded(buffer, dim),
    ensures
        padded_rows(unpadded_rows(buffer, dim), dim) == buffer,
{
    let unpadded = dim.unpadded_bytes_per_row as int;
    let padded = dim.padded_bytes_per_row as int;
    let height = dim.height as int;
    let again = padded_rows(unpadded_rows(buffer, dim), dim);
    assert forall|i: int| 0 <= i < buffer.len() implies again[i] == buffer[i] by {
        assert(padded > 0) by (nonlinear_arith)
            requires
                0 <= i < padded * height,
                0 <= padded,
        ;
        lemma_row_column(i, padded, height);
        let row = i / padded;
        let column = i % padded;
        if column < unpadded {
            lemma_cell(row, column, unpadded, height);
        }
    }
    assert(again =~= buffer);
}

/// Whether a buffer of `len` bytes is long enough to hold the rows that
/// `dim` lays out.
pub fn has_rows(len: usize, dim: &BufferDimensions) -> (enough: bool)
    ensures
        enough == (dim.height > 0 ==> (dim.height - 1) * dim.padded_bytes_per_row
            + dim.unpadded_bytes_per_row <= len),
{
    if dim.height == 0 {
        return true;
    }
    proof {
        assert(0 <= (dim.height - 1) * dim.padded_bytes_per_row) by (nonlinear_arith)
            requires
                0 <= dim.height - 1,
                0 <= dim.padded_bytes_per_row,
        ;
    }
    match (dim.height - 1).checked_mul(dim.padded_bytes_per_row) {
        None => false,
        Some(rows) => match rows.checked_add(dim.unpadded_bytes_per_row) {
            None => false,
            Some(needed) => needed <= len,
        },
    }
}

/// What the device hands back for the staging buffers, one after the other:
/// the bytes of each, or `None` where it could not be mapped.
pub open spec fn mapped_views(mapped: Seq<Option<Vec<u8>>>) -> Seq<Option<Seq<u8>>> {
    mapped.map_values(
        |m: Option<Vec<u8>>|
            match m {
                Some(bytes) => Some(bytes@),
                None => None,
            },
    )
}

/// The bytes of the staged slot at position `i`: what was mapped, as it is.
/// There is an error where the position has no mapping, where the buffer
/// could not be mapped, and where it does not have the size of the staging
/// buffer.
pub open spec fn slot_bytes(
    staging: Seq<(u32, StagingBuffer)>,
    mapped: Seq<Option<Seq<u8>>>,
    i: int,
) -> Result<(u32, Seq<u8>), ErrorView> {
    if i >= mapped.len() {
        Err(ErrorView::StagingBufferMissing(StagingTarget::Slot(staging[i].0)))
    } else {
        match mapped[i] {
            Some(bytes) if bytes.len() == staging[i].1.size => Ok((staging[i].0, bytes)),
            _ => Err(ErrorView::MappingFailed),
        }
    }
}

/// The bytes of the image at position `i`: the rows that were mapped,
/// without their padding.  There is an error where the position has no
/// mapping, where the buffer could not be mapped, and where it is too short
/// for the rows of the image.
pub open spec fn image_bytes(
    images: Seq<(AssetId, BufferDimensions)>,
    mapped: Seq<Option<Seq<u8>>>,
    i: int,
) -> Result<(AssetId, Seq<u8>), ErrorView> {
    if i >= mapped.len() {
        Err(ErrorView::StagingBufferMissing(StagingTarget::Image(i as usize)))
    } else {
        match mapped[i] {
            Some(bytes) if images[i].1.wf() && holds_rows(bytes, images[i].1) => Ok(
                (images[i].0, unpadded_rows(bytes, images[i].1)),
            ),
            _ => Err(ErrorView::MappingFailed),
        }
    }
}

/// What is read for each staged slot, in order.
pub open spec fn slot_results(staging: Seq<(u32, StagingBuffer)>, mapped: Seq<Option<Seq<u8>>>)
    -> Seq<Result<(u32, Seq<u8>), ErrorView>> {
    Seq::new(staging.len(), |i: int| slot_bytes(staging, mapped, i))
}

/// What is read for each image, in order.
pub open spec fn image_results(
    images: Seq<(AssetId, BufferDimensions)>,
    mapped: Seq<Option<Seq<u8>>>,
) -> Seq<Result<(AssetId, Seq<u8>), ErrorView>> {
    Seq::new(images.len(), |i: int| image_bytes(images, mapped, i))
}

/// Each of `written` as the bytes of a buffer that was mapped.
pub open spec fn all_mapped(written: Seq<Seq<u8>>) -> Seq<Option<Seq<u8>>> {
    written.map_values(|bytes: Seq<u8>| Some(bytes))
}

/// The results of one dispatch: the bytes of each staged slot, and the bytes
/// of each image.
#[derive(Debug, PartialEq, Eq)]
pub struct Readback {
    pub storage: Vec<(u32, Vec<u8>)>,
    pub images: Vec<(AssetId, Vec<u8>)>,
}

/// What a [`Readback`] holds.
pub struct ReadbackView {
    pub storage: Seq<(u32, Seq<u8>)>,
    pub images: Seq<(AssetId, Seq<u8>)>,
}

/// The slots and bytes of `storage`, in order.
pub open spec fn storage_views(storage: Seq<(u32, Vec<u8>)>) -> Seq<(u32, Seq<u8>)> {
    storage.map_values(|s: (u32, Vec<u8>)| (s.0, s.1@))
}

/// The images and bytes of `images`, in order.
pub open spec fn image_views(images: Seq<(AssetId, Vec<u8>)>) -> Seq<(AssetId, Seq<u8>)> {
    images.map_values(|s: (AssetId, Vec<u8>)| (s.0, s.1@))
}

impl View for Readback {
    type V = ReadbackView;

    open spec fn view(&self) -> ReadbackView {
        ReadbackView { storage: storage_views(self.storage@), images: image_views(self.images@) }
    }
}

/// The results that the mapped staging buffers hold: all of them, or the
/// first error, the slots before the images.
pub open spec fn readback(
    staging: Seq<(u32, StagingBuffer)>,
    images: Seq<(AssetId, BufferDimensions)>,
    mapped_storage: Seq<Option<Seq<u8>>>,
    mapped_images: Seq<Option<Seq<u8>>>,
) -> Result<ReadbackView, ErrorView> {
    match collect(slot_results(staging, mapped_storage)) {
        Err(e) => Err(e),
        Ok(storage) => match collect(image_results(images, mapped_images)) {
            Err(e) => Err(e),
            Ok(images) => Ok(ReadbackView { storage, images }),
        },
    }
}

/// Reads the bytes of each staged slot out of `mapped`.
pub fn read_storage(staging: &Vec<(u32, StagingBuffer)>, mapped: &Vec<Option<Vec<u8>>>) -> (read:
    Result<Vec<(u32, Vec<u8>)>, Error>)
    ensures
        match collect(slot_results(staging@, mapped_views(mapped@))) {
            Ok(storage) => read is Ok && storage_views(read->Ok_0@) == storage,
            Err(e) => read is Err && read->Err_0@ == e,
        },
{
    let ghost results = slot_results(staging@, mapped_views(mapped@));
    let mut storage: Vec<(u32, Vec<u8>)> = Vec::new();
    let mut i: usize = 0;
    assert(results.take(0) =~= Seq::empty());
    assert(storage_views(storage@) =~= Seq::empty());
    while i < staging.len()
        invariant
            i <= staging@.len(),
            results == slot_results(staging@, mapped_views(mapped@)),
            collect(results.take(i as int)) == Ok::<_, ErrorView>(storage_views(storage@)),
        decreases staging@.len() - i,
    {
        let (slot, buffer) = staging[i];
        proof {
            assert(results.take(i + 1).drop_last() =~= results.take(i as int));
            assert(results.take(i + 1).last() == results[i as int]);
        }
        if i >= mapped.len() {
            proof {
                lemma_collect_fails(results, i + 1);
            }
            return Err(Error::StagingBufferMissing(StagingTarget::Slot(slot)));
        }
        assert(mapped_views(mapped@)[i as int] == match mapped@[i as int] {
            Some(bytes) => Some(bytes@),
            None => None,
        });
        match &mapped[i] {
            Some(bytes) if bytes.len() as u64 == buffer.size => {
                let copy = slice_to_vec(bytes.as_slice());
                let ghost before = storage@;
                storage.push((slot, copy));
                assert(storage_views(storage@) =~= storage_views(before).push((slot, copy@)));
            },
            _ => {
                proof {
                    lemma_collect_fails(results, i + 1);
                }
                return Err(Error::MappingFailed);
            },
        }
        i += 1;
    }
    assert(results.take(i as int) =~= results);
    Ok(storage)
}

/// Reads the rows of each image out of `mapped`, without their padding.
pub fn read_images(images: &Vec<(AssetId, BufferDimensions)>, mapped: &Vec<Option<Vec<u8>>>) -> (read:
    Result<Vec<(AssetId, Vec<u8>)>, Error>)
    ensures
        match collect(image_results(images@, mapped_views(mapped@))) {
            Ok(data) => read is Ok && image_views(read->Ok_0@) == data,
            Err(e) => read is Err && read->Err_0@ == e,
        },
{
    let ghost results = image_results(images@, mapped_views(mapped@));
    let mut data: Vec<(AssetId, Vec<u8>)> = Vec::new();
    let mut i: usize = 0;
    assert(results.take(0) =~= Seq::empty());
    assert(image_views(data@) =~= Seq::empty());
    while i < images.len()
        invariant
            i <= images@.len(),
            results == image_results(images@, mapped_views(mapped@)),
            collect(results.take(i as int)) == Ok::<_, ErrorView>(image_views(data@)),
        decreases images@.len() - i,
    {
        let (handle, dim) = images[i];
        proof {
            assert(results.take(i + 1).drop_last() =~= results.take(i as int));
            assert(results.take(i + 1).last() == results[i as int]);
        }
        if i >= mapped.len() {
            proof {
                lemma_collect_fails(results, i + 1);
            }
            return Err(Error::StagingBufferMissing(StagingTarget::Image(i)));
        }
        assert(mapped_views(mapped@)[i as int] == match mapped@[i as int] {
            Some(bytes) => Some(bytes@),
            None => None,
        });
        match &mapped[i] {
            Some(bytes) if dim.unpadded_bytes_per_row <= dim.padded_bytes_per_row && has_rows(
                bytes.len(),
                &dim,
            ) => {
                let rows = strip_row_padding(bytes.as_slice(), &dim);
                let ghost before = data@;
                data.push((handle, rows));
                assert(image_views(data@) =~= image_views(before).push((handle, rows@)));
            },
            _ => {
                proof {
                    lemma_collect_fails(results, i + 1);
                }
                return Err(Error::MappingFailed);
            },
        }
        i += 1;
    }
    assert(results.take(i as int) =~= results);
    Ok(data)
}

/// Reads the results of one dispatch out of the mapped staging buffers:
/// `mapped_storage` holds what the device handed back for each of `staging`,
/// `mapped_images` what it handed back for each of `images`.  It is all or
/// nothing: with the first staging buffer that was not mapped, or does not
/// hold what it was made for, the readback fails as a whole.
pub fn read_back(
    staging: &Vec<(u32, StagingBuffer)>,
    images: &Vec<(AssetId, BufferDimensions)>,
    mapped_storage: &Vec<Option<Vec<u8>>>,
    mapped_images: &Vec<Option<Vec<u8>>>,
) -> (read: Result<Readback, Error>)
    ensures
        match readback(
            staging@,
            images@,
            mapped_views(mapped_storage@),
            mapped_views(mapped_images@),
        ) {
            Ok(results) => read is Ok && read->Ok_0@ == results,
            Err(e) => read is Err && read->Err_0@ == e,
        },
{
    let storage = match read_storage(staging, mapped_storage) {
        Ok(storage) => storage,
        Err(e) => {
            return Err(e);
        },
    };
    match read_images(images, mapped_images) {
        Ok(images) => Ok(Readback { storage, images }),
        Err(e) => Err(e),
    }
}

/// The slots of `staging`, each with the bytes of `written` at its position.
pub open spec fn staged_bytes(staging: Seq<(u32, StagingBuffer)>, written: Seq<Seq<u8>>) -> Seq<
    (u32, Seq<u8>),
> {
    Seq::new(staging.len(), |i: int| (staging[i].0, written[i]))
}

/// The bytes of a binding slot come back as they were staged: where the
/// device maps the staging buffer of every slot with the bytes that were
/// written to it, the readback holds exactly those bytes for each slot.
pub proof fn lemma_storage_round_trip(staging: Seq<(u32, StagingBuffer)>, written: Seq<Seq<u8>>)
    requires
        written.len() == staging.len(),
        forall|i: int| 0 <= i < staging.len() ==> (#[trigger] written[i]).len() == staging[i].1.size,
    ensures
        collect(slot_results(staging, all_mapped(written))) == Ok::<_, ErrorView>(
            staged_bytes(staging, written),
        ),
    decreases staging.len(),
{
    let results = slot_results(staging, all_mapped(written));
    let expected = staged_bytes(staging, written);
    if staging.len() == 0 {
        assert(expected =~= Seq::empty());
    } else {
        let shorter = staging.drop_last();
        let fewer = written.drop_last();
        lemma_storage_round_trip(shorter, fewer);
        assert(results.drop_last() =~= slot_results(shorter, all_mapped(fewer)));
        assert(results.last() == Ok::<_, ErrorView>((staging.last().0, written.last())));
        assert(expected =~= staged_bytes(shorter, fewer).push((staging.last().0, written.last())));
    }
}

} // verus!
