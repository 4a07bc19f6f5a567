use bevy_sly_compute::resources::{BufferDimensions, COPY_BYTES_PER_ROW_ALIGNMENT};

#[test]
fn aligned_row_is_not_padded() {
    let dim = BufferDimensions::new(256, 4, 4);
    assert_eq!(dim.unpadded_bytes_per_row, 1024);
    assert_eq!(dim.padded_bytes_per_row, 1024);
}

#[test]
fn unaligned_row_is_padded_to_next_multiple() {
    let dim = BufferDimensions::new(100, 7, 4);
    assert_eq!(
        dim,
        BufferDimensions {
            width: 100,
            height: 7,
            unpadded_bytes_per_row: 400,
            padded_bytes_per_row: 512,
        }
    );
}

#[test]
fn small_image_is_padded_to_one_alignment() {
    let dim = BufferDimensions::new(8, 8, 4);
    assert_eq!(dim.unpadded_bytes_per_row, 32);
    assert_eq!(dim.padded_bytes_per_row, 256);
    assert_eq!(dim.buffer_size(), 2048);
}

#[test]
fn empty_row_needs_no_padding() {
    let dim = BufferDimensions::new(0, 3, 4);
    assert_eq!(dim.unpadded_bytes_per_row, 0);
    assert_eq!(dim.padded_bytes_per_row, 0);
    assert_eq!(dim.buffer_size(), 0);
    let dim = BufferDimensions::new(5, 3, 0);
    assert_eq!(dim.padded_bytes_per_row, 0);
}

#[test]
fn one_byte_over_the_alignment_takes_two() {
    let dim = BufferDimensions::new(257, 1, 1);
    assert_eq!(dim.padded_bytes_per_row, 512);
    let dim = BufferDimensions::new(255, 1, 1);
    assert_eq!(dim.padded_bytes_per_row, 256);
    let dim = BufferDimensions::new(1, 1, 1);
    assert_eq!(dim.padded_bytes_per_row, 256);
}

#[test]
fn padding_law_holds_on_a_range_of_rows() {
    for width in 0..600usize {
        for align in [1usize, 2, 3, 64, 256] {
            let dim = BufferDimensions::with_alignment(width, 1, 3, align);
            let unpadded = width * 3;
            assert_eq!(dim.unpadded_bytes_per_row, unpadded);
            assert_eq!(dim.padded_bytes_per_row, (unpadded + align - 1) / align * align);
            assert!(dim.padded_bytes_per_row >= unpadded);
            assert_eq!(dim.padded_bytes_per_row % align, 0);
            assert!(dim.padded_bytes_per_row - unpadded < align);
            assert_eq!(dim.padded_bytes_per_row == unpadded, unpadded % align == 0);
        }
    }
}

#[test]
fn other_alignment_is_honoured() {
    let dim = BufferDimensions::with_alignment(100, 2, 4, 64);
    assert_eq!(dim.unpadded_bytes_per_row, 400);
    assert_eq!(dim.padded_bytes_per_row, 448);
    let dim = BufferDimensions::with_alignment(100, 2, 4, 1);
    assert_eq!(dim.padded_bytes_per_row, 400);
}

#[test]
fn checked_new_refuses_rows_the_machine_cannot_hold() {
    assert_eq!(BufferDimensions::checked_new(usize::MAX, 1, 2), None);
    assert_eq!(BufferDimensions::checked_new(usize::MAX, 1, 1), None);
    assert_eq!(BufferDimensions::checked_new(usize::MAX - 255, 1, 1), Some(BufferDimensions {
        width: usize::MAX - 255,
        height: 1,
        unpadded_bytes_per_row: usize::MAX - 255,
        padded_bytes_per_row: usize::MAX - 255,
    }));
    assert_eq!(BufferDimensions::checked_new(100, 7, 4), Some(BufferDimensions::new(100, 7, 4)));
}

#[test]
fn buffer_size_is_padded_row_times_height() {
    let dim = BufferDimensions::new(100, 7, 4);
    assert_eq!(dim.buffer_size(), 3584);
    assert_eq!(dim.checked_buffer_size(), Some(3584));
    let huge = BufferDimensions {
        width: 1,
        height: usize::MAX,
        unpadded_bytes_per_row: 4,
        padded_bytes_per_row: 256,
    };
    assert_eq!(huge.checked_buffer_size(), None);
}

#[test]
fn alignment_is_that_of_the_device() {
    assert_eq!(COPY_BYTES_PER_ROW_ALIGNMENT, 256);
    assert_eq!(COPY_BYTES_PER_ROW_ALIGNMENT, wgpu::COPY_BYTES_PER_ROW_ALIGNMENT as usize);
}
