use xeen_sprite_convert::frame::{
    get_cell_offset_info_new, read_cell_headers, read_frame_count, CellData, Frame,
};
use xeen_sprite_convert::sprite_convert::cell_to_rgb32;
use xeen_sprite_convert::SpriteError;

/// A palette whose entry `i` is the reduced-precision triplet
/// `(i % 64, (i / 2) % 64, (i / 3) % 64)`.
fn test_palette() -> Vec<u8> {
    let mut pal = Vec::new();
    for i in 0..256usize {
        pal.push((i % 64) as u8);
        pal.push(((i / 2) % 64) as u8);
        pal.push(((i / 3) % 64) as u8);
    }
    pal
}

/// The four RGBA bytes the decoder writes for palette index `i`.
fn px(pal: &[u8], i: usize) -> [u8; 4] {
    [pal[3 * i + 2] << 2, pal[3 * i + 1] << 2, pal[3 * i] << 2, 0xFF]
}

fn cell(offset: u16, x_offset: u16, width: u16, y_offset: u16, height: u16) -> CellData {
    CellData { offset, x_offset, width, y_offset, height, cell_color_data: Vec::new() }
}

/// An archive holding one cell at offset 0: 8 placeholder header bytes,
/// then the given stream.
fn arch_with_stream(stream: &[u8]) -> Vec<u8> {
    let mut a = vec![0u8; 8];
    a.extend_from_slice(stream);
    a
}

#[test]
fn repeat_opcode_fills_identical_pixels() {
    let pal = test_palette();
    // line length 3: row start, opcode, operand; opcode 0x40 = command 2,
    // length 0, so 3 pixels of palette index 5
    let arch = arch_with_stream(&[3, 0, 0x40, 5]);
    let buf = cell_to_rgb32(&cell(0, 0, 8, 0, 1), &pal, 0, &arch).unwrap();
    assert_eq!(buf.len(), 32);
    let p = px(&pal, 5);
    for k in 0..3 {
        assert_eq!(&buf[4 * k..4 * k + 4], &p);
    }
    for k in 3..8 {
        assert_eq!(&buf[4 * k..4 * k + 4], &[0, 0, 0, 0]);
    }
}

#[test]
fn interleave_opcode_alternates() {
    let pal = test_palette();
    // opcode 0x81 = command 4, length 1: pairs (20, 30) for 3 iterations
    let arch = arch_with_stream(&[4, 0, 0x81, 20, 30]);
    let buf = cell_to_rgb32(&cell(0, 0, 8, 0, 1), &pal, 0, &arch).unwrap();
    for k in 0..6 {
        let want = if k % 2 == 0 { px(&pal, 20) } else { px(&pal, 30) };
        assert_eq!(&buf[4 * k..4 * k + 4], &want);
    }
    for k in 6..8 {
        assert_eq!(&buf[4 * k..4 * k + 4], &[0, 0, 0, 0]);
    }
}

#[test]
fn transparent_advance_skips_pixels() {
    let pal = test_palette();
    // opcode 0xA1 = command 5, length 1: advance 2 pixels, then a repeat
    // run of 3 pixels of index 7 starting at column 2
    let arch = arch_with_stream(&[4, 0, 0xA1, 0x40, 7]);
    let buf = cell_to_rgb32(&cell(0, 0, 5, 0, 1), &pal, 0, &arch).unwrap();
    assert_eq!(&buf[0..8], &[0u8; 8]);
    let p = px(&pal, 7);
    for k in 2..5 {
        assert_eq!(&buf[4 * k..4 * k + 4], &p);
    }
}

#[test]
fn literal_run_copies_stream_bytes() {
    let pal = test_palette();
    // opcode 0x02 = command 0, so 3 raw palette indices follow
    let arch = arch_with_stream(&[5, 0, 0x02, 9, 17, 33]);
    let buf = cell_to_rgb32(&cell(0, 0, 4, 0, 1), &pal, 0, &arch).unwrap();
    assert_eq!(&buf[0..4], &px(&pal, 9));
    assert_eq!(&buf[4..8], &px(&pal, 17));
    assert_eq!(&buf[8..12], &px(&pal, 33));
    assert_eq!(&buf[12..16], &[0, 0, 0, 0]);
}

#[test]
fn back_reference_reads_input_stream() {
    let pal = test_palette();
    // literal run of 10, 11 then opcode 0x60 = command 3, length 0: four
    // bytes re-read from the stream five bytes behind the cursor, which
    // covers the two literals, the back-reference opcode itself, and the
    // low distance byte
    let arch = arch_with_stream(&[7, 0, 0x01, 10, 11, 0x60, 5, 0]);
    let buf = cell_to_rgb32(&cell(0, 0, 8, 0, 1), &pal, 0, &arch).unwrap();
    assert_eq!(&buf[0..4], &px(&pal, 10));
    assert_eq!(&buf[4..8], &px(&pal, 11));
    assert_eq!(&buf[8..12], &px(&pal, 10));
    assert_eq!(&buf[12..16], &px(&pal, 11));
    assert_eq!(&buf[16..20], &px(&pal, 0x60));
    assert_eq!(&buf[20..24], &px(&pal, 5));
    assert_eq!(&buf[24..32], &[0u8; 8]);
}

#[test]
fn stepped_pattern_wraps_modulo_256() {
    let pal = test_palette();
    // opcode 0xD9: commands 6-7 space, three-bit length 1 (4 pixels),
    // step-table base 6 (steps +3, +3); starting at 254 the running value
    // wraps: 254, 1, 4, 7
    let arch = arch_with_stream(&[3, 0, 0xD9, 254]);
    let buf = cell_to_rgb32(&cell(0, 0, 4, 0, 1), &pal, 0, &arch).unwrap();
    assert_eq!(&buf[0..4], &px(&pal, 254));
    assert_eq!(&buf[4..8], &px(&pal, 1));
    assert_eq!(&buf[8..12], &px(&pal, 4));
    assert_eq!(&buf[12..16], &px(&pal, 7));
}

#[test]
fn vertical_skip_marker_skips_rows() {
    let pal = test_palette();
    // row 0 is a skip marker over two rows; decoding resumes at row 3,
    // which draws 3 pixels of index 2
    let arch = arch_with_stream(&[0, 2, 3, 0, 0x40, 2]);
    let buf = cell_to_rgb32(&cell(0, 0, 4, 0, 4), &pal, 0, &arch).unwrap();
    assert_eq!(&buf[0..48], &[0u8; 48]);
    let p = px(&pal, 2);
    for k in 0..3 {
        assert_eq!(&buf[48 + 4 * k..48 + 4 * k + 4], &p);
    }
    assert_eq!(&buf[60..64], &[0, 0, 0, 0]);
}

#[test]
fn transparent_stream_decodes_blank() {
    let pal = test_palette();
    // two rows, each a single transparent advance covering the full width
    let arch = arch_with_stream(&[2, 0, 0xA3, 2, 0, 0xA3]);
    let buf = cell_to_rgb32(&cell(0, 0, 4, 0, 2), &pal, 0, &arch).unwrap();
    assert_eq!(buf, vec![0u8; 32]);
}

#[test]
fn line_length_mismatch_is_corrupt() {
    let pal = test_palette();
    // declared line length 2, but the repeat opcode consumes a third byte
    let arch = arch_with_stream(&[2, 0, 0x40, 1]);
    let r = cell_to_rgb32(&cell(0, 0, 8, 0, 1), &pal, 0, &arch);
    assert_eq!(r, Err(SpriteError::CorruptCellStream));
}

#[test]
fn truncated_stream_is_corrupt() {
    let pal = test_palette();
    // the stream ends in the middle of a row
    let arch = arch_with_stream(&[3, 0]);
    let r = cell_to_rgb32(&cell(0, 0, 4, 0, 1), &pal, 0, &arch);
    assert_eq!(r, Err(SpriteError::CorruptCellStream));
}

#[test]
fn pixel_write_past_buffer_is_corrupt() {
    let pal = test_palette();
    // a repeat run of 3 pixels into a cell that holds only 2
    let arch = arch_with_stream(&[3, 0, 0x40, 0]);
    let r = cell_to_rgb32(&cell(0, 0, 2, 0, 1), &pal, 0, &arch);
    assert_eq!(r, Err(SpriteError::CorruptCellStream));
}

#[test]
fn back_reference_before_buffer_is_corrupt() {
    let pal = test_palette();
    // distance far larger than the cursor position
    let arch = arch_with_stream(&[4, 0, 0x60, 0xFF, 0xFF]);
    let r = cell_to_rgb32(&cell(0, 0, 8, 0, 1), &pal, 0, &arch);
    assert_eq!(r, Err(SpriteError::CorruptCellStream));
}

#[test]
fn palette_too_small_is_reported() {
    let pal = vec![0u8; 767];
    let arch = arch_with_stream(&[2, 0, 0xA0]);
    let r = cell_to_rgb32(&cell(0, 0, 4, 0, 1), &pal, 0, &arch);
    assert_eq!(r, Err(SpriteError::PaletteTooSmall));
}

#[test]
fn end_to_end_bounds_violation_reports_corrupt_stream() {
    // a one-frame archive: frame count 1, single cell at offset 6, header
    // (x_offset 0, width 2, y_offset 0, height 1), palette entry 0 is
    // (63, 0, 0), and the row is a repeat run of 3 pixels, one more than
    // the cell's 2 addressable pixels: the bounds check must fire
    let mut archive: Vec<u8> = Vec::new();
    archive.extend_from_slice(&[1, 0]); // frame count
    archive.extend_from_slice(&[6, 0, 0, 0]); // cell refs: 6 and none
    archive.extend_from_slice(&[0, 0, 2, 0, 0, 0, 1, 0]); // cell header
    archive.extend_from_slice(&[3, 0, 0x40, 0]); // the row
    let mut pal = vec![0u8; 768];
    pal[0] = 63;

    let mut frames = get_cell_offset_info_new(1, &archive).unwrap();
    assert_eq!(frames.len(), 1);
    assert_eq!(frames[0].cell_data.len(), 1);
    assert!(!frames[0].two_cells);
    assert_eq!(frames[0].cell_data[0].offset, 6);

    read_cell_headers(&mut frames, &archive).unwrap();
    let c = &frames[0].cell_data[0];
    assert_eq!((c.x_offset, c.width, c.y_offset, c.height), (0, 2, 0, 1));

    let r = cell_to_rgb32(c, &pal, 0, &archive);
    assert_eq!(r, Err(SpriteError::CorruptCellStream));
}

#[test]
fn truncated_offset_table_is_malformed() {
    let archive = vec![2u8, 0, 6, 0];
    let r = get_cell_offset_info_new(2, &archive);
    assert!(matches!(r, Err(SpriteError::MalformedArchive)));
}

#[test]
fn header_past_end_is_malformed() {
    let archive = vec![1u8, 0, 200, 0, 0, 0];
    let mut frames = get_cell_offset_info_new(1, &archive).unwrap();
    let r = read_cell_headers(&mut frames, &archive);
    assert_eq!(r, Err(SpriteError::MalformedArchive));
    // nothing was changed
    assert_eq!(frames[0].cell_data[0].offset, 200);
    assert_eq!(frames[0].cell_data[0].width, 0);
}

#[test]
fn offset_table_parses_one_and_two_cell_frames() {
    let mut archive = vec![2u8, 0];
    archive.extend_from_slice(&[10, 0, 20, 0]); // frame 0: two cells
    archive.extend_from_slice(&[30, 0, 0, 0]); // frame 1: one cell
    let frames = get_cell_offset_info_new(2, &archive).unwrap();
    assert_eq!(frames.len(), 2);
    assert!(frames[0].two_cells);
    assert_eq!(frames[0].cell_data.len(), 2);
    assert_eq!(frames[0].cell_data[0].offset, 10);
    assert_eq!(frames[0].cell_data[1].offset, 20);
    assert!(!frames[1].two_cells);
    assert_eq!(frames[1].cell_data.len(), 1);
    assert_eq!(frames[1].cell_data[0].offset, 30);
}

#[test]
fn cell_headers_read_little_endian_words() {
    let mut archive = vec![1u8, 0, 6, 0, 0, 0];
    archive.extend_from_slice(&[0x34, 0x12, 0x78, 0x56, 0xBC, 0x9A, 0xF0, 0xDE]);
    let mut frames = get_cell_offset_info_new(1, &archive).unwrap();
    read_cell_headers(&mut frames, &archive).unwrap();
    let c = &frames[0].cell_data[0];
    assert_eq!(c.x_offset, 0x1234);
    assert_eq!(c.width, 0x5678);
    assert_eq!(c.y_offset, 0x9ABC);
    assert_eq!(c.height, 0xDEF0);
}

#[test]
fn frame_dimensions_follow_tallest_cell() {
    // cells (height 10, y_offset 2) and (height 5, y_offset 8): the second
    // reaches 13, so the frame takes its height and offset, and the total
    // frame height is 13
    let mut f = Frame::new();
    f.push_cell_offset(0);
    f.push_cell_offset(0);
    f.cell_data[0].height = 10;
    f.cell_data[0].y_offset = 2;
    f.cell_data[0].width = 7;
    f.cell_data[1].height = 5;
    f.cell_data[1].y_offset = 8;
    f.cell_data[1].width = 4;
    f.set_frame_height();
    f.set_frame_width();
    assert_eq!(f.y_offset, 8);
    assert_eq!(f.frame_height, 5);
    assert_eq!(f.frame_height + f.y_offset, 13);
    assert_eq!(f.frame_width, 7);
}

#[test]
fn combine_takes_single_cell_unchanged() {
    let mut f = Frame::new();
    f.push_cell_offset(0);
    f.cell_data[0].cell_color_data = vec![1, 2, 3, 255, 0, 0, 0, 0];
    f.combine_color_data();
    assert_eq!(f.combined_color_data, vec![1, 2, 3, 255, 0, 0, 0, 0]);
}

#[test]
fn combine_opaque_cell_shows_through_transparent_cell() {
    let a = vec![1, 2, 3, 255, 4, 5, 6, 255];
    let b = vec![0u8; 8];
    let mut f = Frame::new();
    f.push_cell_offset(0);
    f.push_cell_offset(0);
    f.cell_data[0].cell_color_data = a.clone();
    f.cell_data[1].cell_color_data = b.clone();
    f.combine_color_data();
    assert_eq!(f.combined_color_data, a);

    // and the reverse layering gives the opaque second cell
    let mut g = Frame::new();
    g.push_cell_offset(0);
    g.push_cell_offset(0);
    g.cell_data[0].cell_color_data = b;
    g.cell_data[1].cell_color_data = a.clone();
    g.combine_color_data();
    assert_eq!(g.combined_color_data, a);
}

#[test]
fn combine_disjoint_cells_is_their_union() {
    // cell 0 draws only pixel 0, cell 1 draws only pixel 1
    let a = vec![9, 9, 9, 255, 0, 0, 0, 0];
    let b = vec![0, 0, 0, 0, 7, 7, 7, 255];
    let mut f = Frame::new();
    f.push_cell_offset(0);
    f.push_cell_offset(0);
    f.cell_data[0].cell_color_data = a;
    f.cell_data[1].cell_color_data = b;
    f.combine_color_data();
    assert_eq!(f.combined_color_data, vec![9, 9, 9, 255, 7, 7, 7, 255]);
}

#[test]
fn combine_second_cell_overwrites_first() {
    let a = vec![1, 1, 1, 255, 2, 2, 2, 255];
    let b = vec![8, 8, 8, 255, 0, 0, 0, 0];
    let mut f = Frame::new();
    f.push_cell_offset(0);
    f.push_cell_offset(0);
    f.cell_data[0].cell_color_data = a;
    f.cell_data[1].cell_color_data = b;
    f.combine_color_data();
    assert_eq!(f.combined_color_data, vec![8, 8, 8, 255, 2, 2, 2, 255]);
}

#[test]
fn combine_uses_longer_cell_length() {
    let a = vec![1, 1, 1, 255];
    let b = vec![0, 0, 0, 0, 5, 5, 5, 255];
    let mut f = Frame::new();
    f.push_cell_offset(0);
    f.push_cell_offset(0);
    f.cell_data[0].cell_color_data = a;
    f.cell_data[1].cell_color_data = b;
    f.combine_color_data();
    assert_eq!(f.combined_color_data, vec![1, 1, 1, 255, 5, 5, 5, 255]);
}

#[test]
fn rgba_to_u32_packs_big_endian() {
    assert_eq!(Frame::rgba_to_u32(0x12, 0x34, 0x56, 0x78), 0x12345678);
    assert_eq!(Frame::rgba_to_u32(0, 0, 0, 0), 0);
    assert_ne!(Frame::rgba_to_u32(0, 0, 0, 255), 0);
}

#[test]
fn x_offset_shifts_row_start() {
    let pal = test_palette();
    // the cell's x offset is added to the row start byte
    let arch = arch_with_stream(&[3, 1, 0x40, 3]);
    let buf = cell_to_rgb32(&cell(0, 2, 8, 0, 1), &pal, 0, &arch).unwrap();
    // width is 8, horizontal extent 10: buffer holds 10 pixels per row
    assert_eq!(buf.len(), 40);
    assert_eq!(&buf[0..12], &[0u8; 12]);
    let p = px(&pal, 3);
    for k in 3..6 {
        assert_eq!(&buf[4 * k..4 * k + 4], &p);
    }
}

#[test]
fn frame_count_is_little_endian() {
    assert_eq!(read_frame_count(&vec![0x02, 0x01, 9, 9]), Ok(0x0102));
    assert_eq!(read_frame_count(&vec![7]), Err(SpriteError::MalformedArchive));
}
