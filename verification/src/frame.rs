//! Frames and cells: archive layout parsing and frame compositing.
//!
//! A frame owns one or two cells.  [`get_cell_offset_info_new`] reads the
//! per-frame cell offsets from the archive, [`read_cell_headers`] fills in
//! each cell's geometry header, and [`Frame::combine_color_data`] layers the
//! decoded cell buffers into the frame's combined buffer, modelled by the
//! [`overlay`] spec function.

use vstd::prelude::*;

use crate::sprite_convert::le16;
use crate::sprite_convert::pixel_at;
use crate::sprite_convert::zero_buf;
use crate::SpriteError;

verus! {

/// One rectangular decoded sub-image of a frame.
pub struct CellData {
    /// Byte offset of the cell's header in the archive buffer.
    pub offset: u16,
    /// Horizontal offset of the cell's pixels.
    pub x_offset: u16,
    /// Width of the cell's pixel rows.
    pub width: u16,
    /// Vertical offset of the cell's pixels.
    pub y_offset: u16,
    /// Number of pixel rows the stream encodes.
    pub height: u16,
    /// The decoded RGBA buffer, filled by the cell decoder.
    pub cell_color_data: Vec<u8>,
}

/// One composited sprite image, built from one or two cells.
pub struct Frame {
    /// The frame's cells; one or two in a well-formed archive.
    pub cell_data: Vec<CellData>,
    /// The final color data after combining the cells.
    pub combined_color_data: Vec<u8>,
    /// Height of the tallest cell (its `height` field alone).
    pub frame_height: u16,
    /// The larger of the cells' widths.
    pub frame_width: u16,
    /// Vertical offset of the tallest cell.
    pub y_offset: u16,
    /// Whether the frame has a second cell.
    pub two_cells: bool,
}

/// Whether the 4-byte pixel `p` of buffer `s` differs from the fully
/// transparent sentinel (all four channel bytes zero).
pub open spec fn pixel_nonzero(s: Seq<u8>, p: int) -> bool {
    s[4 * p] != 0 || s[4 * p + 1] != 0 || s[4 * p + 2] != 0 || s[4 * p + 3] != 0
}

/// Layers `src` over `dst`: every complete pixel of `src` that is not the
/// transparent sentinel replaces the bytes of `dst` at the same offsets,
/// while sentinel pixels let `dst` show through.
pub open spec fn overlay(dst: Seq<u8>, src: Seq<u8>) -> Seq<u8> {
    Seq::new(
        dst.len(),
        |j: int|
            if j / 4 < src.len() / 4 && pixel_nonzero(src, j / 4) {
                src[j]
            } else {
                dst[j]
            },
    )
}

/// A cell as first recorded from the offset table, before its header or
/// pixels have been read.
pub open spec fn initial_cell(c: CellData, offset: u16) -> bool {
    &&& c.offset == offset
    &&& c.x_offset == 0
    &&& c.width == 0
    &&& c.y_offset == 0
    &&& c.height == 0
    &&& c.cell_color_data@.len() == 0
}

/// A frame as first built from its pair of archive offsets: one cell for
/// `o1`, a second for `o2` only when `o2` is nonzero.
pub open spec fn initial_frame(f: Frame, o1: u16, o2: u16) -> bool {
    &&& f.cell_data@.len() == (if o2 != 0 {
        2int
    } else {
        1int
    })
    &&& initial_cell(f.cell_data@[0], o1)
    &&& (o2 != 0 ==> initial_cell(f.cell_data@[1], o2))
    &&& f.combined_color_data@.len() == 0
    &&& f.frame_height == 0
    &&& f.frame_width == 0
    &&& f.y_offset == 0
    &&& f.two_cells == (o2 != 0)
}

/// Relation between a cell before and after its 8-byte geometry header has
/// been read from the archive: the four little-endian words at the cell's
/// offset become its geometry, everything else is kept.
pub open spec fn header_filled(c0: CellData, c1: CellData, arch: Seq<u8>) -> bool {
    &&& c1.offset == c0.offset
    &&& c1.cell_color_data@ == c0.cell_color_data@
    &&& c1.x_offset as int == le16(arch, c0.offset as int)
    &&& c1.width as int == le16(arch, c0.offset as int + 2)
    &&& c1.y_offset as int == le16(arch, c0.offset as int + 4)
    &&& c1.height as int == le16(arch, c0.offset as int + 6)
}

/// Relation between a frame before and after all its cell headers have
/// been read.
pub open spec fn frame_headers_filled(f0: Frame, f1: Frame, arch: Seq<u8>) -> bool {
    &&& f1.cell_data@.len() == f0.cell_data@.len()
    &&& forall|j: int|
        0 <= j < f0.cell_data@.len() ==> header_filled(
            f0.cell_data@[j],
            #[trigger] f1.cell_data@[j],
            arch,
        )
    &&& f1.combined_color_data@ == f0.combined_color_data@
    &&& f1.frame_height == f0.frame_height
    &&& f1.frame_width == f0.frame_width
    &&& f1.y_offset == f0.y_offset
    &&& f1.two_cells == f0.two_cells
}

/// A 16-bit little-endian integer read from the archive.
fn read16(buf: &Vec<u8>, i: usize) -> (v: u16)
    requires
        i + 2 <= buf@.len(),
        i + 2 <= usize::MAX as int,
    ensures
        v as int == le16(buf@, i as int),
{
    buf[i] as u16 + 256 * (buf[i + 1] as u16)
}

impl Frame {
    /// A frame with no cells and empty dimensions.
    pub fn new() -> (f: Frame)
        ensures
            f.cell_data@.len() == 0,
            f.combined_color_data@.len() == 0,
            f.frame_height == 0,
            f.frame_width == 0,
            f.y_offset == 0,
            !f.two_cells,
    {
        Frame {
            cell_data: Vec::new(),
            combined_color_data: Vec::new(),
            frame_height: 0,
            frame_width: 0,
            y_offset: 0,
            two_cells: false,
        }
    }

    /// Appends a fresh cell recording only its archive offset, and marks
    /// the frame two-celled once a second cell arrives.
    pub fn push_cell_offset(&mut self, offset: u16)
        ensures
            final(self).cell_data@.len() == old(self).cell_data@.len() + 1,
            forall|i: int|
                0 <= i < old(self).cell_data@.len() ==> final(self).cell_data@[i] == old(
                    self,
                ).cell_data@[i],
            initial_cell(final(self).cell_data@.last(), offset),
            final(self).two_cells == (old(self).two_cells || final(self).cell_data@.len() == 2),
            final(self).combined_color_data@ == old(self).combined_color_data@,
            final(self).frame_height == old(self).frame_height,
            final(self).frame_width == old(self).frame_width,
            final(self).y_offset == old(self).y_offset,
    {
        let cell = CellData {
            offset,
            x_offset: 0,
            width: 0,
            y_offset: 0,
            height: 0,
            cell_color_data: Vec::new(),
        };
        self.cell_data.push(cell);
        if self.cell_data.len() == 2 {
            self.two_cells = true;
        }
    }

    /// Finds the cell whose height plus vertical offset is greatest (the
    /// later cell on a tie) and takes that cell's own height and vertical
    /// offset as the frame's height and offset.
    pub fn set_frame_height(&mut self)
        requires
            1 <= old(self).cell_data@.len() <= 2,
        ensures
            ({
                let cs = old(self).cell_data@;
                let pick = if cs.len() == 2 && cs[1].height + cs[1].y_offset >= cs[0].height
                    + cs[0].y_offset {
                    cs[1]
                } else {
                    cs[0]
                };
                final(self).frame_height == pick.height && final(self).y_offset == pick.y_offset
            }),
            final(self).cell_data@ == old(self).cell_data@,
            final(self).combined_color_data@ == old(self).combined_color_data@,
            final(self).frame_width == old(self).frame_width,
            final(self).two_cells == old(self).two_cells,
    {
        let mut best: usize = 0;
        if self.cell_data.len() == 2 {
            let s0: usize = self.cell_data[0].height as usize + self.cell_data[0].y_offset
                as usize;
            let s1: usize = self.cell_data[1].height as usize + self.cell_data[1].y_offset
                as usize;
            if s1 >= s0 {
                best = 1;
            }
        }
        self.frame_height = self.cell_data[best].height;
        self.y_offset = self.cell_data[best].y_offset;
    }

    /// Takes the larger of the cells' widths (a missing second cell counts
    /// as width zero) as the frame's width.
    pub fn set_frame_width(&mut self)
        requires
            1 <= old(self).cell_data@.len(),
        ensures
            ({
                let cs = old(self).cell_data@;
                let w1: u16 = if cs.len() >= 2 {
                    cs[1].width
                } else {
                    0
                };
                final(self).frame_width == (if w1 > cs[0].width {
                    w1
                } else {
                    cs[0].width
                })
            }),
            final(self).cell_data@ == old(self).cell_data@,
            final(self).combined_color_data@ == old(self).combined_color_data@,
            final(self).frame_height == old(self).frame_height,
            final(self).y_offset == old(self).y_offset,
            final(self).two_cells == old(self).two_cells,
    {
        let w0 = self.cell_data[0].width;
        let mut w1: u16 = 0;
        if self.cell_data.len() >= 2 {
            w1 = self.cell_data[1].width;
        }
        self.frame_width = if w1 > w0 {
            w1
        } else {
            w0
        };
    }

    /// Packs four channel bytes into one big-endian RGBA word; the word is
    /// zero exactly when all four channels are zero.
    pub fn rgba_to_u32(r: u8, g: u8, b: u8, a: u8) -> (c: u32)
        ensures
            c == ((r as u32) << 24) | ((g as u32) << 16) | ((b as u32) << 8) | (a as u32),
            (c == 0) <==> (r == 0 && g == 0 && b == 0 && a == 0),
    {
        let red = (r as u32) << 24;
        let green = (g as u32) << 16;
        let blue = (b as u32) << 8;
        let alpha = a as u32;
        proof {
            let r32 = r as u32;
            let g32 = g as u32;
            let b32 = b as u32;
            let a32 = a as u32;
            assert(((r32 << 24) | (g32 << 16) | (b32 << 8) | a32 == 0) <==> (r32 == 0 && g32 == 0
                && b32 == 0 && a32 == 0)) by (bit_vector)
                requires
                    r32 < 256,
                    g32 < 256,
                    b32 < 256,
                    a32 < 256,
            ;
        }
        red | green | blue | alpha
    }

    /// Combines the frame's cells into its final buffer: a single cell's
    /// buffer is taken as it is; with two cells, every non-sentinel pixel
    /// of the first and then of the second cell is copied over a fully
    /// transparent buffer sized to the longer of the two, so the second
    /// cell is layered on top of the first.
    #[verifier::loop_isolation(false)]
    pub fn combine_color_data(&mut self)
        requires
            old(self).two_cells ==> old(self).cell_data@.len() >= 2,
            !old(self).two_cells ==> old(self).cell_data@.len() >= 1,
            forall|i: int|
                0 <= i < old(self).cell_data@.len() ==> #[trigger] old(
                    self,
                ).cell_data@[i].cell_color_data@.len() % 4 == 0,
        ensures
            !old(self).two_cells ==> final(self).combined_color_data@ == old(
                self,
            ).cell_data@[0].cell_color_data@,
            old(self).two_cells ==> ({
                let c0 = old(self).cell_data@[0].cell_color_data@;
                let c1 = old(self).cell_data@[1].cell_color_data@;
                let longest: int = if c0.len() >= c1.len() {
                    c0.len() as int
                } else {
                    c1.len() as int
                };
                final(self).combined_color_data@ == overlay(overlay(zero_buf(longest), c0), c1)
            }),
            final(self).cell_data@ == old(self).cell_data@,
            final(self).frame_height == old(self).frame_height,
            final(self).frame_width == old(self).frame_width,
            final(self).y_offset == old(self).y_offset,
            final(self).two_cells == old(self).two_cells,
    {
        if !self.two_cells {
            let n = self.cell_data[0].cell_color_data.len();
            let mut combined: Vec<u8> = Vec::new();
            let mut j: usize = 0;
            while j < n
                invariant
                    j <= n,
                    n == self.cell_data@[0].cell_color_data@.len(),
                    combined@ == self.cell_data@[0].cell_color_data@.take(j as int),
                decreases n - j,
            {
                combined.push(self.cell_data[0].cell_color_data[j]);
                proof {
                    assert(combined@ =~= self.cell_data@[0].cell_color_data@.take(j as int + 1));
                }
                j += 1;
            }
            proof {
                assert(combined@ =~= self.cell_data@[0].cell_color_data@);
            }
            self.combined_color_data = combined;
        } else {
            let len0 = self.cell_data[0].cell_color_data.len();
            let len1 = self.cell_data[1].cell_color_data.len();
            let longest: usize = if len0 >= len1 {
                len0
            } else {
                len1
            };
            let mut combined: Vec<u8> = Vec::new();
            let mut f: usize = 0;
            while f < longest
                invariant
                    f <= longest,
                    combined@ == zero_buf(f as int),
                decreases longest - f,
            {
                combined.push(0u8);
                proof {
                    assert(combined@ =~= zero_buf(f as int + 1));
                }
                f += 1;
            }
            overlay_into(&mut combined, &self.cell_data[0].cell_color_data);
            overlay_into(&mut combined, &self.cell_data[1].cell_color_data);
            self.combined_color_data = combined;
        }
    }
}

/// Copies every non-sentinel pixel of `src` into `dst` at the same byte
/// offsets, leaving `dst` untouched under sentinel pixels.
#[verifier::loop_isolation(false)]
fn overlay_into(dst: &mut Vec<u8>, src: &Vec<u8>)
    requires
        src@.len() % 4 == 0,
        src@.len() <= old(dst)@.len(),
    ensures
        final(dst)@ == overlay(old(dst)@, src@),
{
    let np = src.len() / 4;
    let mut p: usize = 0;
    while p < np
        invariant
            p <= np,
            dst@.len() == old(dst)@.len(),
            forall|j: int|
                0 <= j < dst@.len() ==> dst@[j] == (if j / 4 < p && pixel_nonzero(src@, j / 4) {
                    src@[j]
                } else {
                    old(dst)@[j]
                }),
        decreases np - p,
    {
        let b0 = src[4 * p];
        let b1 = src[4 * p + 1];
        let b2 = src[4 * p + 2];
        let b3 = src[4 * p + 3];
        let color = Frame::rgba_to_u32(b0, b1, b2, b3);
        if color != 0 {
            dst[4 * p] = b0;
            dst[4 * p + 1] = b1;
            dst[4 * p + 2] = b2;
            dst[4 * p + 3] = b3;
        }
        p += 1;
    }
    proof {
        assert(dst@ =~= overlay(old(dst)@, src@));
    }
}

/// Reads the archive's 16-bit little-endian frame count from its first
/// two bytes, or reports a malformed archive if the buffer is shorter.
pub fn read_frame_count(file_buffer: &Vec<u8>) -> (r: Result<u16, SpriteError>)
    ensures
        match r {
            Ok(n) => file_buffer@.len() >= 2 && n as int == le16(file_buffer@, 0),
            Err(e) => e == SpriteError::MalformedArchive && file_buffer@.len() < 2,
        },
{
    if file_buffer.len() < 2 {
        return Err(SpriteError::MalformedArchive);
    }
    Ok(read16(file_buffer, 0))
}

/// Reads the two cell offsets of each of `frame_count` frames from the
/// words following the archive's frame count, or reports a malformed
/// archive if the offset table would run past the end of the buffer.
#[verifier::loop_isolation(false)]
pub fn get_cell_offset_info_new(frame_count: u16, file_buffer: &Vec<u8>) -> (r: Result<
    Vec<Frame>,
    SpriteError,
>)
    ensures
        match r {
            Ok(frames) => (frame_count == 0 || 2 + 4 * (frame_count as int) <= file_buffer@.len())
                && frames@.len() == frame_count && forall|i: int|
                0 <= i < frame_count ==> initial_frame(
                    #[trigger] frames@[i],
                    le16(file_buffer@, 2 + 4 * i) as u16,
                    le16(file_buffer@, 4 + 4 * i) as u16,
                ),
            Err(e) => e == SpriteError::MalformedArchive && frame_count > 0 && 2 + 4 * (
            frame_count as int) > file_buffer@.len(),
        },
{
    let count = frame_count as usize;
    if count > 0 && file_buffer.len() < 2 + 4 * count {
        return Err(SpriteError::MalformedArchive);
    }
    let mut frames: Vec<Frame> = Vec::new();
    let mut i: usize = 0;
    while i < count
        invariant
            i <= count,
            frames@.len() == i,
            forall|k: int|
                0 <= k < i ==> initial_frame(
                    #[trigger] frames@[k],
                    le16(file_buffer@, 2 + 4 * k) as u16,
                    le16(file_buffer@, 4 + 4 * k) as u16,
                ),
        decreases count - i,
    {
        let o1: u16 = read16(file_buffer, 2 + i * 4);
        let o2: u16 = read16(file_buffer, 4 + i * 4);
        let mut fr = Frame::new();
        fr.push_cell_offset(o1);
        if o2 != 0 {
            fr.push_cell_offset(o2);
        }
        frames.push(fr);
        i += 1;
    }
    Ok(frames)
}

/// Reads, for every cell of every frame, the four 16-bit header words at
/// the cell's archive offset into the cell's geometry fields.  If any
/// cell's header would lie past the end of the buffer, nothing is changed
/// and the archive is reported malformed.
#[verifier::loop_isolation(false)]
pub fn read_cell_headers(frames: &mut Vec<Frame>, file_buffer: &Vec<u8>) -> (r: Result<
    (),
    SpriteError,
>)
    ensures
        match r {
            Ok(()) => final(frames)@.len() == old(frames)@.len() && (forall|i: int|
                0 <= i < old(frames)@.len() ==> frame_headers_filled(
                    #[trigger] old(frames)@[i],
                    final(frames)@[i],
                    file_buffer@,
                )) && (forall|i: int, j: int|
                0 <= i < old(frames)@.len() && 0 <= j < old(frames)@[i].cell_data@.len() ==> #[trigger] old(
                    frames,
                )@[i].cell_data@[j].offset as int + 8 <= file_buffer@.len()),
            Err(e) => e == SpriteError::MalformedArchive && final(frames)@ == old(frames)@ && (
            exists|i: int, j: int|
                0 <= i < old(frames)@.len() && 0 <= j < old(frames)@[i].cell_data@.len()
                    && #[trigger] old(frames)@[i].cell_data@[j].offset as int + 8
                    > file_buffer@.len()),
        },
{
    let n = frames.len();
    let mut i: usize = 0;
    while i < n
        invariant
            i <= n,
            forall|k: int, j: int|
                0 <= k < i && 0 <= j < frames@[k].cell_data@.len() ==> #[trigger] frames@[k].cell_data@[j].offset
                    as int + 8 <= file_buffer@.len(),
        decreases n - i,
    {
        let m = frames[i].cell_data.len();
        let mut j: usize = 0;
        while j < m
            invariant
                j <= m,
                m == frames@[i as int].cell_data@.len(),
                forall|l: int|
                    0 <= l < j ==> #[trigger] frames@[i as int].cell_data@[l].offset as int + 8
                        <= file_buffer@.len(),
            decreases m - j,
        {
            let off = frames[i].cell_data[j].offset as usize;
            if file_buffer.len() < 8 || off > file_buffer.len() - 8 {
                return Err(SpriteError::MalformedArchive);
            }
            j += 1;
        }
        i += 1;
    }
    let ghost orig = frames@;
    let mut out: Vec<Frame> = Vec::new();
    let mut i2: usize = 0;
    while i2 < n
        invariant
            i2 <= n,
            n == orig.len(),
            frames@ == orig.skip(i2 as int),
            out@.len() == i2,
            forall|k: int, j: int|
                0 <= k < orig.len() && 0 <= j < orig[k].cell_data@.len() ==> #[trigger] orig[k].cell_data@[j].offset
                    as int + 8 <= file_buffer@.len(),
            forall|k: int|
                0 <= k < i2 ==> frame_headers_filled(orig[k], #[trigger] out@[k], file_buffer@),
        decreases n - i2,
    {
        let mut fr = frames.remove(0);
        proof {
            assert(frames@ =~= orig.skip(i2 as int + 1));
            assert(fr == orig[i2 as int]);
        }
        let ghost orig_cells = fr.cell_data@;
        let m = fr.cell_data.len();
        let mut new_cells: Vec<CellData> = Vec::new();
        let mut j: usize = 0;
        while j < m
            invariant
                j <= m,
                m == orig_cells.len(),
                fr.cell_data@ == orig_cells.skip(j as int),
                new_cells@.len() == j,
                forall|l: int|
                    0 <= l < orig_cells.len() ==> #[trigger] orig_cells[l].offset as int + 8
                        <= file_buffer@.len(),
                forall|l: int|
                    0 <= l < j ==> header_filled(orig_cells[l], #[trigger] new_cells@[l],
                    file_buffer@),
                fr.combined_color_data@ == orig[i2 as int].combined_color_data@,
                fr.frame_height == orig[i2 as int].frame_height,
                fr.frame_width == orig[i2 as int].frame_width,
                fr.y_offset == orig[i2 as int].y_offset,
                fr.two_cells == orig[i2 as int].two_cells,
            decreases m - j,
        {
            let mut c = fr.cell_data.remove(0);
            proof {
                assert(fr.cell_data@ =~= orig_cells.skip(j as int + 1));
                assert(c == orig_cells[j as int]);
            }
            let off = c.offset as usize;
            c.x_offset = read16(file_buffer, off);
            c.width = read16(file_buffer, off + 2);
            c.y_offset = read16(file_buffer, off + 4);
            c.height = read16(file_buffer, off + 6);
            new_cells.push(c);
            j += 1;
        }
        fr.cell_data = new_cells;
        proof {
            assert(forall|l: int|
                0 <= l < orig_cells.len() ==> header_filled(
                    orig_cells[l],
                    #[trigger] fr.cell_data@[l],
                    file_buffer@,
                ));
            assert(frame_headers_filled(orig[i2 as int], fr, file_buffer@));
        }
        out.push(fr);
        i2 += 1;
    }
    *frames = out;
    Ok(())
}


/// Every complete pixel of the buffer is drawn (not the sentinel).
pub open spec fn all_pixels_opaque(s: Seq<u8>) -> bool {
    forall|p: int| 0 <= p < s.len() / 4 ==> pixel_nonzero(s, p)
}

/// Every complete pixel of the buffer is the transparent sentinel.
pub open spec fn all_pixels_transparent(s: Seq<u8>) -> bool {
    forall|p: int| 0 <= p < s.len() / 4 ==> !pixel_nonzero(s, p)
}

/// Combining an everywhere-opaque first cell with an everywhere-transparent
/// second cell of the same size gives exactly the first cell.
pub proof fn lemma_combine_opaque_under_transparent(a: Seq<u8>, b: Seq<u8>)
    requires
        a.len() == b.len(),
        a.len() % 4 == 0,
        all_pixels_opaque(a),
        all_pixels_transparent(b),
    ensures
        overlay(overlay(zero_buf(a.len() as int), a), b) == a,
{
    assert(overlay(zero_buf(a.len() as int), a) =~= a);
    assert(overlay(a, b) =~= a);
}

/// Combining an everywhere-transparent first cell with an everywhere-opaque
/// second cell of the same size gives exactly the second cell.
pub proof fn lemma_combine_transparent_under_opaque(a: Seq<u8>, b: Seq<u8>)
    requires
        a.len() == b.len(),
        a.len() % 4 == 0,
        all_pixels_transparent(a),
        all_pixels_opaque(b),
    ensures
        overlay(overlay(zero_buf(a.len() as int), a), b) == b,
{
    let z = zero_buf(a.len() as int);
    assert(overlay(z, a) =~= z);
    assert(overlay(z, b) =~= b);
}

/// Cells with disjoint drawn regions combine to their union, with no
/// blending: each pixel of the combined buffer is the first cell's pixel
/// where the first cell is drawn, the second cell's where the second is
/// drawn, and the sentinel where neither is.
pub proof fn lemma_combine_disjoint(a: Seq<u8>, b: Seq<u8>)
    requires
        a.len() == b.len(),
        a.len() % 4 == 0,
        forall|p: int| 0 <= p < a.len() / 4 ==> !(pixel_nonzero(a, p) && pixel_nonzero(b, p)),
    ensures
        ({
            let c = overlay(overlay(zero_buf(a.len() as int), a), b);
            c.len() == a.len() && (forall|p: int|
                0 <= p < a.len() / 4 ==> #[trigger] pixel_at(c, p) == (if pixel_nonzero(
                    a,
                    p,
                ) {
                    pixel_at(a, p)
                } else if pixel_nonzero(b, p) {
                    pixel_at(b, p)
                } else {
                    zero_buf(4)
                }))
        }),
{
    let z = zero_buf(a.len() as int);
    let c1 = overlay(z, a);
    let c = overlay(c1, b);
    assert forall|p: int| 0 <= p < a.len() / 4 implies #[trigger] pixel_at(c, p) == (
    if pixel_nonzero(a, p) {
        pixel_at(a, p)
    } else if pixel_nonzero(b, p) {
        pixel_at(b, p)
    } else {
        zero_buf(4)
    }) by {
        if pixel_nonzero(a, p) {
            assert(!pixel_nonzero(b, p));
            assert(pixel_at(c, p) =~= pixel_at(a, p));
        } else if pixel_nonzero(b, p) {
            assert(pixel_at(c, p) =~= pixel_at(b, p));
        } else {
            assert(pixel_at(c, p) =~= zero_buf(4));
        }
    };
}

} // verus!
