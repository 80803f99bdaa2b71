//! The cell decompression engine: a byte-stream interpreter that expands a
//! compressed scanline stream into an RGBA pixel buffer.
//!
//! The mathematical model is the family of spec functions [`decode_cell`],
//! [`run_rows`], [`run_ops`] and [`write_from`]: a step-by-step
//! interpretation of the stream that fails (returns `None`) exactly when a
//! read or a pixel write would fall outside the archive buffer or the pixel
//! buffer.  The executable decoder [`cell_to_rgb32`] is proved to return
//! precisely the interpretation's result, surfacing `None` as
//! [`SpriteError::CorruptCellStream`].

use vstd::prelude::*;

use crate::frame::CellData;
use crate::SpriteError;

verus! {

/// A 16-bit little-endian integer read from two consecutive bytes.
pub open spec fn le16(s: Seq<u8>, i: int) -> int {
    s[i] + 256 * s[i + 1]
}

/// The RGBA bytes produced for palette index `ci`: the three stored
/// components are promoted from reduced precision by a two-bit left shift
/// and laid out in reversed (blue, green, red) order, with an opaque alpha.
pub open spec fn pal_pixel(pal: Seq<u8>, ci: int) -> Seq<u8> {
    seq![
        pal[3 * ci + 2] << 2,
        pal[3 * ci + 1] << 2,
        pal[3 * ci] << 2,
        0xFFu8,
    ]
}

/// Whether the pixel at column `x` of row `y` lies inside a pixel buffer of
/// `buf_len` bytes, under row-major addressing with `w` pixels per row.
pub open spec fn pixel_ok(buf_len: int, w: int, x: int, y: int) -> bool {
    0 <= x && 0 <= y && 0 <= w && (y * w + x) * 4 + 4 <= buf_len
}

/// The pixel buffer after writing palette index `ci` at column `x` of row
/// `y`.
pub open spec fn write_pixel(buf: Seq<u8>, pal: Seq<u8>, w: int, x: int, y: int, ci: int) -> Seq<
    u8,
> {
    let base = (y * w + x) * 4;
    buf.update(base, pal[3 * ci + 2] << 2).update(base + 1, pal[3 * ci + 1] << 2).update(
        base + 2,
        pal[3 * ci] << 2,
    ).update(base + 3, 0xFFu8)
}

/// Writes the palette indices `cis[i..]` to consecutive pixels starting at
/// column `x` of row `y`, or `None` as soon as a write would fall outside
/// the buffer.
pub open spec fn write_from(
    buf: Seq<u8>,
    pal: Seq<u8>,
    w: int,
    x: int,
    y: int,
    cis: Seq<u8>,
    i: int,
) -> Option<Seq<u8>>
    decreases cis.len() - i,
{
    if i < 0 || i >= cis.len() {
        Some(buf)
    } else if !pixel_ok(buf.len() as int, w, x, y) {
        None
    } else {
        write_from(write_pixel(buf, pal, w, x, y, cis[i] as int), pal, w, x + 1, y, cis, i + 1)
    }
}

/// The signed step table used by the stepped pattern draw commands.
pub open spec fn step_table(i: int) -> int {
    if i == 1 || i == 2 || i == 3 {
        1
    } else if i == 4 || i == 5 {
        2
    } else if i == 6 || i == 7 {
        3
    } else if i == 9 || i == 10 || i == 11 {
        -1
    } else if i == 12 || i == 13 {
        -2
    } else if i == 14 || i == 15 {
        -3
    } else {
        0
    }
}

/// Reduction of a stepped running value into the palette index range,
/// treating steps as arithmetic modulo 256.  The steps are small, so one
/// correction suffices.
pub open spec fn norm256(t: int) -> int {
    if t < 0 {
        t + 256
    } else if t >= 256 {
        t - 256
    } else {
        t
    }
}

/// The running value of a stepped pattern draw before iteration `i`:
/// iteration `k` writes the value, then adjusts it by the table entry at
/// `base + (k % 2)`, modulo 256.
pub open spec fn stepped_val(start: u8, base: u8, i: int) -> int
    decreases i,
{
    if i <= 0 {
        start as int
    } else {
        norm256(stepped_val(start, base, i - 1) + step_table(base + (i - 1) % 2))
    }
}

/// The palette indices a single-color repeat opcode at `dp` writes.
pub open spec fn repeat_cis(arch: Seq<u8>, dp: int) -> Seq<u8> {
    Seq::new(((arch[dp] & 0x1F) as int + 3) as nat, |i: int| arch[dp + 1])
}

/// The palette indices a two-color interleave opcode at `dp` writes.
pub open spec fn interleave_cis(arch: Seq<u8>, dp: int) -> Seq<u8> {
    Seq::new(
        (2 * ((arch[dp] & 0x1F) as int + 2)) as nat,
        |i: int|
            if i % 2 == 0 {
                arch[dp + 1]
            } else {
                arch[dp + 2]
            },
    )
}

/// The palette indices a stepped pattern draw opcode at `dp` writes.
pub open spec fn pattern_cis(arch: Seq<u8>, dp: int) -> Seq<u8> {
    Seq::new(
        ((arch[dp] & 0x07) as int + 3) as nat,
        |i: int| stepped_val(arch[dp + 1], (arch[dp] >> 2) & 0x0E, i) as u8,
    )
}

/// Interprets opcodes of one scanline starting at stream position `dp`,
/// with `bc` payload bytes already consumed of the declared `ll`.  Returns
/// the stream position after the line and the updated pixel buffer, or
/// `None` on any out-of-bounds read or write, or when the consumed bytes
/// overshoot the declared line length.
pub open spec fn run_ops(
    arch: Seq<u8>,
    pal: Seq<u8>,
    w: int,
    buf: Seq<u8>,
    dp: int,
    bc: int,
    ll: int,
    x: int,
    y: int,
) -> Option<(int, Seq<u8>)>
    decreases (if ll - bc >= 0 { ll - bc } else { 0 }),
{
    if bc >= ll {
        if bc == ll {
            Some((dp, buf))
        } else {
            None
        }
    } else if !(0 <= dp < arch.len()) {
        None
    } else {
        let op = arch[dp];
        let len = (op & 0x1F) as int;
        let cmd = op >> 5;
        if cmd == 0 || cmd == 1 {
            // literal run: op + 1 raw palette-index bytes
            let n = op as int + 1;
            if dp + 1 + n <= arch.len() {
                match write_from(buf, pal, w, x, y, arch.subrange(dp + 1, dp + 1 + n), 0) {
                    Some(b2) => run_ops(arch, pal, w, b2, dp + 1 + n, bc + 1 + n, ll, x + n, y),
                    None => None,
                }
            } else {
                None
            }
        } else if cmd == 2 {
            // single-color repeat: len + 3 pixels of one index
            if dp + 2 <= arch.len() {
                match write_from(buf, pal, w, x, y, repeat_cis(arch, dp), 0) {
                    Some(b2) => run_ops(arch, pal, w, b2, dp + 2, bc + 2, ll, x + len + 3, y),
                    None => None,
                }
            } else {
                None
            }
        } else if cmd == 3 {
            // back-reference copy: len + 4 bytes re-read from the input
            // stream at the given distance behind the cursor
            if dp + 3 <= arch.len() {
                let src = dp + 3 - le16(arch, dp + 1);
                if 0 <= src && src + len + 4 <= arch.len() {
                    match write_from(buf, pal, w, x, y, arch.subrange(src, src + len + 4), 0) {
                        Some(b2) => run_ops(arch, pal, w, b2, dp + 3, bc + 3, ll, x + len + 4, y),
                        None => None,
                    }
                } else {
                    None
                }
            } else {
                None
            }
        } else if cmd == 4 {
            // two-color interleave: len + 2 pairs of two indices
            if dp + 3 <= arch.len() {
                match write_from(buf, pal, w, x, y, interleave_cis(arch, dp), 0) {
                    Some(b2) => run_ops(
                        arch, pal, w, b2, dp + 3, bc + 3, ll, x + 2 * (len + 2), y,
                    ),
                    None => None,
                }
            } else {
                None
            }
        } else if cmd == 5 {
            // transparent advance: skip len + 1 pixels, writing nothing
            run_ops(arch, pal, w, buf, dp + 1, bc + 1, ll, x + len + 1, y)
        } else {
            // stepped pattern draw (cmd 6 or 7): low three bits are the
            // length, bits above select the step-table base
            if dp + 2 <= arch.len() {
                let len3 = (op & 0x07) as int;
                match write_from(buf, pal, w, x, y, pattern_cis(arch, dp), 0) {
                    Some(b2) => run_ops(arch, pal, w, b2, dp + 2, bc + 2, ll, x + len3 + 3, y),
                    None => None,
                }
            } else {
                None
            }
        }
    }
}

/// Interprets scanlines from row `y` up to `y_limit`.  Each row reads a
/// line length; zero is a vertical-skip marker whose following byte gives a
/// count of rows to pass over, otherwise a row start byte follows and the
/// opcodes of the line run via [`run_ops`].
pub open spec fn run_rows(
    arch: Seq<u8>,
    pal: Seq<u8>,
    x_off: int,
    w: int,
    y_limit: int,
    buf: Seq<u8>,
    dp: int,
    y: int,
) -> Option<Seq<u8>>
    decreases (if y_limit - y >= 0 { y_limit - y } else { 0 }),
{
    if y >= y_limit {
        Some(buf)
    } else if !(0 <= dp < arch.len()) {
        None
    } else if arch[dp] == 0 {
        if dp + 2 <= arch.len() {
            run_rows(arch, pal, x_off, w, y_limit, buf, dp + 2, y + arch[dp + 1] + 1)
        } else {
            None
        }
    } else {
        if dp + 2 <= arch.len() {
            match run_ops(
                arch, pal, w, buf, dp + 2, 1, arch[dp] as int, arch[dp + 1] + x_off, y,
            ) {
                Some((dp2, b2)) => run_rows(arch, pal, x_off, w, y_limit, b2, dp2, y + 1),
                None => None,
            }
        } else {
            None
        }
    }
}

/// A fully transparent pixel buffer of `n` bytes.
pub open spec fn zero_buf(n: int) -> Seq<u8> {
    Seq::new(n as nat, |i: int| 0u8)
}

/// The complete interpretation of one cell: a fully transparent buffer
/// sized to the cell's bounding box, filled by running every scanline of
/// the stream that starts just past the 8-byte cell header.
pub open spec fn decode_cell(
    arch: Seq<u8>,
    pal: Seq<u8>,
    offset: int,
    x_off: int,
    w: int,
    y_off: int,
    h: int,
) -> Option<Seq<u8>> {
    run_rows(
        arch,
        pal,
        x_off,
        w,
        y_off + h,
        zero_buf((x_off + w) * (y_off + h) * 4),
        offset + 8,
        y_off,
    )
}

/// The interpretation of the cell whose geometry and offset `cell` gives,
/// over archive `arch` and palette `pal`.
pub open spec fn decoded(cell: CellData, pal: Seq<u8>, arch: Seq<u8>) -> Option<Seq<u8>> {
    decode_cell(
        arch,
        pal,
        cell.offset as int,
        cell.x_offset as int,
        cell.width as int,
        cell.y_offset as int,
        cell.height as int,
    )
}

/// Writes one pixel of the expanded RGBA form of `color_index` into the
/// cell buffer, or reports a corrupt stream if the destination lies outside
/// the buffer.
pub fn put_pixel(
    color_data: &mut Vec<u8>,
    x: usize,
    y: usize,
    width: usize,
    color_index: usize,
    palette_data: &[u8],
) -> (r: Result<(), SpriteError>)
    requires
        palette_data@.len() >= 768,
        color_index < 256,
    ensures
        match r {
            Ok(()) => pixel_ok(old(color_data)@.len() as int, width as int, x as int, y as int)
                && final(color_data)@ == write_pixel(
                old(color_data)@,
                palette_data@,
                width as int,
                x as int,
                y as int,
                color_index as int,
            ),
            Err(e) => e == SpriteError::CorruptCellStream && final(color_data)@ == old(
                color_data,
            )@ && !pixel_ok(old(color_data)@.len() as int, width as int, x as int, y as int),
        },
{
    proof {
        assert((y as int) * (width as int) + (x as int) <= u128::MAX as int) by (nonlinear_arith)
            requires
                y <= u64::MAX,
                width <= u64::MAX,
                x <= u64::MAX,
        ;
    }
    let idx: u128 = (y as u128) * (width as u128) + (x as u128);
    if idx >= color_data.len() as u128 {
        proof {
            assert(!pixel_ok(color_data@.len() as int, width as int, x as int, y as int));
        }
        return Err(SpriteError::CorruptCellStream);
    }
    let base_wide: u128 = idx * 4;
    if base_wide + 4 > color_data.len() as u128 {
        return Err(SpriteError::CorruptCellStream);
    }
    let base: usize = base_wide as usize;
    let b = palette_data[color_index * 3 + 2] << 2u8;
    let g = palette_data[color_index * 3 + 1] << 2u8;
    let rr = palette_data[color_index * 3] << 2u8;
    color_data[base] = b;
    color_data[base + 1] = g;
    color_data[base + 2] = rr;
    color_data[base + 3] = 0xFF;
    Ok(())
}

/// One entry of the signed step table, as executable code.
fn pattern_step(i: usize) -> (r: i32)
    requires
        i < 16,
    ensures
        r as int == step_table(i as int),
{
    if i == 1 || i == 2 || i == 3 {
        1
    } else if i == 4 || i == 5 {
        2
    } else if i == 6 || i == 7 {
        3
    } else if i == 9 || i == 10 || i == 11 {
        -1
    } else if i == 12 || i == 13 {
        -2
    } else if i == 14 || i == 15 {
        -3
    } else {
        0
    }
}

/// Writes the palette indices in `indices` to consecutive pixels starting
/// at column `x` of row `y`, realising exactly the [`write_from`]
/// interpretation; on a corrupt stream the buffer is left partially
/// written, which the caller discards.
#[verifier::loop_isolation(false)]
fn write_indices_run(
    color_data: &mut Vec<u8>,
    x: usize,
    y: usize,
    width: usize,
    palette_data: &[u8],
    indices: &Vec<u8>,
) -> (r: Result<(), SpriteError>)
    requires
        palette_data@.len() >= 768,
        x as int + indices@.len() <= usize::MAX as int,
    ensures
        match r {
            Ok(()) => write_from(
                old(color_data)@,
                palette_data@,
                width as int,
                x as int,
                y as int,
                indices@,
                0,
            ) == Some(final(color_data)@),
            Err(e) => e == SpriteError::CorruptCellStream && write_from(
                old(color_data)@,
                palette_data@,
                width as int,
                x as int,
                y as int,
                indices@,
                0,
            ) is None,
        },
{
    let n = indices.len();
    let mut k: usize = 0;
    while k < n
        invariant
            k <= n,
            write_from(
                color_data@,
                palette_data@,
                width as int,
                x as int + k,
                y as int,
                indices@,
                k as int,
            ) == write_from(
                old(color_data)@,
                palette_data@,
                width as int,
                x as int,
                y as int,
                indices@,
                0,
            ),
        decreases n - k,
    {
        let ghost pre = color_data@;
        let ci = indices[k];
        match put_pixel(color_data, x + k, y, width, ci as usize, palette_data) {
            Ok(()) => {
                proof {
                    assert(write_from(
                        pre,
                        palette_data@,
                        width as int,
                        x as int + k,
                        y as int,
                        indices@,
                        k as int,
                    ) == write_from(
                        color_data@,
                        palette_data@,
                        width as int,
                        x as int + k + 1,
                        y as int,
                        indices@,
                        k as int + 1,
                    ));
                }
            },
            Err(e) => {
                proof {
                    assert(write_from(
                        pre,
                        palette_data@,
                        width as int,
                        x as int + k,
                        y as int,
                        indices@,
                        k as int,
                    ) is None);
                }
                return Err(e);
            },
        }
        k += 1;
    }
    Ok(())
}

/// Executes a literal-run opcode (command 0 or 1) at `dp`: copies
/// `opcode + 1` raw palette-index bytes from the stream to consecutive
/// pixels.
#[verifier::loop_isolation(false)]
fn op_literal(
    color_data: &mut Vec<u8>,
    file_buffer: &Vec<u8>,
    dp: usize,
    x: usize,
    y: usize,
    width: usize,
    palette_data: &[u8],
) -> (r: Result<(), SpriteError>)
    requires
        palette_data@.len() >= 768,
        dp < file_buffer@.len(),
        x <= 100000,
    ensures
        ({
            let arch = file_buffer@;
            let n = arch[dp as int] as int + 1;
            let cis = arch.subrange(dp as int + 1, dp as int + 1 + n);
            match r {
                Ok(()) => dp as int + 1 + n <= arch.len() && write_from(
                    old(color_data)@,
                    palette_data@,
                    width as int,
                    x as int,
                    y as int,
                    cis,
                    0,
                ) == Some(final(color_data)@),
                Err(e) => e == SpriteError::CorruptCellStream && (dp as int + 1 + n > arch.len()
                    || write_from(
                    old(color_data)@,
                    palette_data@,
                    width as int,
                    x as int,
                    y as int,
                    cis,
                    0,
                ) is None),
            }
        }),
{
    let n: usize = file_buffer[dp] as usize + 1;
    if n > file_buffer.len() - (dp + 1) {
        return Err(SpriteError::CorruptCellStream);
    }
    let mut indices: Vec<u8> = Vec::new();
    let mut k: usize = 0;
    while k < n
        invariant
            k <= n,
            indices@ == file_buffer@.subrange(dp as int + 1, dp as int + 1 + k),
        decreases n - k,
    {
        indices.push(file_buffer[dp + 1 + k]);
        proof {
            assert(indices@ =~= file_buffer@.subrange(dp as int + 1, dp as int + 1 + k + 1));
        }
        k += 1;
    }
    write_indices_run(color_data, x, y, width, palette_data, &indices)
}

/// Executes a single-color repeat opcode (command 2) at `dp`: reads one
/// palette index and writes it to `len + 3` consecutive pixels.
#[verifier::loop_isolation(false)]
fn op_repeat(
    color_data: &mut Vec<u8>,
    file_buffer: &Vec<u8>,
    dp: usize,
    x: usize,
    y: usize,
    width: usize,
    palette_data: &[u8],
) -> (r: Result<(), SpriteError>)
    requires
        palette_data@.len() >= 768,
        dp < file_buffer@.len(),
        x <= 100000,
    ensures
        ({
            let arch = file_buffer@;
            let cis = repeat_cis(arch, dp as int);
            match r {
                Ok(()) => dp as int + 2 <= arch.len() && write_from(
                    old(color_data)@,
                    palette_data@,
                    width as int,
                    x as int,
                    y as int,
                    cis,
                    0,
                ) == Some(final(color_data)@),
                Err(e) => e == SpriteError::CorruptCellStream && (dp as int + 2 > arch.len()
                    || write_from(
                    old(color_data)@,
                    palette_data@,
                    width as int,
                    x as int,
                    y as int,
                    cis,
                    0,
                ) is None),
            }
        }),
{
    if file_buffer.len() - dp < 2 {
        return Err(SpriteError::CorruptCellStream);
    }
    let opcode: u8 = file_buffer[dp];
    let opr1: u8 = file_buffer[dp + 1];
    let cnt: usize = (opcode & 0x1F) as usize + 3;
    let mut indices: Vec<u8> = Vec::new();
    let mut k: usize = 0;
    while k < cnt
        invariant
            k <= cnt,
            indices@.len() == k,
            forall|j: int| 0 <= j < k ==> indices@[j] == opr1,
        decreases cnt - k,
    {
        indices.push(opr1);
        k += 1;
    }
    proof {
        assert(indices@ =~= repeat_cis(file_buffer@, dp as int));
    }
    write_indices_run(color_data, x, y, width, palette_data, &indices)
}

/// Executes a back-reference copy opcode (command 3) at `dp`: re-reads
/// `len + 4` bytes from the compressed input stream at the given distance
/// behind the cursor and writes them as pixels.
#[verifier::loop_isolation(false)]
fn op_backref(
    color_data: &mut Vec<u8>,
    file_buffer: &Vec<u8>,
    dp: usize,
    x: usize,
    y: usize,
    width: usize,
    palette_data: &[u8],
) -> (r: Result<(), SpriteError>)
    requires
        palette_data@.len() >= 768,
        dp < file_buffer@.len(),
        x <= 100000,
    ensures
        ({
            let arch = file_buffer@;
            let len = (arch[dp as int] & 0x1F) as int;
            let src = dp as int + 3 - le16(arch, dp as int + 1);
            let cis = arch.subrange(src, src + len + 4);
            match r {
                Ok(()) => dp as int + 3 <= arch.len() && 0 <= src && src + len + 4 <= arch.len()
                    && write_from(
                    old(color_data)@,
                    palette_data@,
                    width as int,
                    x as int,
                    y as int,
                    cis,
                    0,
                ) == Some(final(color_data)@),
                Err(e) => e == SpriteError::CorruptCellStream && (dp as int + 3 > arch.len() || src
                    < 0 || src + len + 4 > arch.len() || write_from(
                    old(color_data)@,
                    palette_data@,
                    width as int,
                    x as int,
                    y as int,
                    cis,
                    0,
                ) is None),
            }
        }),
{
    if file_buffer.len() - dp < 3 {
        return Err(SpriteError::CorruptCellStream);
    }
    let opcode: u8 = file_buffer[dp];
    let dist: usize = file_buffer[dp + 1] as usize + 256 * (file_buffer[dp + 2] as usize);
    if dist > dp + 3 {
        return Err(SpriteError::CorruptCellStream);
    }
    let src: usize = dp + 3 - dist;
    let cnt: usize = (opcode & 0x1F) as usize + 4;
    if cnt > file_buffer.len() - src {
        return Err(SpriteError::CorruptCellStream);
    }
    let mut indices: Vec<u8> = Vec::new();
    let mut k: usize = 0;
    while k < cnt
        invariant
            k <= cnt,
            indices@ == file_buffer@.subrange(src as int, src as int + k),
        decreases cnt - k,
    {
        indices.push(file_buffer[src + k]);
        proof {
            assert(indices@ =~= file_buffer@.subrange(src as int, src as int + k + 1));
        }
        k += 1;
    }
    write_indices_run(color_data, x, y, width, palette_data, &indices)
}

/// Executes a two-color interleave opcode (command 4) at `dp`: reads two
/// palette indices and writes the alternating pair for `len + 2`
/// iterations.
#[verifier::loop_isolation(false)]
fn op_interleave(
    color_data: &mut Vec<u8>,
    file_buffer: &Vec<u8>,
    dp: usize,
    x: usize,
    y: usize,
    width: usize,
    palette_data: &[u8],
) -> (r: Result<(), SpriteError>)
    requires
        palette_data@.len() >= 768,
        dp < file_buffer@.len(),
        x <= 100000,
    ensures
        ({
            let arch = file_buffer@;
            let cis = interleave_cis(arch, dp as int);
            match r {
                Ok(()) => dp as int + 3 <= arch.len() && write_from(
                    old(color_data)@,
                    palette_data@,
                    width as int,
                    x as int,
                    y as int,
                    cis,
                    0,
                ) == Some(final(color_data)@),
                Err(e) => e == SpriteError::CorruptCellStream && (dp as int + 3 > arch.len()
                    || write_from(
                    old(color_data)@,
                    palette_data@,
                    width as int,
                    x as int,
                    y as int,
                    cis,
                    0,
                ) is None),
            }
        }),
{
    if file_buffer.len() - dp < 3 {
        return Err(SpriteError::CorruptCellStream);
    }
    let opcode: u8 = file_buffer[dp];
    let opr1: u8 = file_buffer[dp + 1];
    let opr2: u8 = file_buffer[dp + 2];
    let cnt: usize = 2 * ((opcode & 0x1F) as usize + 2);
    let mut indices: Vec<u8> = Vec::new();
    let mut k: usize = 0;
    while k < cnt
        invariant
            k <= cnt,
            indices@.len() == k,
            forall|j: int|
                0 <= j < k ==> indices@[j] == (if j % 2 == 0 {
                    opr1
                } else {
                    opr2
                }),
        decreases cnt - k,
    {
        if k % 2 == 0 {
            indices.push(opr1);
        } else {
            indices.push(opr2);
        }
        k += 1;
    }
    proof {
        assert(indices@ =~= interleave_cis(file_buffer@, dp as int));
    }
    write_indices_run(color_data, x, y, width, palette_data, &indices)
}

/// Executes a stepped pattern draw opcode (command 6 or 7) at `dp`: reads
/// a starting palette index and writes a run whose value is adjusted after
/// every pixel by a step from the fixed table, modulo 256.
#[verifier::loop_isolation(false)]
fn op_pattern(
    color_data: &mut Vec<u8>,
    file_buffer: &Vec<u8>,
    dp: usize,
    x: usize,
    y: usize,
    width: usize,
    palette_data: &[u8],
) -> (r: Result<(), SpriteError>)
    requires
        palette_data@.len() >= 768,
        dp < file_buffer@.len(),
        x <= 100000,
    ensures
        ({
            let arch = file_buffer@;
            let cis = pattern_cis(arch, dp as int);
            match r {
                Ok(()) => dp as int + 2 <= arch.len() && write_from(
                    old(color_data)@,
                    palette_data@,
                    width as int,
                    x as int,
                    y as int,
                    cis,
                    0,
                ) == Some(final(color_data)@),
                Err(e) => e == SpriteError::CorruptCellStream && (dp as int + 2 > arch.len()
                    || write_from(
                    old(color_data)@,
                    palette_data@,
                    width as int,
                    x as int,
                    y as int,
                    cis,
                    0,
                ) is None),
            }
        }),
{
    if file_buffer.len() - dp < 2 {
        return Err(SpriteError::CorruptCellStream);
    }
    let opcode: u8 = file_buffer[dp];
    let start: u8 = file_buffer[dp + 1];
    let len3: usize = (opcode & 0x07) as usize;
    let base: u8 = (opcode >> 2) & 0x0E;
    let cnt: usize = len3 + 3;
    proof {
        assert(((opcode >> 2) & 0x0Eu8) <= 14) by (bit_vector);
    }
    let mut indices: Vec<u8> = Vec::new();
    let mut value: i32 = start as i32;
    let mut k: usize = 0;
    while k < cnt
        invariant
            k <= cnt,
            indices@.len() == k,
            0 <= value < 256,
            value as int == stepped_val(start, base, k as int),
            forall|j: int| 0 <= j < k ==> indices@[j] == stepped_val(start, base, j) as u8,
        decreases cnt - k,
    {
        indices.push(value as u8);
        let step: i32 = pattern_step(base as usize + (k % 2));
        value = value + step;
        if value < 0 {
            value = value + 256;
        } else if value > 255 {
            value = value - 256;
        }
        k += 1;
    }
    proof {
        assert(indices@ =~= pattern_cis(file_buffer@, dp as int));
    }
    write_indices_run(color_data, x, y, width, palette_data, &indices)
}

/// One interpretation step for a literal-run opcode (command 0 or 1):
/// `opcode + 1` raw bytes from the stream become consecutive pixels.
pub proof fn lemma_step_literal(
    arch: Seq<u8>,
    pal: Seq<u8>,
    w: int,
    buf: Seq<u8>,
    dp: int,
    bc: int,
    ll: int,
    x: int,
    y: int,
)
    requires
        bc < ll,
        0 <= dp < arch.len(),
        arch[dp] >> 5 == 0 || arch[dp] >> 5 == 1,
    ensures
        ({
            let n = arch[dp] as int + 1;
            run_ops(arch, pal, w, buf, dp, bc, ll, x, y) == (if dp + 1 + n <= arch.len() {
                match write_from(buf, pal, w, x, y, arch.subrange(dp + 1, dp + 1 + n), 0) {
                    Some(b2) => run_ops(arch, pal, w, b2, dp + 1 + n, bc + 1 + n, ll, x + n, y),
                    None => None,
                }
            } else {
                None
            })
        }),
{
}

/// One interpretation step for a single-color repeat opcode (command 2),
/// the basis of the repeated-pixel law: `len + 3` pixels of one index.
pub proof fn lemma_step_repeat(
    arch: Seq<u8>,
    pal: Seq<u8>,
    w: int,
    buf: Seq<u8>,
    dp: int,
    bc: int,
    ll: int,
    x: int,
    y: int,
)
    requires
        bc < ll,
        0 <= dp < arch.len(),
        arch[dp] >> 5 == 2,
    ensures
        ({
            let len = (arch[dp] & 0x1F) as int;
            run_ops(arch, pal, w, buf, dp, bc, ll, x, y) == (if dp + 2 <= arch.len() {
                match write_from(buf, pal, w, x, y, repeat_cis(arch, dp), 0) {
                    Some(b2) => run_ops(arch, pal, w, b2, dp + 2, bc + 2, ll, x + len + 3, y),
                    None => None,
                }
            } else {
                None
            })
        }),
{
}

/// One interpretation step for a back-reference copy opcode (command 3):
/// `len + 4` bytes re-read from the compressed input stream itself.
pub proof fn lemma_step_backref(
    arch: Seq<u8>,
    pal: Seq<u8>,
    w: int,
    buf: Seq<u8>,
    dp: int,
    bc: int,
    ll: int,
    x: int,
    y: int,
)
    requires
        bc < ll,
        0 <= dp < arch.len(),
        arch[dp] >> 5 == 3,
    ensures
        ({
            let len = (arch[dp] & 0x1F) as int;
            let src = dp + 3 - le16(arch, dp + 1);
            run_ops(arch, pal, w, buf, dp, bc, ll, x, y) == (if dp + 3 <= arch.len() && 0 <= src
                && src + len + 4 <= arch.len() {
                match write_from(buf, pal, w, x, y, arch.subrange(src, src + len + 4), 0) {
                    Some(b2) => run_ops(arch, pal, w, b2, dp + 3, bc + 3, ll, x + len + 4, y),
                    None => None,
                }
            } else {
                None
            })
        }),
{
}

/// One interpretation step for a two-color interleave opcode (command 4),
/// the basis of the alternation law: the pair `(a, b)` written for
/// `len + 2` iterations, `2 * (len + 2)` pixels in all.
pub proof fn lemma_step_interleave(
    arch: Seq<u8>,
    pal: Seq<u8>,
    w: int,
    buf: Seq<u8>,
    dp: int,
    bc: int,
    ll: int,
    x: int,
    y: int,
)
    requires
        bc < ll,
        0 <= dp < arch.len(),
        arch[dp] >> 5 == 4,
    ensures
        ({
            let len = (arch[dp] & 0x1F) as int;
            run_ops(arch, pal, w, buf, dp, bc, ll, x, y) == (if dp + 3 <= arch.len() {
                match write_from(buf, pal, w, x, y, interleave_cis(arch, dp), 0) {
                    Some(b2) => run_ops(
                        arch, pal, w, b2, dp + 3, bc + 3, ll, x + 2 * (len + 2), y,
                    ),
                    None => None,
                }
            } else {
                None
            })
        }),
{
}

/// A transparent-advance opcode (command 5) with five-bit length `L`
/// leaves the pixel buffer exactly as it was and moves the horizontal
/// cursor forward by `L + 1`: the skipped pixels keep their transparent
/// sentinel value.
pub proof fn lemma_step_transparent(
    arch: Seq<u8>,
    pal: Seq<u8>,
    w: int,
    buf: Seq<u8>,
    dp: int,
    bc: int,
    ll: int,
    x: int,
    y: int,
)
    requires
        bc < ll,
        0 <= dp < arch.len(),
        arch[dp] >> 5 == 5,
    ensures
        run_ops(arch, pal, w, buf, dp, bc, ll, x, y) == run_ops(
            arch,
            pal,
            w,
            buf,
            dp + 1,
            bc + 1,
            ll,
            x + (arch[dp] & 0x1F) + 1,
            y,
        ),
{
}

/// One interpretation step for a stepped pattern draw opcode (command 6
/// or 7): `len3 + 3` pixels of a running value stepped through the fixed
/// table.
pub proof fn lemma_step_pattern(
    arch: Seq<u8>,
    pal: Seq<u8>,
    w: int,
    buf: Seq<u8>,
    dp: int,
    bc: int,
    ll: int,
    x: int,
    y: int,
)
    requires
        bc < ll,
        0 <= dp < arch.len(),
        arch[dp] >> 5 == 6 || arch[dp] >> 5 == 7,
    ensures
        ({
            let len3 = (arch[dp] & 0x07) as int;
            run_ops(arch, pal, w, buf, dp, bc, ll, x, y) == (if dp + 2 <= arch.len() {
                match write_from(buf, pal, w, x, y, pattern_cis(arch, dp), 0) {
                    Some(b2) => run_ops(arch, pal, w, b2, dp + 2, bc + 2, ll, x + len3 + 3, y),
                    None => None,
                }
            } else {
                None
            })
        }),
{
}

/// Executes one opcode of a scanline.  On success returns the stream
/// position after the opcode, the number of payload bytes it consumed,
/// and the new horizontal cursor, preserving the [`run_ops`]
/// interpretation of the remaining line.
#[verifier::loop_isolation(false)]
#[verifier::rlimit(100)]
fn exec_op(
    color_data: &mut Vec<u8>,
    file_buffer: &Vec<u8>,
    palette_data: &[u8],
    dp: usize,
    bc: usize,
    ll: usize,
    x: usize,
    y: usize,
    width: usize,
) -> (r: Result<(usize, usize, usize), SpriteError>)
    requires
        palette_data@.len() >= 768,
        file_buffer@.len() <= usize::MAX as int,
        dp < file_buffer@.len(),
        bc < ll,
        ll <= 255,
        x <= 100000,
    ensures
        match r {
            Ok(t) => 1 <= t.1 <= 65 && t.2 as int <= x as int + 66 && t.0 <= file_buffer@.len()
                && run_ops(
                file_buffer@,
                palette_data@,
                width as int,
                old(color_data)@,
                dp as int,
                bc as int,
                ll as int,
                x as int,
                y as int,
            ) == run_ops(
                file_buffer@,
                palette_data@,
                width as int,
                final(color_data)@,
                t.0 as int,
                bc as int + t.1 as int,
                ll as int,
                t.2 as int,
                y as int,
            ),
            Err(e) => e == SpriteError::CorruptCellStream && run_ops(
                file_buffer@,
                palette_data@,
                width as int,
                old(color_data)@,
                dp as int,
                bc as int,
                ll as int,
                x as int,
                y as int,
            ) is None,
        },
{
    let ghost arch = file_buffer@;
    let ghost pal = palette_data@;
    let ghost pre_buf = color_data@;
    let opcode: u8 = file_buffer[dp];
    let len: usize = (opcode & 0x1F) as usize;
    let cmd: u8 = opcode >> 5;
    proof {
        assert((opcode & 0x1F) <= 31 && (opcode & 0x07) <= 7) by (bit_vector);
    }
    if cmd == 0 || cmd == 1 {
        proof {
            lemma_step_literal(
                arch, pal, width as int, pre_buf, dp as int, bc as int, ll as int, x as int,
                y as int,
            );
        }
        let n: usize = opcode as usize + 1;
        proof {
            assert(opcode < 64) by (bit_vector)
                requires
                    opcode >> 5 == 0 || opcode >> 5 == 1,
            ;
        }
        match op_literal(color_data, file_buffer, dp, x, y, width, palette_data) {
            Ok(()) => {
                Ok((dp + 1 + n, 1 + n, x + n))
            },
            Err(e) => Err(e),
        }
    } else if cmd == 2 {
        proof {
            lemma_step_repeat(
                arch, pal, width as int, pre_buf, dp as int, bc as int, ll as int, x as int,
                y as int,
            );
        }
        match op_repeat(color_data, file_buffer, dp, x, y, width, palette_data) {
            Ok(()) => {
                Ok((dp + 2, 2, x + len + 3))
            },
            Err(e) => Err(e),
        }
    } else if cmd == 3 {
        proof {
            lemma_step_backref(
                arch, pal, width as int, pre_buf, dp as int, bc as int, ll as int, x as int,
                y as int,
            );
        }
        match op_backref(color_data, file_buffer, dp, x, y, width, palette_data) {
            Ok(()) => {
                Ok((dp + 3, 3, x + len + 4))
            },
            Err(e) => Err(e),
        }
    } else if cmd == 4 {
        proof {
            lemma_step_interleave(
                arch, pal, width as int, pre_buf, dp as int, bc as int, ll as int, x as int,
                y as int,
            );
        }
        match op_interleave(color_data, file_buffer, dp, x, y, width, palette_data) {
            Ok(()) => {
                Ok((dp + 3, 3, x + 2 * (len + 2)))
            },
            Err(e) => Err(e),
        }
    } else if cmd == 5 {
        proof {
            lemma_step_transparent(
                arch, pal, width as int, pre_buf, dp as int, bc as int, ll as int, x as int,
                y as int,
            );
        }
        Ok((dp + 1, 1, x + len + 1))
    } else {
        proof {
            assert(opcode >> 5 == 6 || opcode >> 5 == 7) by (bit_vector)
                requires
                    !(opcode >> 5 == 0 || opcode >> 5 == 1 || opcode >> 5 == 2 || opcode >> 5
                        == 3 || opcode >> 5 == 4 || opcode >> 5 == 5),
            ;
            lemma_step_pattern(
                arch, pal, width as int, pre_buf, dp as int, bc as int, ll as int, x as int,
                y as int,
            );
        }
        let len3: usize = (opcode & 0x07) as usize;
        match op_pattern(color_data, file_buffer, dp, x, y, width, palette_data) {
            Ok(()) => {
                Ok((dp + 2, 2, x + len3 + 3))
            },
            Err(e) => Err(e),
        }
    }
}

/// Decodes the compressed scanline stream of one cell into a freshly
/// allocated RGBA buffer sized to the cell's bounding box, initialized to
/// the fully transparent sentinel.  Returns exactly the result of the
/// [`decoded`] interpretation, or reports the palette as too small or the
/// stream as corrupt instead of ever reading or writing out of bounds.
#[verifier::loop_isolation(false)]
#[verifier::rlimit(100)]
pub fn cell_to_rgb32(
    cell_data: &CellData,
    palette_data: &[u8],
    transparent: u32,
    file_buffer: &Vec<u8>,
) -> (r: Result<Vec<u8>, SpriteError>)
    requires
        (cell_data.x_offset as int + cell_data.width as int) * (cell_data.y_offset as int
            + cell_data.height as int) * 4 <= usize::MAX as int,
        transparent == 0,
    ensures
        ({
            let dec = decoded(*cell_data, palette_data@, file_buffer@);
            match r {
                Ok(buf) => palette_data@.len() >= 768 && dec == Some(buf@),
                Err(e) => if palette_data@.len() < 768 {
                    e == SpriteError::PaletteTooSmall
                } else {
                    e == SpriteError::CorruptCellStream && dec is None
                },
            }
        }),
{
    if palette_data.len() < 768 {
        return Err(SpriteError::PaletteTooSmall);
    }
    let x_offset = cell_data.x_offset as usize;
    let width = cell_data.width as usize;
    let y_offset = cell_data.y_offset as usize;
    let height = cell_data.height as usize;

    proof {
        assert((x_offset + width) * (y_offset + height) >= 0) by (nonlinear_arith)
            requires
                x_offset + width >= 0,
                y_offset + height >= 0,
        ;
    }
    let total_bytes: usize = (x_offset + width) * (y_offset + height) * 4;

    let mut color_data: Vec<u8> = Vec::new();
    let mut f: usize = 0;
    while f < total_bytes
        invariant
            f <= total_bytes,
            color_data@ == zero_buf(f as int),
        decreases total_bytes - f,
    {
        color_data.push(0u8);
        proof {
            assert(color_data@ =~= zero_buf(f as int + 1));
        }
        f += 1;
    }

    let ghost arch = file_buffer@;
    let ghost pal = palette_data@;
    let ghost goal = decoded(*cell_data, pal, arch);

    let mut dp: usize = cell_data.offset as usize + 8;
    let mut y_pos: usize = y_offset;
    let y_limit: usize = y_offset + height;

    while y_pos < y_limit
        invariant
            run_rows(
                arch,
                pal,
                x_offset as int,
                width as int,
                y_limit as int,
                color_data@,
                dp as int,
                y_pos as int,
            ) == goal,
        decreases
                (if y_limit as int - y_pos as int >= 0 {
                    y_limit as int - y_pos as int
                } else {
                    0
                }),
    {
        if dp >= file_buffer.len() {
            return Err(SpriteError::CorruptCellStream);
        }
        let line_length: usize = file_buffer[dp] as usize;
        if line_length > 0 {
            if file_buffer.len() - dp < 2 {
                return Err(SpriteError::CorruptCellStream);
            }
            let mut x_pos: usize = file_buffer[dp + 1] as usize + x_offset;
            let ghost row_start_buf = color_data@;
            let ghost row_goal = run_ops(
                arch,
                pal,
                width as int,
                row_start_buf,
                dp as int + 2,
                1,
                line_length as int,
                x_pos as int,
                y_pos as int,
            );
            proof {
                assert(goal == match row_goal {
                    Some((dp2, b2)) => run_rows(
                        arch,
                        pal,
                        x_offset as int,
                        width as int,
                        y_limit as int,
                        b2,
                        dp2,
                        y_pos as int + 1,
                    ),
                    None => None,
                });
            }
            let mut byte_count: usize = 1;
            dp = dp + 2;
            while byte_count < line_length
                invariant
                    byte_count <= 319,
                    x_pos <= 66000 + 66 * byte_count,
                    dp <= file_buffer@.len(),
                    run_ops(
                        arch,
                        pal,
                        width as int,
                        color_data@,
                        dp as int,
                        byte_count as int,
                        line_length as int,
                        x_pos as int,
                        y_pos as int,
                    ) == row_goal,
                decreases
                        (if line_length as int - byte_count as int >= 0 {
                            line_length as int - byte_count as int
                        } else {
                            0
                        }),
            {
                if dp >= file_buffer.len() {
                    return Err(SpriteError::CorruptCellStream);
                }
                match exec_op(
                    &mut color_data,
                    file_buffer,
                    palette_data,
                    dp,
                    byte_count,
                    line_length,
                    x_pos,
                    y_pos,
                    width,
                ) {
                    Ok(t) => {
                        let (ndp, con, nx) = t;
                        dp = ndp;
                        byte_count = byte_count + con;
                        x_pos = nx;
                    },
                    Err(e) => {
                        return Err(e);
                    },
                }
            }
            if byte_count != line_length {
                return Err(SpriteError::CorruptCellStream);
            }
        } else {
            if file_buffer.len() - dp < 2 {
                return Err(SpriteError::CorruptCellStream);
            }
            let skip: usize = file_buffer[dp + 1] as usize;
            y_pos = y_pos + skip;
            dp = dp + 2;
        }
        y_pos = y_pos + 1;
    }
    Ok(color_data)
}


/// The 4-byte pixel `p` of a buffer.
pub open spec fn pixel_at(s: Seq<u8>, p: int) -> Seq<u8> {
    s.subrange(4 * p, 4 * p + 4)
}

/// After a successful [`write_from`], every pixel written holds the
/// expanded RGBA form of its palette index, and every byte outside the
/// written range is unchanged.
pub proof fn lemma_write_from_effect(
    buf: Seq<u8>,
    pal: Seq<u8>,
    w: int,
    x: int,
    y: int,
    cis: Seq<u8>,
    i: int,
)
    requires
        0 <= i <= cis.len(),
        write_from(buf, pal, w, x, y, cis, i) is Some,
    ensures
        ({
            let b2 = write_from(buf, pal, w, x, y, cis, i)->Some_0;
            b2.len() == buf.len() && (forall|k: int|
                i <= k < cis.len() ==> pixel_at(b2, y * w + x + (k - i)) == pal_pixel(
                    pal,
                    #[trigger] cis[k] as int,
                )) && (forall|j: int|
                0 <= j < buf.len() && !((y * w + x) * 4 <= j < (y * w + x + (cis.len() - i)) * 4)
                    ==> #[trigger] b2[j] == buf[j])
        }),
    decreases cis.len() - i,
{
    if i >= cis.len() {
    } else {
        let pos = y * w + x;
        assert(pixel_ok(buf.len() as int, w, x, y));
        assert(y * w >= 0) by (nonlinear_arith)
            requires
                y >= 0,
                w >= 0,
        ;
        let buf1 = write_pixel(buf, pal, w, x, y, cis[i] as int);
        lemma_write_from_effect(buf1, pal, w, x + 1, y, cis, i + 1);
        let b2 = write_from(buf, pal, w, x, y, cis, i)->Some_0;
        assert(pixel_at(b2, pos) =~= pal_pixel(pal, cis[i] as int));
        assert(forall|k: int|
            i < k < cis.len() ==> pixel_at(b2, y * w + (x + 1) + (k - (i + 1))) == pal_pixel(
                pal,
                #[trigger] cis[k] as int,
            ));
        assert(forall|k: int|
            i <= k < cis.len() ==> pixel_at(b2, y * w + x + (k - i)) == pal_pixel(
                pal,
                #[trigger] cis[k] as int,
            ));
    }
}

/// A single-color repeat opcode with five-bit length `L` and palette
/// index `I` produces `L + 3` identical pixels, each the expanded RGBA of
/// palette entry `I`, and touches nothing else.
pub proof fn lemma_repeat_pixels(
    arch: Seq<u8>,
    pal: Seq<u8>,
    w: int,
    buf: Seq<u8>,
    dp: int,
    x: int,
    y: int,
)
    requires
        0 <= dp,
        dp + 1 < arch.len(),
        arch[dp] >> 5 == 2,
        write_from(buf, pal, w, x, y, repeat_cis(arch, dp), 0) is Some,
    ensures
        ({
            let b2 = write_from(buf, pal, w, x, y, repeat_cis(arch, dp), 0)->Some_0;
            let run = (arch[dp] & 0x1F) as int + 3;
            b2.len() == buf.len() && (forall|k: int|
                0 <= k < run ==> #[trigger] pixel_at(b2, y * w + x + k) == pal_pixel(
                    pal,
                    arch[dp + 1] as int,
                )) && (forall|j: int|
                0 <= j < buf.len() && !((y * w + x) * 4 <= j < (y * w + x + run) * 4)
                    ==> #[trigger] b2[j] == buf[j])
        }),
{
    lemma_write_from_effect(buf, pal, w, x, y, repeat_cis(arch, dp), 0);
    let cis = repeat_cis(arch, dp);
    let b2 = write_from(buf, pal, w, x, y, cis, 0)->Some_0;
    let run = (arch[dp] & 0x1F) as int + 3;
    assert(cis.len() == run);
    assert forall|k: int| 0 <= k < run implies #[trigger] pixel_at(b2, y * w + x + k)
        == pal_pixel(pal, arch[dp + 1] as int) by {
        assert(cis[k] == arch[dp + 1]);
    };
}

/// A two-color interleave opcode with five-bit length `L` and palette
/// indices `(a, b)` produces the alternating sequence `a, b, a, b, ...` of
/// `2 * (L + 2)` pixels, and touches nothing else.
pub proof fn lemma_interleave_pixels(
    arch: Seq<u8>,
    pal: Seq<u8>,
    w: int,
    buf: Seq<u8>,
    dp: int,
    x: int,
    y: int,
)
    requires
        0 <= dp,
        dp + 2 < arch.len(),
        arch[dp] >> 5 == 4,
        write_from(buf, pal, w, x, y, interleave_cis(arch, dp), 0) is Some,
    ensures
        ({
            let b2 = write_from(buf, pal, w, x, y, interleave_cis(arch, dp), 0)->Some_0;
            let run = 2 * ((arch[dp] & 0x1F) as int + 2);
            b2.len() == buf.len() && (forall|k: int|
                0 <= k < run ==> #[trigger] pixel_at(b2, y * w + x + k) == pal_pixel(
                    pal,
                    (if k % 2 == 0 {
                        arch[dp + 1]
                    } else {
                        arch[dp + 2]
                    }) as int,
                )) && (forall|j: int|
                0 <= j < buf.len() && !((y * w + x) * 4 <= j < (y * w + x + run) * 4)
                    ==> #[trigger] b2[j] == buf[j])
        }),
{
    lemma_write_from_effect(buf, pal, w, x, y, interleave_cis(arch, dp), 0);
    let cis = interleave_cis(arch, dp);
    let b2 = write_from(buf, pal, w, x, y, cis, 0)->Some_0;
    let run = 2 * ((arch[dp] & 0x1F) as int + 2);
    assert(cis.len() == run);
    assert forall|k: int| 0 <= k < run implies #[trigger] pixel_at(b2, y * w + x + k)
        == pal_pixel(
        pal,
        (if k % 2 == 0 {
            arch[dp + 1]
        } else {
            arch[dp + 2]
        }) as int,
    ) by {
        assert(cis[k] == (if k % 2 == 0 {
            arch[dp + 1]
        } else {
            arch[dp + 2]
        }));
    };
}

/// Whether every opcode of the line at `dp` (with `bc` of `ll` payload
/// bytes consumed) is a transparent advance.
pub open spec fn ops_all_transparent(arch: Seq<u8>, dp: int, bc: int, ll: int) -> bool
    decreases (if ll - bc >= 0 { ll - bc } else { 0 }),
{
    if bc >= ll {
        true
    } else if !(0 <= dp < arch.len()) {
        true
    } else {
        arch[dp] >> 5 == 5 && ops_all_transparent(arch, dp + 1, bc + 1, ll)
    }
}

/// A line made only of transparent advances writes no pixel: if it runs
/// to completion the buffer comes back unchanged.
pub proof fn lemma_ops_transparent(
    arch: Seq<u8>,
    pal: Seq<u8>,
    w: int,
    buf: Seq<u8>,
    dp: int,
    bc: int,
    ll: int,
    x: int,
    y: int,
)
    requires
        ops_all_transparent(arch, dp, bc, ll),
    ensures
        (match run_ops(arch, pal, w, buf, dp, bc, ll, x, y) {
            Some(t) => t.1 == buf,
            None => true,
        }),
    decreases (if ll - bc >= 0 { ll - bc } else { 0 }),
{
    if bc >= ll {
    } else if !(0 <= dp < arch.len()) {
    } else {
        lemma_ops_transparent(arch, pal, w, buf, dp + 1, bc + 1, ll, x + (arch[dp] & 0x1F) + 1, y);
    }
}

/// Whether every row of the stream at `dp`, from row `y` up to `y_limit`,
/// consists solely of vertical skips and transparent-advance opcodes.
pub open spec fn rows_all_transparent(
    arch: Seq<u8>,
    pal: Seq<u8>,
    w: int,
    x_off: int,
    buf: Seq<u8>,
    dp: int,
    y: int,
    y_limit: int,
) -> bool
    decreases (if y_limit - y >= 0 { y_limit - y } else { 0 }),
{
    if y >= y_limit {
        true
    } else if !(0 <= dp < arch.len()) {
        true
    } else if arch[dp] == 0 {
        dp + 2 <= arch.len() ==> rows_all_transparent(
            arch,
            pal,
            w,
            x_off,
            buf,
            dp + 2,
            y + arch[dp + 1] + 1,
            y_limit,
        )
    } else {
        dp + 2 <= arch.len() ==> (ops_all_transparent(arch, dp + 2, 1, arch[dp] as int) && (
        match run_ops(arch, pal, w, buf, dp + 2, 1, arch[dp] as int, arch[dp + 1] + x_off, y) {
            Some(t) => rows_all_transparent(arch, pal, w, x_off, buf, t.0, y + 1, y_limit),
            None => true,
        }))
    }
}

/// A stream whose rows hold only transparent advances leaves the buffer
/// exactly as it started.
pub proof fn lemma_rows_transparent(
    arch: Seq<u8>,
    pal: Seq<u8>,
    x_off: int,
    w: int,
    y_limit: int,
    buf: Seq<u8>,
    dp: int,
    y: int,
)
    requires
        rows_all_transparent(arch, pal, w, x_off, buf, dp, y, y_limit),
    ensures
        (match run_rows(arch, pal, x_off, w, y_limit, buf, dp, y) {
            Some(b) => b == buf,
            None => true,
        }),
    decreases (if y_limit - y >= 0 { y_limit - y } else { 0 }),
{
    if y >= y_limit {
    } else if !(0 <= dp < arch.len()) {
    } else if arch[dp] == 0 {
        if dp + 2 <= arch.len() {
            lemma_rows_transparent(
                arch, pal, x_off, w, y_limit, buf, dp + 2, y + arch[dp + 1] + 1,
            );
        }
    } else {
        if dp + 2 <= arch.len() {
            lemma_ops_transparent(
                arch, pal, w, buf, dp + 2, 1, arch[dp] as int, arch[dp + 1] + x_off, y,
            );
            match run_ops(arch, pal, w, buf, dp + 2, 1, arch[dp] as int, arch[dp + 1] + x_off, y) {
                Some(t) => {
                    lemma_rows_transparent(arch, pal, x_off, w, y_limit, buf, t.0, y + 1);
                },
                None => {},
            }
        }
    }
}

/// Decoding a cell whose stream consists solely of transparent-advance
/// opcodes and vertical skips produces a buffer that is entirely the
/// transparent sentinel.
pub proof fn lemma_transparent_cell_decodes_blank(
    arch: Seq<u8>,
    pal: Seq<u8>,
    offset: int,
    x_off: int,
    w: int,
    y_off: int,
    h: int,
)
    requires
        rows_all_transparent(
            arch,
            pal,
            w,
            x_off,
            zero_buf((x_off + w) * (y_off + h) * 4),
            offset + 8,
            y_off,
            y_off + h,
        ),
    ensures
        (match decode_cell(arch, pal, offset, x_off, w, y_off, h) {
            Some(b) => b == zero_buf((x_off + w) * (y_off + h) * 4),
            None => true,
        }),
{
    lemma_rows_transparent(
        arch,
        pal,
        x_off,
        w,
        y_off + h,
        zero_buf((x_off + w) * (y_off + h) * 4),
        offset + 8,
        y_off,
    );
}

} // verus!
