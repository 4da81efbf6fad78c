//! The line compression of PWG Raster.

use bytes::BytesMut;
use vstd::prelude::*;

use crate::buffer::{buffer_bytes, put_u8};

verus! {

/// The most pixels that one run or one literal covers.
pub const MAX_RUN: usize = 128;

/// `bytes` cut into pieces of `size`; what is left over is dropped.
pub open spec fn pieces(bytes: Seq<u8>, size: nat) -> Seq<Seq<u8>> {
    Seq::new(bytes.len() / size, |i: int| bytes.subrange(i * size, (i + 1) * size))
}

/// The pieces one behind the other.
pub open spec fn joined(pieces: Seq<Seq<u8>>) -> Seq<u8>
    decreases pieces.len(),
{
    if pieces.len() == 0 {
        Seq::empty()
    } else {
        joined(pieces.drop_last()) + pieces.last()
    }
}

/// How far the run of equal pixels that starts at `start` reaches, given that
/// it covers `run` pixels at least; a run covers no more than [`MAX_RUN`].
pub open spec fn run_length(pixels: Seq<Seq<u8>>, start: int, run: int) -> int
    decreases MAX_RUN - run,
{
    if start + run < pixels.len() && run < MAX_RUN && pixels[start + run] == pixels[start] {
        run_length(pixels, start, run + 1)
    } else {
        run
    }
}

/// Whether the pixel at `at` equals the one behind it.
pub open spec fn run_starts_at(pixels: Seq<Seq<u8>>, at: int) -> bool {
    at + 1 < pixels.len() && pixels[at] == pixels[at + 1]
}

/// How far the literal that starts at `start` reaches, given that it covers
/// `count` pixels at least: up to the next run, or [`MAX_RUN`] pixels.
pub open spec fn literal_length(pixels: Seq<Seq<u8>>, start: int, count: int) -> int
    decreases MAX_RUN - count,
{
    if start + count < pixels.len() && count < MAX_RUN && !run_starts_at(pixels, start + count) {
        literal_length(pixels, start, count + 1)
    } else {
        count
    }
}

/// The control byte before a literal of `count` pixels.
pub open spec fn literal_control(count: int) -> u8 {
    if count == 1 {
        0
    } else {
        (257 - count) as u8
    }
}

/// The pixels of a line from `start` on, compressed: a control byte of `n`
/// (0-127) and a pixel for `n + 1` equal pixels, `257 - n` (129-255) and `n`
/// pixels for a literal of `n`.
pub open spec fn compressed_pixels(pixels: Seq<Seq<u8>>, start: int) -> Seq<u8>
    decreases pixels.len() - start,
{
    if start >= pixels.len() {
        Seq::empty()
    } else {
        proof {
            lemma_run_bounds(pixels, start, 1);
            lemma_literal_bounds(pixels, start, 1);
        }
        let run = run_length(pixels, start, 1);
        if run > 1 {
            seq![(run - 1) as u8] + pixels[start] + compressed_pixels(pixels, start + run)
        } else {
            let count = literal_length(pixels, start, 1);
            seq![literal_control(count)] + joined(pixels.subrange(start, start + count))
                + compressed_pixels(pixels, start + count)
        }
    }
}

/// A line of pixels of `bytes_per_pixel` bytes each, compressed.
pub open spec fn compressed_line(line: Seq<u8>, bytes_per_pixel: nat) -> Seq<u8> {
    compressed_pixels(pieces(line, bytes_per_pixel), 0)
}

pub proof fn lemma_run_bounds(pixels: Seq<Seq<u8>>, start: int, run: int)
    requires
        1 <= run <= MAX_RUN,
        start + run <= pixels.len(),
    ensures
        run <= run_length(pixels, start, run) <= MAX_RUN,
        start + run_length(pixels, start, run) <= pixels.len(),
    decreases MAX_RUN - run,
{
    if start + run < pixels.len() && run < MAX_RUN && pixels[start + run] == pixels[start] {
        lemma_run_bounds(pixels, start, run + 1);
    }
}

pub proof fn lemma_literal_bounds(pixels: Seq<Seq<u8>>, start: int, count: int)
    requires
        1 <= count <= MAX_RUN,
        start + count <= pixels.len(),
    ensures
        count <= literal_length(pixels, start, count) <= MAX_RUN,
        start + literal_length(pixels, start, count) <= pixels.len(),
    decreases MAX_RUN - count,
{
    if start + count < pixels.len() && count < MAX_RUN && !run_starts_at(pixels, start + count) {
        lemma_literal_bounds(pixels, start, count + 1);
    }
}

/// A run's pixels are all equal.
proof fn lemma_run_is_equal(pixels: Seq<Seq<u8>>, start: int, run: int)
    requires
        0 <= start,
        1 <= run <= MAX_RUN,
        start + run <= pixels.len(),
        forall|k: int| start <= k < start + run ==> pixels[k] == pixels[start],
    ensures
        forall|k: int|
            start <= k < start + run_length(pixels, start, run) ==> pixels[k] == pixels[start],
    decreases MAX_RUN - run,
{
    if start + run < pixels.len() && run < MAX_RUN && pixels[start + run] == pixels[start] {
        lemma_run_is_equal(pixels, start, run + 1);
    }
}

/// Where pieces of `size` bytes lie in a sequence of `len` bytes.
proof fn lemma_piece_bounds(len: nat, size: nat, i: int)
    requires
        size > 0,
        0 <= i < len / size,
    ensures
        0 <= i * size,
        (i + 1) * size == i * size + size,
        (i + 1) * size <= len,
{
    assert(0 <= i * size && (i + 1) * size == i * size + size && (i + 1) * size <= len)
        by (nonlinear_arith)
        requires
            size > 0,
            0 <= i < len / size,
    ;
}

/// Consecutive pieces, one behind the other, are the bytes they were cut from.
proof fn lemma_joined_pieces(bytes: Seq<u8>, size: nat, from: int, to: int)
    requires
        size > 0,
        0 <= from <= to <= bytes.len() / size,
    ensures
        0 <= from * size <= to * size <= bytes.len(),
        joined(pieces(bytes, size).subrange(from, to)) == bytes.subrange(from * size, to * size),
    decreases to - from,
{
    let all = pieces(bytes, size);
    assert(0 <= from * size && from * size <= to * size && to * size <= bytes.len())
        by (nonlinear_arith)
        requires
            size > 0,
            0 <= from <= to <= bytes.len() / size,
    ;
    if from < to {
        lemma_joined_pieces(bytes, size, from, to - 1);
        lemma_piece_bounds(bytes.len(), size, to - 1);
        assert(all.subrange(from, to).drop_last() =~= all.subrange(from, to - 1));
        assert(all.subrange(from, to).last() == all[to - 1]);
        assert(bytes.subrange(from * size, (to - 1) * size) + bytes.subrange(
            (to - 1) * size,
            to * size,
        ) =~= bytes.subrange(from * size, to * size));
    } else {
        assert(all.subrange(from, to) =~= Seq::empty());
        assert(bytes.subrange(from * size, to * size) =~= Seq::empty());
    }
}

/// Whether the `size` bytes at `a` and at `b` are the same.
fn same_bytes(bytes: &[u8], a: usize, b: usize, size: usize) -> (same: bool)
    requires
        a + size <= bytes.len(),
        b + size <= bytes.len(),
    ensures
        same == (bytes@.subrange(a as int, a + size) == bytes@.subrange(b as int, b + size)),
{
    let ghost first = bytes@.subrange(a as int, a + size);
    let ghost second = bytes@.subrange(b as int, b + size);
    let mut k: usize = 0;
    while k < size
        invariant
            k <= size,
            a + size <= bytes.len(),
            b + size <= bytes.len(),
            first == bytes@.subrange(a as int, a + size),
            second == bytes@.subrange(b as int, b + size),
            forall|i: int| 0 <= i < k ==> first[i] == second[i],
        decreases size - k,
    {
        if bytes[a + k] != bytes[b + k] {
            assert(first[k as int] != second[k as int]);
            return false;
        }
        assert(first[k as int] == second[k as int]);
        k = k + 1;
    }
    assert(first =~= second);
    true
}

/// Compress one line (see [`compressed_line`]) to the end of `out`.
pub fn compress_line(out: &mut BytesMut, line: &[u8], bytes_per_pixel: usize)
    requires
        bytes_per_pixel > 0,
    ensures
        buffer_bytes(*final(out)) == buffer_bytes(*old(out)) + compressed_line(
            line@,
            bytes_per_pixel as nat,
        ),
{
    let size: usize = bytes_per_pixel;
    let count: usize = line.len() / size;
    let ghost pixels = pieces(line@, size as nat);
    let ghost done = buffer_bytes(*old(out));
    let mut i: usize = 0;
    assert(buffer_bytes(*out) + compressed_pixels(pixels, 0) =~= done + compressed_pixels(
        pixels,
        0,
    ));
    while i < count
        invariant
            size > 0,
            count == line.len() / size,
            pixels == pieces(line@, size as nat),
            i <= count,
            buffer_bytes(*out) + compressed_pixels(pixels, i as int) == done + compressed_pixels(
                pixels,
                0,
            ),
        decreases count - i,
    {
        proof {
            lemma_piece_bounds(line@.len(), size as nat, i as int);
        }
        let at: usize = i * size;
        let ghost before = buffer_bytes(*out);
        let mut run: usize = 1;
        loop
            invariant
                size > 0,
                count == line.len() / size,
                pixels == pieces(line@, size as nat),
                i < count,
                at == i * size,
                at + size <= line.len(),
                1 <= run <= MAX_RUN,
                i + run <= count,
                run_length(pixels, i as int, run as int) == run_length(pixels, i as int, 1),
                forall|k: int| i <= k < i + run ==> pixels[k] == pixels[i as int],
            ensures
                run == run_length(pixels, i as int, 1),
            decreases MAX_RUN - run,
        {
            if i + run >= count || run >= MAX_RUN {
                break;
            }
            proof {
                lemma_piece_bounds(line@.len(), size as nat, i as int);
                lemma_piece_bounds(line@.len(), size as nat, i + run);
            }
            if !same_bytes(line, (i + run) * size, at, size) {
                break;
            }
            run = run + 1;
        }
        if run > 1 {
            put_u8(out, (run - 1) as u8);
            out.extend_from_slice(&line[at..at + size]);
            assert(line@.subrange(at as int, at + size) == pixels[i as int]);
            assert(buffer_bytes(*out) + compressed_pixels(pixels, i + run) =~= before + (seq![
                (run - 1) as u8,
            ] + pixels[i as int] + compressed_pixels(pixels, i + run)));
            i = i + run;
            continue ;
        }
        let mut literal: usize = 1;
        loop
            invariant
                size > 0,
                count == line.len() / size,
                pixels == pieces(line@, size as nat),
                1 <= literal <= MAX_RUN,
                i + literal <= count,
                literal_length(pixels, i as int, literal as int) == literal_length(
                    pixels,
                    i as int,
                    1,
                ),
            ensures
                literal == literal_length(pixels, i as int, 1),
            decreases MAX_RUN - literal,
        {
            if i + literal >= count || literal >= MAX_RUN {
                break;
            }
            let next: usize = i + literal;
            if next + 1 < count {
                proof {
                    lemma_piece_bounds(line@.len(), size as nat, next as int);
                    lemma_piece_bounds(line@.len(), size as nat, next + 1);
                }
                if same_bytes(line, next * size, (next + 1) * size, size) {
                    break;
                }
            }
            literal = literal + 1;
        }
        let control: u8 = if literal == 1 { 0 } else { (257 - literal) as u8 };
        put_u8(out, control);
        proof {
            lemma_joined_pieces(line@, size as nat, i as int, i + literal);
        }
        out.extend_from_slice(&line[at..(i + literal) * size]);
        assert(buffer_bytes(*out) + compressed_pixels(pixels, i + literal) =~= before + (seq![
            literal_control(literal as int),
        ] + joined(pixels.subrange(i as int, i + literal)) + compressed_pixels(
            pixels,
            i + literal,
        )));
        i = i + literal;
    }
    assert(buffer_bytes(*out) =~= buffer_bytes(*out) + compressed_pixels(pixels, count as int));
}

/// How many lines behind the one at `start` are equal to it, given that
/// `repeat` are at least; no more than 255 are counted.
pub open spec fn line_repeats(lines: Seq<Seq<u8>>, start: int, repeat: int) -> int
    decreases 255 - repeat,
{
    if repeat < 255 && start + repeat + 1 < lines.len() && lines[start + repeat + 1]
        == lines[start] {
        line_repeats(lines, start, repeat + 1)
    } else {
        repeat
    }
}

pub proof fn lemma_repeat_bounds(lines: Seq<Seq<u8>>, start: int, repeat: int)
    requires
        0 <= repeat <= 255,
        start + repeat < lines.len(),
    ensures
        repeat <= line_repeats(lines, start, repeat) <= 255,
        start + line_repeats(lines, start, repeat) < lines.len(),
    decreases 255 - repeat,
{
    if repeat < 255 && start + repeat + 1 < lines.len() && lines[start + repeat + 1]
        == lines[start] {
        lemma_repeat_bounds(lines, start, repeat + 1);
    }
}

/// The lines from `start` on, compressed: a count of how many following lines
/// are equal to a line, then that line's pixels.
pub open spec fn compressed_lines(
    lines: Seq<Seq<u8>>,
    start: int,
    bytes_per_pixel: nat,
) -> Seq<u8>
    decreases lines.len() - start,
{
    if start >= lines.len() {
        Seq::empty()
    } else {
        proof {
            lemma_repeat_bounds(lines, start, 0);
        }
        let repeat = line_repeats(lines, start, 0);
        seq![repeat as u8] + compressed_line(lines[start], bytes_per_pixel) + compressed_lines(
            lines,
            start + repeat + 1,
            bytes_per_pixel,
        )
    }
}

/// A page of lines of `width` pixels, compressed. Bytes that fill no line are
/// dropped.
pub open spec fn compressed_page(
    pixels: Seq<u8>,
    width: nat,
    bytes_per_pixel: nat,
) -> Seq<u8> {
    compressed_lines(pieces(pixels, width * bytes_per_pixel), 0, bytes_per_pixel)
}

/// Compress page pixels (see [`compressed_page`]) to the end of `out`.
pub fn compress_page(out: &mut BytesMut, pixels: &[u8], width: usize, bytes_per_pixel: usize)
    requires
        width > 0,
        bytes_per_pixel > 0,
        width * bytes_per_pixel <= usize::MAX,
    ensures
        buffer_bytes(*final(out)) == buffer_bytes(*old(out)) + compressed_page(
            pixels@,
            width as nat,
            bytes_per_pixel as nat,
        ),
{
    assert(width * bytes_per_pixel > 0) by (nonlinear_arith)
        requires
            width > 0,
            bytes_per_pixel > 0,
    ;
    let size: usize = width * bytes_per_pixel;
    let count: usize = pixels.len() / size;
    let ghost lines = pieces(pixels@, size as nat);
    let ghost bpp = bytes_per_pixel as nat;
    let ghost done = buffer_bytes(*old(out));
    let mut i: usize = 0;
    assert(buffer_bytes(*out) + compressed_lines(lines, 0, bpp) =~= done + compressed_lines(
        lines,
        0,
        bpp,
    ));
    while i < count
        invariant
            size > 0,
            bytes_per_pixel > 0,
            bpp == bytes_per_pixel,
            count == pixels.len() / size,
            lines == pieces(pixels@, size as nat),
            i <= count,
            buffer_bytes(*out) + compressed_lines(lines, i as int, bpp) == done
                + compressed_lines(lines, 0, bpp),
        decreases count - i,
    {
        proof {
            lemma_piece_bounds(pixels@.len(), size as nat, i as int);
        }
        let at: usize = i * size;
        let ghost before = buffer_bytes(*out);
        let mut repeat: usize = 0;
        loop
            invariant
                size > 0,
                count == pixels.len() / size,
                lines == pieces(pixels@, size as nat),
                i < count,
                at == i * size,
                repeat <= 255,
                i + repeat < count,
                line_repeats(lines, i as int, repeat as int) == line_repeats(lines, i as int, 0),
            ensures
                repeat == line_repeats(lines, i as int, 0),
            decreases 255 - repeat,
        {
            if repeat >= 255 || i + repeat + 1 >= count {
                break;
            }
            proof {
                lemma_piece_bounds(pixels@.len(), size as nat, i as int);
                lemma_piece_bounds(pixels@.len(), size as nat, i + repeat + 1);
            }
            if !same_bytes(pixels, (i + repeat + 1) * size, at, size) {
                break;
            }
            repeat = repeat + 1;
        }
        put_u8(out, repeat as u8);
        compress_line(out, &pixels[at..at + size], bytes_per_pixel);
        assert(pixels@.subrange(at as int, at + size) == lines[i as int]);
        assert(buffer_bytes(*out) + compressed_lines(lines, i + repeat + 1, bpp) =~= before + (
        seq![repeat as u8] + compressed_line(lines[i as int], bpp) + compressed_lines(
            lines,
            i + repeat + 1,
            bpp,
        )));
        i = i + repeat + 1;
    }
    assert(buffer_bytes(*out) =~= buffer_bytes(*out) + compressed_lines(lines, count as int, bpp));
}

/// `unit`, `count` times.
pub open spec fn repeated(unit: Seq<u8>, count: nat) -> Seq<u8>
    decreases count,
{
    if count == 0 {
        Seq::empty()
    } else {
        repeated(unit, (count - 1) as nat) + unit
    }
}

/// `bytes` before what was read, where something was read.
pub open spec fn behind(bytes: Seq<u8>, read: Option<(Seq<u8>, Seq<u8>)>) -> Option<
    (Seq<u8>, Seq<u8>),
> {
    match read {
        Some((found, rest)) => Some((bytes + found, rest)),
        None => None,
    }
}

/// A compressed line of `count` pixels, and what stands behind it in `data`.
pub open spec fn unpacked_line(data: Seq<u8>, count: nat, bytes_per_pixel: nat) -> Option<
    (Seq<u8>, Seq<u8>),
>
    decreases count,
{
    if count == 0 {
        Some((Seq::empty(), data))
    } else if data.len() == 0 || data[0] == 128 {
        None
    } else if data[0] < 128 {
        let run = data[0] + 1;
        if run > count || 1 + bytes_per_pixel > data.len() {
            None
        } else {
            behind(
                repeated(data.subrange(1, 1 + bytes_per_pixel as int), run as nat),
                unpacked_line(
                    data.skip(1 + bytes_per_pixel as int),
                    (count - run) as nat,
                    bytes_per_pixel,
                ),
            )
        }
    } else {
        let literal = 257 - data[0];
        if literal > count || 1 + literal * bytes_per_pixel > data.len() {
            None
        } else {
            behind(
                data.subrange(1, 1 + literal * bytes_per_pixel),
                unpacked_line(
                    data.skip(1 + literal * bytes_per_pixel),
                    (count - literal) as nat,
                    bytes_per_pixel,
                ),
            )
        }
    }
}

/// `lines` compressed lines of `width` pixels, and what stands behind them in
/// `data`.
pub open spec fn unpacked_lines(
    data: Seq<u8>,
    lines: nat,
    width: nat,
    bytes_per_pixel: nat,
) -> Option<(Seq<u8>, Seq<u8>)>
    decreases lines,
{
    if lines == 0 {
        Some((Seq::empty(), data))
    } else if data.len() == 0 || data[0] + 1 > lines {
        None
    } else {
        match unpacked_line(data.skip(1), width, bytes_per_pixel) {
            Some((line, rest)) => behind(
                repeated(line, (data[0] + 1) as nat),
                unpacked_lines(rest, (lines - data[0] - 1) as nat, width, bytes_per_pixel),
            ),
            None => None,
        }
    }
}

/// What stands behind a line is an end of what the line was read from.
pub proof fn lemma_unpacked_line_rest(data: Seq<u8>, count: nat, bytes_per_pixel: nat)
    ensures
        unpacked_line(data, count, bytes_per_pixel) matches Some((line, rest)) ==> rest.len()
            <= data.len(),
    decreases count,
{
    if count > 0 && data.len() > 0 && data[0] != 128 {
        if data[0] < 128 {
            let run = data[0] + 1;
            if run <= count && 1 + bytes_per_pixel <= data.len() {
                lemma_unpacked_line_rest(
                    data.skip(1 + bytes_per_pixel as int),
                    (count - run) as nat,
                    bytes_per_pixel,
                );
            }
        } else {
            let literal = 257 - data[0];
            let len = literal as nat * bytes_per_pixel;
            if literal <= count && 1 + len <= data.len() {
                lemma_unpacked_line_rest(
                    data.skip(1 + len as int),
                    (count - literal) as nat,
                    bytes_per_pixel,
                );
            }
        }
    }
}

/// What stands behind lines is an end of what the lines were read from.
pub proof fn lemma_unpacked_lines_rest(
    data: Seq<u8>,
    lines: nat,
    width: nat,
    bytes_per_pixel: nat,
)
    ensures
        unpacked_lines(data, lines, width, bytes_per_pixel) matches Some((pixels, rest))
            ==> rest.len() <= data.len(),
    decreases lines,
{
    if lines > 0 && data.len() > 0 && data[0] + 1 <= lines {
        lemma_unpacked_line_rest(data.skip(1), width, bytes_per_pixel);
        if let Some((line, rest)) = unpacked_line(data.skip(1), width, bytes_per_pixel) {
            lemma_unpacked_lines_rest(
                rest,
                (lines - data[0] - 1) as nat,
                width,
                bytes_per_pixel,
            );
        }
    }
}

/// What stands behind a line has no part in reading it.
pub proof fn lemma_unpacked_line_extends(
    data: Seq<u8>,
    count: nat,
    bytes_per_pixel: nat,
    more: Seq<u8>,
)
    ensures
        unpacked_line(data, count, bytes_per_pixel) matches Some((line, rest)) ==> unpacked_line(
            data + more,
            count,
            bytes_per_pixel,
        ) == Some((line, rest + more)),
    decreases count,
{
    let whole = data + more;
    if count > 0 && data.len() > 0 && data[0] != 128 {
        assert(whole[0] == data[0]);
        if data[0] < 128 {
            let run = data[0] + 1;
            let end = 1 + bytes_per_pixel as int;
            if run <= count && end <= data.len() {
                lemma_unpacked_line_extends(
                    data.skip(end),
                    (count - run) as nat,
                    bytes_per_pixel,
                    more,
                );
                assert(whole.subrange(1, end) =~= data.subrange(1, end));
                assert(whole.skip(end) =~= data.skip(end) + more);
            }
        } else {
            let literal = 257 - data[0];
            let end = 1 + literal * bytes_per_pixel;
            assert(end >= 1) by (nonlinear_arith)
                requires
                    end == 1 + literal * bytes_per_pixel,
                    literal >= 0,
            ;
            if literal <= count && end <= data.len() {
                lemma_unpacked_line_extends(
                    data.skip(end),
                    (count - literal) as nat,
                    bytes_per_pixel,
                    more,
                );
                assert(whole.subrange(1, end) =~= data.subrange(1, end));
                assert(whole.skip(end) =~= data.skip(end) + more);
            }
        }
    }
}

/// What stands behind lines has no part in reading them.
pub proof fn lemma_unpacked_lines_extends(
    data: Seq<u8>,
    lines: nat,
    width: nat,
    bytes_per_pixel: nat,
    more: Seq<u8>,
)
    ensures
        unpacked_lines(data, lines, width, bytes_per_pixel) matches Some((pixels, rest))
            ==> unpacked_lines(data + more, lines, width, bytes_per_pixel) == Some(
            (pixels, rest + more),
        ),
    decreases lines,
{
    if lines > 0 && data.len() > 0 && data[0] + 1 <= lines {
        assert((data + more)[0] == data[0]);
        assert((data + more).skip(1) =~= data.skip(1) + more);
        lemma_unpacked_line_extends(data.skip(1), width, bytes_per_pixel, more);
        if let Some((line, rest)) = unpacked_line(data.skip(1), width, bytes_per_pixel) {
            lemma_unpacked_lines_extends(
                rest,
                (lines - data[0] - 1) as nat,
                width,
                bytes_per_pixel,
                more,
            );
        }
    }
}

/// Put the bytes from `from` up to `to` behind `out`, `count` times.
pub fn put_repeated(out: &mut Vec<u8>, data: &[u8], from: usize, to: usize, count: usize)
    requires
        from <= to <= data.len(),
    ensures
        final(out)@ == old(out)@ + repeated(data@.subrange(from as int, to as int), count as nat),
{
    let ghost start = out@;
    let ghost unit = data@.subrange(from as int, to as int);
    let mut done: usize = 0;
    assert(out@ =~= start + repeated(unit, 0));
    while done < count
        invariant
            done <= count,
            from <= to <= data.len(),
            unit == data@.subrange(from as int, to as int),
            out@ == start + repeated(unit, done as nat),
        decreases count - done,
    {
        let ghost before = out@;
        let mut i: usize = from;
        while i < to
            invariant
                from <= i <= to <= data.len(),
                out@ =~= before + data@.subrange(from as int, i as int),
            decreases to - i,
        {
            out.push(data[i]);
            i = i + 1;
        }
        done = done + 1;
        assert(out@ =~= start + repeated(unit, done as nat));
    }
}

/// The compressed line of `count` pixels at `from`, and where it ends.
pub fn unpack_line(data: &[u8], from: usize, count: usize, bytes_per_pixel: usize) -> (read: Option<
    (Vec<u8>, usize),
>)
    requires
        from <= data.len(),
        1 <= bytes_per_pixel <= 3,
    ensures
        match read {
            Some((line, end)) => from <= end <= data.len() && unpacked_line(
                data@.skip(from as int),
                count as nat,
                bytes_per_pixel as nat,
            ) == Some((line@, data@.skip(end as int))),
            None => unpacked_line(data@.skip(from as int), count as nat, bytes_per_pixel as nat)
                is None,
        },
{
    let ghost bpp = bytes_per_pixel as nat;
    let ghost whole = unpacked_line(data@.skip(from as int), count as nat, bpp);
    let mut line: Vec<u8> = Vec::new();
    let mut at: usize = from;
    let mut left: usize = count;
    assert(behind(line@, whole) == whole) by {
        if let Some((found, rest)) = whole {
            assert(line@ + found =~= found);
        }
    }
    while left > 0
        invariant
            from <= at <= data.len(),
            1 <= bytes_per_pixel <= 3,
            bpp == bytes_per_pixel,
            whole == unpacked_line(data@.skip(from as int), count as nat, bpp),
            behind(line@, unpacked_line(data@.skip(at as int), left as nat, bpp)) == whole,
        decreases left,
    {
        let ghost rest = data@.skip(at as int);
        if at >= data.len() {
            return None;
        }
        let control: u8 = data[at];
        assert(rest[0] == control);
        if control == 128 {
            return None;
        }
        let ghost before = line@;
        if control < 128 {
            let run: usize = control as usize + 1;
            if run > left || bytes_per_pixel > data.len() - at - 1 {
                return None;
            }
            put_repeated(&mut line, data, at + 1, at + 1 + bytes_per_pixel, run);
            proof {
                let unit = rest.subrange(1, 1 + bpp as int);
                assert(unit =~= data@.subrange(at + 1, at + 1 + bpp));
                assert(rest.skip(1 + bpp as int) =~= data@.skip(at + 1 + bpp));
                lemma_behind(
                    before,
                    repeated(unit, run as nat),
                    unpacked_line(data@.skip(at + 1 + bpp), (left - run) as nat, bpp),
                );
            }
            at = at + 1 + bytes_per_pixel;
            left = left - run;
        } else {
            let literal: usize = 257 - control as usize;
            assert(literal * bytes_per_pixel <= 128 * 3) by (nonlinear_arith)
                requires
                    literal <= 128,
                    bytes_per_pixel <= 3,
            ;
            let len: usize = literal * bytes_per_pixel;
            if literal > left || len > data.len() - at - 1 {
                return None;
            }
            put_repeated(&mut line, data, at + 1, at + 1 + len, 1);
            proof {
                let found = rest.subrange(1, 1 + len as int);
                assert(found =~= data@.subrange(at + 1, at + 1 + len));
                assert(repeated(found, 1) =~= found) by {
                    reveal_with_fuel(repeated, 2);
                }
                assert(rest.skip(1 + len as int) =~= data@.skip(at + 1 + len));
                lemma_behind(
                    before,
                    found,
                    unpacked_line(data@.skip(at + 1 + len), (left - literal) as nat, bpp),
                );
            }
            at = at + 1 + len;
            left = left - literal;
        }
    }
    assert(line@ + Seq::<u8>::empty() =~= line@);
    Some((line, at))
}

proof fn lemma_behind(a: Seq<u8>, b: Seq<u8>, read: Option<(Seq<u8>, Seq<u8>)>)
    ensures
        behind(a, behind(b, read)) == behind(a + b, read),
{
    if let Some((found, rest)) = read {
        assert(a + (b + found) =~= a + b + found);
    }
}

/// The `lines` compressed lines of `width` pixels at `from`, and where they
/// end.
pub fn unpack_lines(
    data: &[u8],
    from: usize,
    lines: usize,
    width: usize,
    bytes_per_pixel: usize,
) -> (read: Option<(Vec<u8>, usize)>)
    requires
        from <= data.len(),
        1 <= bytes_per_pixel <= 3,
    ensures
        match read {
            Some((pixels, end)) => from <= end <= data.len() && unpacked_lines(
                data@.skip(from as int),
                lines as nat,
                width as nat,
                bytes_per_pixel as nat,
            ) == Some((pixels@, data@.skip(end as int))),
            None => unpacked_lines(
                data@.skip(from as int),
                lines as nat,
                width as nat,
                bytes_per_pixel as nat,
            ) is None,
        },
{
    let ghost bpp = bytes_per_pixel as nat;
    let ghost whole = unpacked_lines(data@.skip(from as int), lines as nat, width as nat, bpp);
    let mut pixels: Vec<u8> = Vec::new();
    let mut at: usize = from;
    let mut left: usize = lines;
    assert(behind(pixels@, whole) == whole) by {
        if let Some((found, rest)) = whole {
            assert(pixels@ + found =~= found);
        }
    }
    while left > 0
        invariant
            from <= at <= data.len(),
            1 <= bytes_per_pixel <= 3,
            bpp == bytes_per_pixel,
            whole == unpacked_lines(data@.skip(from as int), lines as nat, width as nat, bpp),
            behind(
                pixels@,
                unpacked_lines(data@.skip(at as int), left as nat, width as nat, bpp),
            ) == whole,
        decreases left,
    {
        let ghost rest = data@.skip(at as int);
        if at >= data.len() {
            return None;
        }
        let repeat: usize = data[at] as usize + 1;
        assert(rest[0] + 1 == repeat);
        if repeat > left {
            return None;
        }
        assert(rest.skip(1) =~= data@.skip(at + 1));
        match unpack_line(data, at + 1, width, bytes_per_pixel) {
            Some((line, end)) => {
                let ghost before = pixels@;
                put_repeated(&mut pixels, line.as_slice(), 0, line.len(), repeat);
                proof {
                    assert(line@.subrange(0, line@.len() as int) =~= line@);
                    lemma_behind(
                        before,
                        repeated(line@, repeat as nat),
                        unpacked_lines(
                            data@.skip(end as int),
                            (left - repeat) as nat,
                            width as nat,
                            bpp,
                        ),
                    );
                }
                at = end;
                left = left - repeat;
            },
            None => {
                return None;
            },
        }
    }
    assert(pixels@ + Seq::<u8>::empty() =~= pixels@);
    Some((pixels, at))
}

/// Pieces of pieces, one behind the other.
proof fn lemma_joined_add(a: Seq<Seq<u8>>, b: Seq<Seq<u8>>)
    ensures
        joined(a + b) == joined(a) + joined(b),
    decreases b.len(),
{
    if b.len() == 0 {
        assert(a + b =~= a);
        assert(joined(a) + joined(b) =~= joined(a));
    } else {
        lemma_joined_add(a, b.drop_last());
        assert((a + b).drop_last() =~= a + b.drop_last());
        assert(joined(a) + (joined(b.drop_last()) + b.last()) =~= joined(a) + joined(b.drop_last())
            + b.last());
    }
}

/// Equal pieces, one behind the other, are the piece repeated.
proof fn lemma_joined_equal(pieces: Seq<Seq<u8>>, unit: Seq<u8>)
    requires
        forall|i: int| 0 <= i < pieces.len() ==> pieces[i] == unit,
    ensures
        joined(pieces) == repeated(unit, pieces.len()),
    decreases pieces.len(),
{
    if pieces.len() > 0 {
        lemma_joined_equal(pieces.drop_last(), unit);
    }
}

proof fn lemma_joined_len(pieces: Seq<Seq<u8>>, size: nat)
    requires
        forall|i: int| 0 <= i < pieces.len() ==> (#[trigger] pieces[i]).len() == size,
    ensures
        joined(pieces).len() == pieces.len() * size,
    decreases pieces.len(),
{
    if pieces.len() > 0 {
        lemma_joined_len(pieces.drop_last(), size);
        assert(pieces.len() * size == (pieces.len() - 1) * size + size) by (nonlinear_arith);
    } else {
        assert(0 * size == 0) by (nonlinear_arith);
    }
}

/// What a reader makes of compressed pixels is the pixels.
proof fn lemma_unpacks_pixels(
    pixels: Seq<Seq<u8>>,
    start: int,
    bytes_per_pixel: nat,
    rest: Seq<u8>,
)
    requires
        0 <= start <= pixels.len(),
        forall|i: int| 0 <= i < pixels.len() ==> (#[trigger] pixels[i]).len() == bytes_per_pixel,
    ensures
        unpacked_line(
            compressed_pixels(pixels, start) + rest,
            (pixels.len() - start) as nat,
            bytes_per_pixel,
        ) == Some((joined(pixels.subrange(start, pixels.len() as int)), rest)),
    decreases pixels.len() - start,
{
    let data = compressed_pixels(pixels, start) + rest;
    let len = pixels.len() as int;
    if start == len {
        assert(data =~= rest);
        assert(pixels.subrange(start, len) =~= Seq::empty());
    } else {
        lemma_run_bounds(pixels, start, 1);
        lemma_literal_bounds(pixels, start, 1);
        let run = run_length(pixels, start, 1);
        let count = if run > 1 {
            run
        } else {
            literal_length(pixels, start, 1)
        };
        let next = start + count;
        let covered = pixels.subrange(start, next);
        let behind_it = compressed_pixels(pixels, next) + rest;
        lemma_unpacks_pixels(pixels, next, bytes_per_pixel, rest);
        lemma_joined_add(covered, pixels.subrange(next, len));
        assert(pixels.subrange(start, len) =~= covered + pixels.subrange(next, len));
        if run > 1 || count == 1 {
            if run > 1 {
                lemma_run_is_equal(pixels, start, 1);
            } else {
                assert(joined(covered) =~= pixels[start]) by {
                    reveal_with_fuel(joined, 2);
                    assert(covered.drop_last() =~= Seq::empty());
                }
            }
            lemma_joined_equal(covered, pixels[start]);
            assert(data[0] == count - 1);
            assert(data.subrange(1, 1 + bytes_per_pixel as int) =~= pixels[start]);
            assert(data.skip(1 + bytes_per_pixel as int) =~= behind_it);
        } else {
            lemma_joined_len(covered, bytes_per_pixel);
            assert(data[0] == 257 - count);
            assert(data.subrange(1, 1 + count * bytes_per_pixel) =~= joined(covered));
            assert(data.skip(1 + count * bytes_per_pixel) =~= behind_it);
        }
    }
}

/// A reader that unpacks a compressed line gets the line back, and what stands
/// behind it is left as it is.
pub proof fn law_line_round_trip(line: Seq<u8>, bytes_per_pixel: nat, rest: Seq<u8>)
    requires
        bytes_per_pixel > 0,
        line.len() % bytes_per_pixel == 0,
    ensures
        unpacked_line(
            compressed_line(line, bytes_per_pixel) + rest,
            line.len() / bytes_per_pixel,
            bytes_per_pixel,
        ) == Some((line, rest)),
{
    let pixels = pieces(line, bytes_per_pixel);
    assert forall|i: int| 0 <= i < pixels.len() implies (#[trigger] pixels[i]).len()
        == bytes_per_pixel by {
        lemma_piece_bounds(line.len(), bytes_per_pixel, i);
    }
    lemma_unpacks_pixels(pixels, 0, bytes_per_pixel, rest);
    lemma_whole(line, bytes_per_pixel);
}

/// Pieces that leave nothing over, one behind the other, are all of it.
proof fn lemma_whole(bytes: Seq<u8>, size: nat)
    requires
        size > 0,
        bytes.len() % size == 0,
    ensures
        joined(pieces(bytes, size).subrange(0, pieces(bytes, size).len() as int)) == bytes,
{
    let count = bytes.len() / size;
    lemma_joined_pieces(bytes, size, 0, count as int);
    assert(0 * size == 0 && count * size == bytes.len()) by (nonlinear_arith)
        requires
            size > 0,
            count == bytes.len() / size,
            bytes.len() % size == 0,
    ;
    assert(bytes.subrange(0, bytes.len() as int) =~= bytes);
}

/// A run of equal lines.
proof fn lemma_lines_are_equal(lines: Seq<Seq<u8>>, start: int, repeat: int)
    requires
        0 <= start,
        0 <= repeat <= 255,
        start + repeat < lines.len(),
        forall|k: int| start <= k <= start + repeat ==> lines[k] == lines[start],
    ensures
        forall|k: int|
            start <= k <= start + line_repeats(lines, start, repeat) ==> lines[k] == lines[start],
    decreases 255 - repeat,
{
    if repeat < 255 && start + repeat + 1 < lines.len() && lines[start + repeat + 1]
        == lines[start] {
        lemma_lines_are_equal(lines, start, repeat + 1);
    }
}

/// What a reader makes of compressed lines is the lines.
proof fn lemma_unpacks_lines(
    lines: Seq<Seq<u8>>,
    start: int,
    width: nat,
    bytes_per_pixel: nat,
    rest: Seq<u8>,
)
    requires
        bytes_per_pixel > 0,
        0 <= start <= lines.len(),
        forall|i: int|
            0 <= i < lines.len() ==> (#[trigger] lines[i]).len() == width * bytes_per_pixel,
    ensures
        unpacked_lines(
            compressed_lines(lines, start, bytes_per_pixel) + rest,
            (lines.len() - start) as nat,
            width,
            bytes_per_pixel,
        ) == Some((joined(lines.subrange(start, lines.len() as int)), rest)),
    decreases lines.len() - start,
{
    let data = compressed_lines(lines, start, bytes_per_pixel) + rest;
    let len = lines.len() as int;
    if start == len {
        assert(data =~= rest);
        assert(lines.subrange(start, len) =~= Seq::empty());
    } else {
        lemma_repeat_bounds(lines, start, 0);
        let repeat = line_repeats(lines, start, 0);
        let next = start + repeat + 1;
        let covered = lines.subrange(start, next);
        let line = lines[start];
        let behind_it = compressed_lines(lines, next, bytes_per_pixel) + rest;
        assert(line.len() % bytes_per_pixel == 0 && line.len() / bytes_per_pixel == width)
            by (nonlinear_arith)
            requires
                bytes_per_pixel > 0,
                line.len() == width * bytes_per_pixel,
        ;
        law_line_round_trip(line, bytes_per_pixel, behind_it);
        lemma_unpacks_lines(lines, next, width, bytes_per_pixel, rest);
        lemma_lines_are_equal(lines, start, 0);
        lemma_joined_add(covered, lines.subrange(next, len));
        assert(lines.subrange(start, len) =~= covered + lines.subrange(next, len));
        lemma_joined_equal(covered, line);
        assert(data[0] == repeat);
        assert(data.skip(1) =~= compressed_line(line, bytes_per_pixel) + behind_it);
    }
}

/// A reader that unpacks a compressed page of `height` lines gets the page's
/// pixels back, and what stands behind it is left as it is.
pub proof fn law_page_round_trip(
    pixels: Seq<u8>,
    width: nat,
    height: nat,
    bytes_per_pixel: nat,
    rest: Seq<u8>,
)
    requires
        width > 0,
        bytes_per_pixel > 0,
        pixels.len() == height * (width * bytes_per_pixel),
    ensures
        unpacked_lines(
            compressed_page(pixels, width, bytes_per_pixel) + rest,
            height,
            width,
            bytes_per_pixel,
        ) == Some((pixels, rest)),
{
    let size = width * bytes_per_pixel;
    assert(size > 0) by (nonlinear_arith)
        requires
            width > 0,
            bytes_per_pixel > 0,
            size == width * bytes_per_pixel,
    ;
    assert(pixels.len() % size == 0 && pixels.len() / size == height) by (nonlinear_arith)
        requires
            size > 0,
            pixels.len() == height * size,
    ;
    let lines = pieces(pixels, size);
    assert forall|i: int| 0 <= i < lines.len() implies (#[trigger] lines[i]).len() == size by {
        lemma_piece_bounds(pixels.len(), size, i);
    }
    lemma_unpacks_lines(lines, 0, width, bytes_per_pixel, rest);
    lemma_whole(pixels, size);
}

/// Bytes of one unit after another: every unit's length in, they start again.
pub proof fn law_repeated(unit: Seq<u8>, count: nat)
    requires
        unit.len() > 0,
    ensures
        repeated(unit, count) == Seq::new(count * unit.len(), |k: int| unit[k % unit.len() as int]),
    decreases count,
{
    let size = unit.len() as int;
    let expected = Seq::new(count * unit.len(), |k: int| unit[k % size]);
    if count == 0 {
        assert(0 * unit.len() == 0) by (nonlinear_arith);
        assert(repeated(unit, count) =~= expected);
    } else {
        law_repeated(unit, (count - 1) as nat);
        let before = (count - 1) * size;
        assert(before + size == count * size) by (nonlinear_arith)
            requires
                before == (count - 1) * size,
        ;
        assert(0 <= before) by (nonlinear_arith)
            requires
                before == (count - 1) * size,
                count >= 1,
                size > 0,
        ;
        assert forall|k: int| before <= k < before + size implies #[trigger] unit[k - before]
            == unit[k % size] by {
            assert(k % size == k - before) by (nonlinear_arith)
                requires
                    before == (count - 1) * size,
                    before <= k < before + size,
            ;
        }
        assert forall|k: int| 0 <= k < count * size implies #[trigger] repeated(unit, count)[k]
            == expected[k] by {
            if k >= before {
                assert(repeated(unit, count)[k] == unit[k - before]);
            }
        }
        assert(repeated(unit, count) =~= expected);
    }
}

/// A byte `n` below 128 and a pixel are read as `n + 1` times that pixel, before
/// what the bytes behind them are read as.
pub proof fn law_runs_are_read(n: u8, pixel: Seq<u8>, more: Seq<u8>, count: nat)
    requires
        n < 128,
        n < count,
        pixel.len() > 0,
    ensures
        unpacked_line(seq![n] + pixel + more, count, pixel.len()) == match unpacked_line(
            more,
            (count - n - 1) as nat,
            pixel.len(),
        ) {
            Some((line, rest)) => Some(
                (
                    Seq::new(
                        ((n + 1) * pixel.len()) as nat,
                        |k: int| pixel[k % pixel.len() as int],
                    ) + line,
                    rest,
                ),
            ),
            None => None,
        },
{
    let data = seq![n] + pixel + more;
    law_repeated(pixel, (n + 1) as nat);
    assert(data.subrange(1, 1 + pixel.len() as int) =~= pixel);
    assert(data.skip(1 + pixel.len() as int) =~= more);
}

/// A byte `257 - n` and `n` pixels, two to 128 of them, are read as those
/// pixels, before what the bytes behind them are read as.
pub proof fn law_literals_are_read(
    n: int,
    pixels: Seq<u8>,
    more: Seq<u8>,
    count: nat,
    bytes_per_pixel: nat,
)
    requires
        2 <= n <= 128,
        n <= count,
        pixels.len() == n * bytes_per_pixel,
    ensures
        unpacked_line(seq![(257 - n) as u8] + pixels + more, count, bytes_per_pixel)
            == match unpacked_line(more, (count - n) as nat, bytes_per_pixel) {
            Some((line, rest)) => Some((pixels + line, rest)),
            None => None,
        },
{
    let data = seq![(257 - n) as u8] + pixels + more;
    assert(data[0] == 257 - n);
    assert(data.subrange(1, 1 + n * bytes_per_pixel) =~= pixels);
    assert(data.skip(1 + n * bytes_per_pixel) =~= more);
}

/// A line is read to its last pixel and no further; without bytes, or where a
/// byte of 128 or one for more pixels than are left stands, there is none.
pub proof fn law_lines_end(data: Seq<u8>, count: nat, bytes_per_pixel: nat)
    ensures
        unpacked_line(data, 0, bytes_per_pixel) == Some((Seq::<u8>::empty(), data)),
        count > 0 && data.len() == 0 ==> unpacked_line(data, count, bytes_per_pixel) is None,
        count > 0 && data.len() > 0 && data[0] == 128 ==> unpacked_line(
            data,
            count,
            bytes_per_pixel,
        ) is None,
        count > 0 && data.len() > 0 && data[0] < 128 && data[0] >= count ==> unpacked_line(
            data,
            count,
            bytes_per_pixel,
        ) is None,
        count > 0 && data.len() > 0 && data[0] > 128 && 257 - data[0] > count ==> unpacked_line(
            data,
            count,
            bytes_per_pixel,
        ) is None,
{
}

/// A byte `n` and a compressed line are read as `n + 1` times that line, before
/// what the bytes behind them are read as.
pub proof fn law_equal_lines_are_read(
    n: u8,
    line: Seq<u8>,
    more: Seq<u8>,
    lines: nat,
    bytes_per_pixel: nat,
)
    requires
        bytes_per_pixel > 0,
        line.len() > 0,
        line.len() % bytes_per_pixel == 0,
        n < lines,
    ensures
        unpacked_lines(
            seq![n] + compressed_line(line, bytes_per_pixel) + more,
            lines,
            line.len() / bytes_per_pixel,
            bytes_per_pixel,
        ) == match unpacked_lines(
            more,
            (lines - n - 1) as nat,
            line.len() / bytes_per_pixel,
            bytes_per_pixel,
        ) {
            Some((below, rest)) => Some(
                (
                    Seq::new(
                        ((n + 1) * line.len()) as nat,
                        |k: int| line[k % line.len() as int],
                    ) + below,
                    rest,
                ),
            ),
            None => None,
        },
{
    let packed = compressed_line(line, bytes_per_pixel);
    let data = seq![n] + packed + more;
    law_line_round_trip(line, bytes_per_pixel, more);
    law_repeated(line, (n + 1) as nat);
    assert(data.skip(1) =~= packed + more);
}

/// Pixel `i` of a line.
pub open spec fn pixel_at(line: Seq<u8>, bytes_per_pixel: nat, i: int) -> Seq<u8> {
    line.subrange(i * bytes_per_pixel, i * bytes_per_pixel + bytes_per_pixel)
}

proof fn lemma_pixel_at(line: Seq<u8>, bytes_per_pixel: nat, i: int)
    requires
        bytes_per_pixel > 0,
        0 <= i < line.len() / bytes_per_pixel,
    ensures
        pieces(line, bytes_per_pixel)[i] == pixel_at(line, bytes_per_pixel, i),
        pixel_at(line, bytes_per_pixel, i).len() == bytes_per_pixel,
{
    lemma_piece_bounds(line.len(), bytes_per_pixel, i);
}

/// A line that starts with equal pixels, `run` of them and no more or 128, is
/// compressed to a byte `run - 1` and one of those pixels before anything else.
pub proof fn law_equal_pixels_are_packed(line: Seq<u8>, bytes_per_pixel: nat, run: int)
    requires
        bytes_per_pixel > 0,
        2 <= run <= 128,
        run <= line.len() / bytes_per_pixel,
        forall|k: int|
            0 <= k < run ==> #[trigger] pixel_at(line, bytes_per_pixel, k) == pixel_at(
                line,
                bytes_per_pixel,
                0,
            ),
        run == 128 || run == line.len() / bytes_per_pixel || pixel_at(line, bytes_per_pixel, run)
            != pixel_at(line, bytes_per_pixel, 0),
    ensures
        compressed_line(line, bytes_per_pixel).len() >= 1 + bytes_per_pixel,
        compressed_line(line, bytes_per_pixel)[0] == run - 1,
        compressed_line(line, bytes_per_pixel).subrange(1, 1 + bytes_per_pixel as int) == pixel_at(
            line,
            bytes_per_pixel,
            0,
        ),
{
    let pixels = pieces(line, bytes_per_pixel);
    assert forall|k: int| 0 <= k < pixels.len() implies #[trigger] pixels[k] == pixel_at(
        line,
        bytes_per_pixel,
        k,
    ) by {
        lemma_pixel_at(line, bytes_per_pixel, k);
    }
    lemma_pixel_at(line, bytes_per_pixel, 0);
    lemma_run_is(pixels, 1, run);
    let rest = compressed_pixels(pixels, run);
    let whole = compressed_line(line, bytes_per_pixel);
    assert(whole == seq![(run - 1) as u8] + pixels[0] + rest);
    assert(whole.subrange(1, 1 + bytes_per_pixel as int) =~= pixels[0]);
}

/// A run of equal pixels reaches as far as they are equal.
proof fn lemma_run_is(pixels: Seq<Seq<u8>>, from: int, run: int)
    requires
        1 <= from <= run <= 128,
        run <= pixels.len(),
        forall|k: int| 0 <= k < run ==> #[trigger] pixels[k] == pixels[0],
        run == 128 || run == pixels.len() || pixels[run] != pixels[0],
    ensures
        run_length(pixels, 0, from) == run,
    decreases run - from,
{
    if from < run {
        assert(pixels[from] == pixels[0]);
        lemma_run_is(pixels, from + 1, run);
    }
}

/// A line that starts with pixels of which none equals the next, up to the line's
/// end, to 128 of them or to where two are equal, is compressed to a byte and
/// those pixels as they are before anything else: 0 for one, `257 - n` for `n`.
pub proof fn law_unequal_pixels_are_kept(line: Seq<u8>, bytes_per_pixel: nat, count: int)
    requires
        bytes_per_pixel > 0,
        1 <= count <= 128,
        count <= line.len() / bytes_per_pixel,
        forall|k: int|
            0 <= k < count && k + 1 < line.len() / bytes_per_pixel ==> #[trigger] pixel_at(
                line,
                bytes_per_pixel,
                k,
            ) != pixel_at(line, bytes_per_pixel, k + 1),
        count == 128 || count == line.len() / bytes_per_pixel || (count + 1 < line.len()
            / bytes_per_pixel && pixel_at(line, bytes_per_pixel, count) == pixel_at(
            line,
            bytes_per_pixel,
            count + 1,
        )),
    ensures
        compressed_line(line, bytes_per_pixel).len() >= 1 + count * bytes_per_pixel,
        compressed_line(line, bytes_per_pixel)[0] == (if count == 1 {
            0int
        } else {
            257 - count
        }),
        compressed_line(line, bytes_per_pixel).subrange(1, 1 + count * bytes_per_pixel)
            == line.take(count * bytes_per_pixel),
{
    let pixels = pieces(line, bytes_per_pixel);
    assert forall|k: int| 0 <= k < pixels.len() implies #[trigger] pixels[k] == pixel_at(
        line,
        bytes_per_pixel,
        k,
    ) by {
        lemma_pixel_at(line, bytes_per_pixel, k);
    }
    lemma_pixel_at(line, bytes_per_pixel, 0);
    if pixels.len() > 1 {
        assert(pixel_at(line, bytes_per_pixel, 0) != pixel_at(line, bytes_per_pixel, 0int + 1));
        assert(pixels[0] != pixels[1]);
    }
    assert(run_length(pixels, 0, 1) == 1);
    assert forall|k: int| 1 <= k < count implies !#[trigger] run_starts_at(pixels, k) by {
        if k + 1 < pixels.len() {
            assert(pixel_at(line, bytes_per_pixel, k) != pixel_at(line, bytes_per_pixel, k + 1));
            assert(pixels[k] != pixels[k + 1]);
        }
    }
    if count < 128 && count < pixels.len() {
        assert(pixels[count] == pixels[count + 1]);
        assert(run_starts_at(pixels, count));
    }
    lemma_literal_is(pixels, 1, count);
    lemma_joined_pieces(line, bytes_per_pixel, 0, count);
    assert(0 * bytes_per_pixel == 0) by (nonlinear_arith);
    let kept = joined(pixels.subrange(0, count));
    let rest = compressed_pixels(pixels, count);
    let whole = compressed_line(line, bytes_per_pixel);
    assert(kept =~= line.take(count * bytes_per_pixel));
    assert(whole == seq![literal_control(count)] + kept + rest);
    assert(whole.subrange(1, 1 + count * bytes_per_pixel) =~= kept);
}

/// A literal reaches up to the next run.
proof fn lemma_literal_is(pixels: Seq<Seq<u8>>, from: int, count: int)
    requires
        1 <= from <= count <= 128,
        count <= pixels.len(),
        forall|k: int| 1 <= k < count ==> !#[trigger] run_starts_at(pixels, k),
        count == 128 || count == pixels.len() || run_starts_at(pixels, count),
    ensures
        literal_length(pixels, 0, from) == count,
    decreases count - from,
{
    if from < count {
        assert(!run_starts_at(pixels, from));
        lemma_literal_is(pixels, from + 1, count);
    }
}

/// Runs and literals don't depend on what stands before them.
proof fn lemma_lengths_behind(pixels: Seq<Seq<u8>>, by: int, start: int, run: int)
    requires
        0 <= by <= pixels.len(),
        0 <= start,
        1 <= run <= 128,
    ensures
        run_length(pixels, by + start, run) == run_length(pixels.skip(by), start, run),
        literal_length(pixels, by + start, run) == literal_length(pixels.skip(by), start, run),
    decreases 128 - run,
{
    let rest = pixels.skip(by);
    if start + run < rest.len() {
        assert(rest[start + run] == pixels[by + start + run] && rest[start] == pixels[by + start]);
        if start + run + 1 < rest.len() {
            assert(rest[start + run + 1] == pixels[by + start + run + 1]);
        }
        if run < 128 {
            lemma_lengths_behind(pixels, by, start, run + 1);
        }
    }
}

/// Pixels are compressed alike whatever stands before them.
proof fn lemma_compressed_behind(pixels: Seq<Seq<u8>>, by: int, start: int)
    requires
        0 <= by <= pixels.len(),
        0 <= start,
    ensures
        compressed_pixels(pixels, by + start) == compressed_pixels(pixels.skip(by), start),
    decreases pixels.len() - by - start,
{
    let rest = pixels.skip(by);
    if start < rest.len() {
        lemma_lengths_behind(pixels, by, start, 1);
        lemma_run_bounds(rest, start, 1);
        lemma_literal_bounds(rest, start, 1);
        let run = run_length(rest, start, 1);
        let count = literal_length(rest, start, 1);
        lemma_compressed_behind(pixels, by, start + run);
        lemma_compressed_behind(pixels, by, start + count);
        assert(rest[start] == pixels[by + start]);
        assert(rest.subrange(start, start + count) =~= pixels.subrange(
            by + start,
            by + start + count,
        ));
        assert(by + start + run == by + (start + run));
        assert(by + start + count == by + (start + count));
    }
}

/// What is cut from behind some pieces is the other pieces.
proof fn lemma_pieces_behind(bytes: Seq<u8>, size: nat, by: int)
    requires
        size > 0,
        0 <= by <= bytes.len() / size,
    ensures
        0 <= by * size <= bytes.len(),
        pieces(bytes.skip(by * size), size) == pieces(bytes, size).skip(by),
{
    let len = bytes.len() as int;
    assert(0 <= by * size <= len && (len - by * size) / (size as int) == len / (size as int) - by)
        by (nonlinear_arith)
        requires
            size > 0,
            0 <= by <= len / (size as int),
            len >= 0,
    ;
    let rest = bytes.skip(by * size);
    let (x, y) = (pieces(rest, size), pieces(bytes, size).skip(by));
    assert(x.len() == y.len());
    assert forall|i: int| 0 <= i < x.len() implies x[i] == y[i] by {
        lemma_piece_bounds(rest.len(), size, i);
        lemma_piece_bounds(bytes.len(), size, by + i);
        assert((by + i) * size == by * size + i * size) by (nonlinear_arith);
        assert(x[i] =~= y[i]);
    }
    assert(x =~= y);
}

/// Behind the equal pixels that a line starts with, and that are packed as one,
/// the rest of the line is compressed as a line of its own.
pub proof fn law_lines_go_on_behind_equal_pixels(line: Seq<u8>, bytes_per_pixel: nat, run: int)
    requires
        bytes_per_pixel > 0,
        2 <= run <= 128,
        run <= line.len() / bytes_per_pixel,
        forall|k: int|
            0 <= k < run ==> #[trigger] pixel_at(line, bytes_per_pixel, k) == pixel_at(
                line,
                bytes_per_pixel,
                0,
            ),
        run == 128 || run == line.len() / bytes_per_pixel || pixel_at(line, bytes_per_pixel, run)
            != pixel_at(line, bytes_per_pixel, 0),
    ensures
        compressed_line(line, bytes_per_pixel) == seq![(run - 1) as u8] + pixel_at(
            line,
            bytes_per_pixel,
            0,
        ) + compressed_line(line.skip(run * bytes_per_pixel), bytes_per_pixel),
{
    let pixels = pieces(line, bytes_per_pixel);
    assert forall|k: int| 0 <= k < pixels.len() implies #[trigger] pixels[k] == pixel_at(
        line,
        bytes_per_pixel,
        k,
    ) by {
        lemma_pixel_at(line, bytes_per_pixel, k);
    }
    lemma_pixel_at(line, bytes_per_pixel, 0);
    lemma_run_is(pixels, 1, run);
    lemma_pieces_behind(line, bytes_per_pixel, run);
    lemma_compressed_behind(pixels, run, 0);
}

/// Behind the unequal pixels that a line starts with, and that are kept as they
/// are, the rest of the line is compressed as a line of its own.
pub proof fn law_lines_go_on_behind_unequal_pixels(
    line: Seq<u8>,
    bytes_per_pixel: nat,
    count: int,
)
    requires
        bytes_per_pixel > 0,
        1 <= count <= 128,
        count <= line.len() / bytes_per_pixel,
        forall|k: int|
            0 <= k < count && k + 1 < line.len() / bytes_per_pixel ==> #[trigger] pixel_at(
                line,
                bytes_per_pixel,
                k,
            ) != pixel_at(line, bytes_per_pixel, k + 1),
        count == 128 || count == line.len() / bytes_per_pixel || (count + 1 < line.len()
            / bytes_per_pixel && pixel_at(line, bytes_per_pixel, count) == pixel_at(
            line,
            bytes_per_pixel,
            count + 1,
        )),
    ensures
        compressed_line(line, bytes_per_pixel).skip(1 + count * bytes_per_pixel)
            == compressed_line(line.skip(count * bytes_per_pixel), bytes_per_pixel),
{
    law_unequal_pixels_are_kept(line, bytes_per_pixel, count);
    let pixels = pieces(line, bytes_per_pixel);
    assert forall|k: int| 0 <= k < pixels.len() implies #[trigger] pixels[k] == pixel_at(
        line,
        bytes_per_pixel,
        k,
    ) by {
        lemma_pixel_at(line, bytes_per_pixel, k);
    }
    if pixels.len() > 1 {
        assert(pixel_at(line, bytes_per_pixel, 0) != pixel_at(line, bytes_per_pixel, 0int + 1));
        assert(pixels[0] != pixels[1]);
    }
    assert(run_length(pixels, 0, 1) == 1);
    assert forall|k: int| 1 <= k < count implies !#[trigger] run_starts_at(pixels, k) by {
        if k + 1 < pixels.len() {
            assert(pixel_at(line, bytes_per_pixel, k) != pixel_at(line, bytes_per_pixel, k + 1));
            assert(pixels[k] != pixels[k + 1]);
        }
    }
    if count < 128 && count < pixels.len() {
        assert(pixels[count] == pixels[count + 1]);
        assert(run_starts_at(pixels, count));
    }
    lemma_literal_is(pixels, 1, count);
    lemma_joined_pieces(line, bytes_per_pixel, 0, count);
    assert(0 * bytes_per_pixel == 0) by (nonlinear_arith);
    lemma_pieces_behind(line, bytes_per_pixel, count);
    lemma_compressed_behind(pixels, count, 0);
    let kept = joined(pixels.subrange(0, count));
    let rest = compressed_pixels(pixels, count);
    let whole = compressed_line(line, bytes_per_pixel);
    assert(whole == seq![literal_control(count)] + kept + rest);
    assert(whole.skip(1 + count * bytes_per_pixel) =~= rest);
}

/// A page starts with how many of its lines, up to 255, equal the first one
/// behind it, and that line, compressed once for all of them; no pixels are no
/// bytes.
pub proof fn law_equal_lines_are_counted(
    pixels: Seq<u8>,
    width: nat,
    bytes_per_pixel: nat,
    repeat: int,
)
    requires
        width > 0,
        bytes_per_pixel > 0,
        0 <= repeat <= 255,
        repeat < pixels.len() / (width * bytes_per_pixel),
        forall|k: int|
            0 <= k <= repeat ==> #[trigger] pixel_at(pixels, width * bytes_per_pixel, k)
                == pixel_at(pixels, width * bytes_per_pixel, 0),
        repeat == 255 || repeat + 1 == pixels.len() / (width * bytes_per_pixel) || pixel_at(
            pixels,
            width * bytes_per_pixel,
            repeat + 1,
        ) != pixel_at(pixels, width * bytes_per_pixel, 0),
    ensures
        ({
            let start = seq![repeat as u8] + compressed_line(
                pixel_at(pixels, width * bytes_per_pixel, 0),
                bytes_per_pixel,
            );
            start.is_prefix_of(compressed_page(pixels, width, bytes_per_pixel))
        }),
{
    let size = width * bytes_per_pixel;
    assert(size > 0) by (nonlinear_arith)
        requires
            width > 0,
            bytes_per_pixel > 0,
            size == width * bytes_per_pixel,
    ;
    let lines = pieces(pixels, size);
    assert forall|k: int| 0 <= k < lines.len() implies #[trigger] lines[k] == pixel_at(
        pixels,
        size,
        k,
    ) by {
        lemma_pixel_at(pixels, size, k);
    }
    lemma_repeats_are(lines, 0, repeat);
    let start = seq![repeat as u8] + compressed_line(lines[0], bytes_per_pixel);
    let rest = compressed_lines(lines, repeat + 1, bytes_per_pixel);
    assert(compressed_page(pixels, width, bytes_per_pixel) == start + rest);
}

/// Equal lines are counted as far as they are equal.
proof fn lemma_repeats_are(lines: Seq<Seq<u8>>, from: int, repeat: int)
    requires
        0 <= from <= repeat <= 255,
        repeat < lines.len(),
        forall|k: int| 0 <= k <= repeat ==> #[trigger] lines[k] == lines[0],
        repeat == 255 || repeat + 1 == lines.len() || lines[repeat + 1] != lines[0],
    ensures
        line_repeats(lines, 0, from) == repeat,
    decreases repeat - from,
{
    if from < repeat {
        assert(lines[from + 1] == lines[0]);
        lemma_repeats_are(lines, from + 1, repeat);
    }
}

} // verus!
