//! The frame source's side of playback: the geometry that a video probe
//! reports as text, and the raw pixel stream cut into raster images.

use vstd::prelude::*;
use vstd::slice::{slice_subrange, slice_to_vec};
use crate::error::PlaybackError;
use crate::render::{decimal, digit_char};
use crate::text::{chars_of, find_from, split, trim, trim_bounds};

verus! {

/// One decoded video frame: `width` by `height` pixels of three bytes each,
/// row by row.
pub struct RasterImage {
    pub width: u32,
    pub height: u32,
    pub pixels: Vec<u8>,
}

/// Bytes that one frame of `width` by `height` pixels takes in the stream:
/// three per pixel, for red, green and blue.
pub open spec fn frame_bytes(width: nat, height: nat) -> nat {
    3 * width * height
}

/// Geometry that a stream can be cut by: neither side is zero and a frame's
/// size fits the address space.
pub open spec fn geometry_ok(width: nat, height: nat) -> bool {
    width > 0 && height > 0 && frame_bytes(width, height) <= usize::MAX
}

impl RasterImage {
    /// The pixel buffer holds exactly one frame of the stated geometry.
    pub open spec fn wf(&self) -> bool {
        &&& geometry_ok(self.width as nat, self.height as nat)
        &&& self.pixels@.len() == frame_bytes(self.width as nat, self.height as nat)
    }
}

/// Size in bytes of one frame, or `None` where the geometry cannot be used.
pub fn frame_size(width: u32, height: u32) -> (size: Option<usize>)
    ensures
        match size {
            Some(n) => geometry_ok(width as nat, height as nat) && n == frame_bytes(
                width as nat,
                height as nat,
            ) && n > 0,
            None => !geometry_ok(width as nat, height as nat),
        },
{
    if width == 0 || height == 0 {
        return None;
    }
    assert(0 < 3 * width * height <= 3 * 0xffff_ffff * 0xffff_ffff) by (nonlinear_arith)
        requires
            0 < width <= 0xffff_ffff,
            0 < height <= 0xffff_ffff,
    ;
    let bytes: u128 = 3 * (width as u128) * (height as u128);
    if bytes > usize::MAX as u128 {
        None
    } else {
        Some(bytes as usize)
    }
}

/// Cuts `stream` into frames of `width` by `height` pixels. Bytes after the
/// last whole frame are dropped.
pub fn extract_frames(stream: &[u8], width: u32, height: u32) -> (result: Result<
    Vec<RasterImage>,
    PlaybackError,
>)
    ensures
        !geometry_ok(width as nat, height as nat) ==> result == Err::<
            Vec<RasterImage>,
            PlaybackError,
        >(PlaybackError::Decode),
        geometry_ok(width as nat, height as nat) ==> result is Ok && ({
            let frames = result->Ok_0@;
            let size = frame_bytes(width as nat, height as nat) as int;
            &&& frames.len() == (stream@.len() as int) / size
            &&& forall|i: int|
                0 <= i < frames.len() ==> {
                    &&& (#[trigger] frames[i]).wf()
                    &&& frames[i].width == width
                    &&& frames[i].height == height
                    &&& frames[i].pixels@ == stream@.subrange(i * size, (i + 1) * size)
                }
        }),
{
    let size: usize = match frame_size(width, height) {
        Some(size) => size,
        None => {
            return Err(PlaybackError::Decode);
        },
    };
    let total: usize = stream.len();
    let mut frames: Vec<RasterImage> = Vec::new();
    let mut offset: usize = 0;
    assert(0 * size == 0) by (nonlinear_arith);
    while total - offset >= size
        invariant
            size > 0,
            size == frame_bytes(width as nat, height as nat),
            geometry_ok(width as nat, height as nat),
            total == stream@.len(),
            offset <= total,
            offset == frames@.len() * size,
            forall|i: int|
                0 <= i < frames@.len() ==> {
                    &&& (#[trigger] frames@[i]).wf()
                    &&& frames@[i].width == width
                    &&& frames@[i].height == height
                    &&& frames@[i].pixels@ == stream@.subrange(i * size, (i + 1) * size)
                },
        decreases total - offset,
    {
        let ghost count = frames@.len() as int;
        proof {
            assert((count + 1) * size == count * size + size) by (nonlinear_arith);
        }
        let pixels = slice_to_vec(slice_subrange(stream, offset, offset + size));
        frames.push(RasterImage { width, height, pixels });
        offset += size;
    }
    proof {
        let count = frames@.len() as int;
        assert((total as int) / (size as int) == count) by (nonlinear_arith)
            requires
                size > 0,
                count >= 0,
                count * size <= total < count * size + size,
        ;
    }
    Ok(frames)
}

/// ASCII decimal digits.
pub open spec fn is_digit(c: char) -> bool {
    '0' <= c <= '9'
}

/// The number that the decimal digits `s` write; zero for no digits.
pub open spec fn digits_value(s: Seq<char>) -> nat
    decreases s.len(),
{
    if s.len() == 0 {
        0
    } else {
        digits_value(s.drop_last()) * 10 + (s.last() as nat - '0' as nat) as nat
    }
}

/// Whether `s` holds decimal digits only.
pub open spec fn all_digits(s: Seq<char>) -> bool {
    forall|i: int| 0 <= i < s.len() ==> is_digit(#[trigger] s[i])
}

/// The number that `digits` writes, where it is one or more decimal digits
/// whose value fits 32 bits.
pub open spec fn digits_number(digits: Seq<char>) -> Option<u32> {
    if digits.len() > 0 && all_digits(digits) && digits_value(digits) <= u32::MAX {
        Some(digits_value(digits) as u32)
    } else {
        None
    }
}

/// The number that `s` denotes: an optional `+`, then one or more decimal
/// digits whose value fits 32 bits. Anything else denotes none.
pub open spec fn parse_u32_spec(s: Seq<char>) -> Option<u32> {
    if s.len() > 0 && s.first() == '+' {
        digits_number(s.drop_first())
    } else {
        digits_number(s)
    }
}

/// A digit string is worth at least as much as any of its prefixes.
pub proof fn lemma_digits_value_prefix(s: Seq<char>, k: int)
    requires
        0 <= k <= s.len(),
    ensures
        digits_value(s.take(k)) <= digits_value(s),
    decreases s.len() - k,
{
    if k == s.len() {
        assert(s.take(k) =~= s);
    } else {
        lemma_digits_value_prefix(s.drop_last(), k);
        assert(s.drop_last().take(k) =~= s.take(k));
    }
}

/// A number written in decimal reads back as itself.
pub proof fn lemma_parse_reads_decimal(n: nat)
    requires
        n <= u32::MAX,
    ensures
        parse_u32_spec(decimal(n)) == Some(n as u32),
{
    lemma_decimal_digits(n);
}

proof fn lemma_decimal_digits(n: nat)
    ensures
        decimal(n).len() > 0,
        all_digits(decimal(n)),
        digits_value(decimal(n)) == n,
    decreases n,
{
    let last = digit_char(n % 10);
    assert(decimal(n).last() == last);
    assert(is_digit(last) && (last as nat - '0' as nat) as nat == n % 10);
    if n < 10 {
        assert(decimal(n).drop_last() =~= Seq::<char>::empty());
        assert(digits_value(decimal(n).drop_last()) == 0);
    } else {
        lemma_decimal_digits(n / 10);
        assert(decimal(n).drop_last() =~= decimal(n / 10));
        assert(digits_value(decimal(n)) == digits_value(decimal(n / 10)) * 10 + n % 10);
        assert forall|i: int| 0 <= i < decimal(n).len() implies is_digit(
            #[trigger] decimal(n)[i],
        ) by {
            if i < decimal(n / 10).len() {
                assert(decimal(n)[i] == decimal(n / 10)[i]);
            }
        }
    }
}

/// Reads `chars[from..to]` as an unsigned 32-bit number.
pub fn parse_u32(chars: &Vec<char>, from: usize, to: usize) -> (value: Option<u32>)
    requires
        from <= to <= chars.len(),
    ensures
        value == parse_u32_spec(chars@.subrange(from as int, to as int)),
{
    let ghost field = chars@.subrange(from as int, to as int);
    let start: usize = if from < to && chars[from] == '+' {
        from + 1
    } else {
        from
    };
    let ghost digits = chars@.subrange(start as int, to as int);
    proof {
        if start == from {
            assert(field.len() > 0 ==> field.first() == chars@[from as int]);
        } else {
            assert(field.first() == chars@[from as int]);
            assert(field.drop_first() =~= digits);
        }
        assert(parse_u32_spec(field) == digits_number(digits));
    }
    if start == to {
        return None;
    }
    let mut value: u64 = 0;
    let mut i: usize = start;
    while i < to
        invariant
            from <= start <= i <= to <= chars.len(),
            start < to,
            digits == chars@.subrange(start as int, to as int),
            parse_u32_spec(chars@.subrange(from as int, to as int)) == digits_number(digits),
            all_digits(digits.take(i - start)),
            value == digits_value(digits.take(i - start)),
            value <= u32::MAX,
        decreases to - i,
    {
        let c: char = chars[i];
        let ghost seen = digits.take(i - start);
        proof {
            assert(digits[i - start] == c);
            assert(digits.take(i - start + 1).drop_last() =~= seen);
            assert(digits.take(i - start + 1).last() == c);
        }
        if !('0' <= c && c <= '9') {
            return None;
        }
        let next: u64 = value * 10 + (c as u64 - '0' as u64);
        if next > u32::MAX as u64 {
            proof {
                lemma_digits_value_prefix(digits, i - start + 1);
            }
            return None;
        }
        proof {
            assert forall|j: int| 0 <= j < i - start + 1 implies is_digit(
                #[trigger] digits.take(i - start + 1)[j],
            ) by {
                if j < i - start {
                    assert(seen[j] == digits.take(i - start + 1)[j]);
                }
            }
        }
        value = next;
        i += 1;
    }
    proof {
        assert(digits.take(to - start) =~= digits);
    }
    Some(value as u32)
}

/// The width and height that a probe's report `output` states: after
/// trimming, comma-separated numbers of which the first two are the width and
/// the height. Every field has to be a number.
pub open spec fn dimensions_spec(output: Seq<char>) -> Option<(u32, u32)> {
    let fields = split(trim(output), ',');
    if fields.len() >= 2 && (forall|i: int|
        0 <= i < fields.len() ==> parse_u32_spec(#[trigger] fields[i]) is Some) {
        Some((parse_u32_spec(fields[0])->0, parse_u32_spec(fields[1])->0))
    } else {
        None
    }
}

/// Reads the video's width and height from a probe's report.
pub fn parse_video_dimensions(output: &str) -> (result: Result<(u32, u32), PlaybackError>)
    ensures
        match dimensions_spec(output@) {
            Some(dimensions) => result == Ok::<(u32, u32), PlaybackError>(dimensions),
            None => result == Err::<(u32, u32), PlaybackError>(PlaybackError::Decode),
        },
{
    let all = chars_of(output);
    let (a, b) = trim_bounds(&all);
    let chars: Vec<char> = slice_to_vec(slice_subrange(all.as_slice(), a, b));
    let n: usize = chars.len();
    let ghost text = chars@;
    let ghost mut done: Seq<Seq<char>> = Seq::empty();
    let mut width: u32 = 0;
    let mut height: u32 = 0;
    let mut seen: u8 = 0;
    let mut start: usize = 0;
    let mut open: bool = true;
    proof {
        assert(text.skip(0) =~= text);
        assert(done + split(text, ',') =~= split(text, ','));
    }
    while open
        invariant
            n == chars.len(),
            text == chars@,
            text == trim(output@),
            start <= n,
            open ==> done + split(text.skip(start as int), ',') == split(text, ','),
            !open ==> done == split(text, ','),
            forall|i: int| 0 <= i < done.len() ==> parse_u32_spec(#[trigger] done[i]) is Some,
            seen == if done.len() < 2 {
                done.len()
            } else {
                2
            },
            seen >= 1 ==> parse_u32_spec(done[0]) == Some(width),
            seen >= 2 ==> parse_u32_spec(done[1]) == Some(height),
        decreases
                n - start + if open {
                    1int
                } else {
                    0int
                },
    {
        let end: usize = find_from(&chars, start, ',');
        let ghost rest = text.skip(start as int);
        let ghost field = text.subrange(start as int, end as int);
        proof {
            if end == n {
                assert(field =~= rest);
                assert(split(rest, ',') =~= seq![field]);
            } else {
                assert(rest.take(end - start) =~= field);
                assert(rest.skip(end - start + 1) =~= text.skip(end + 1));
                assert(split(rest, ',') =~= seq![field] + split(text.skip(end + 1), ','));
            }
        }
        let value: u32 = match parse_u32(&chars, start, end) {
            Some(value) => value,
            None => {
                proof {
                    let fields = split(text, ',');
                    assert(fields[done.len() as int] == field);
                }
                return Err(PlaybackError::Decode);
            },
        };
        if seen == 0 {
            width = value;
            seen = 1;
        } else if seen == 1 {
            height = value;
            seen = 2;
        }
        proof {
            let before = done;
            done = done.push(field);
            if end == n {
                assert(done =~= before + split(rest, ','));
            } else {
                assert(done + split(text.skip(end + 1), ',') =~= before + split(rest, ','));
            }
        }
        if end == n {
            open = false;
        } else {
            start = end + 1;
        }
    }
    if seen == 2 {
        Ok((width, height))
    } else {
        Err(PlaybackError::Decode)
    }
}

} // verus!
