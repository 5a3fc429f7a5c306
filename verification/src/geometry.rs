//! Terminal geometry: centering a fixed-size text grid and deriving the grid
//! size from the terminal's dimensions.

use vstd::prelude::*;
use vstd::utf8::{encode_scalar, encode_utf8};
use crate::frame::{Frame, FrameStore};
use crate::text::{
    chars_of, is_ascii_alphabetic, is_ascii_alphabetic_spec, string_of, trim, trim_bounds,
};

verus! {

/// The character that opens a terminal escape sequence.
pub const ESC: char = '\u{1b}';

/// Calibration divisor between measured text width and terminal columns: the
/// converter spends several characters on each visible cell.
pub const CELL_DENSITY: usize = 3;

/// Blank rows (or columns) before a grid of `extent` rows (or columns) that
/// centers it in a terminal of `available`; zero when the grid does not fit,
/// which leaves it anchored at the origin.
pub open spec fn centering_offset(available: int, extent: int) -> int {
    if available > extent {
        (available - extent) / 2
    } else {
        0
    }
}

/// The offset splits the spare space evenly: what is left after the grid is
/// at most one cell more than what is before it.
pub proof fn lemma_centering_is_balanced(available: int, extent: int)
    requires
        0 <= extent,
    ensures
        0 <= centering_offset(available, extent),
        available > extent ==> ({
            let before = centering_offset(available, extent);
            let after = available - extent - before;
            before <= after <= before + 1
        }),
        available <= extent ==> centering_offset(available, extent) == 0,
{
}

/// Rows of padding above a frame of `frame_rows` rows in a terminal of
/// `term_rows` rows.
pub fn vertical_padding(term_rows: u16, frame_rows: usize) -> (top: u16)
    ensures
        top as int == centering_offset(term_rows as int, frame_rows as int),
{
    if frame_rows < term_rows as usize {
        (term_rows - frame_rows as u16) / 2
    } else {
        0
    }
}

/// Rows of padding above the frames of `frames`, measured on the first one.
pub fn get_vertical_padding(frames: &FrameStore, term_height: u16) -> (top: u16)
    ensures
        frames@.len() > 0,
        top as int == centering_offset(term_height as int, frames@[0].len() as int),
{
    vertical_padding(term_height, frames.first().rows())
}

/// Whether an escape run is still open after reading `s`: a run starts at
/// `ESC` and lasts up to and including the next ASCII letter.
pub open spec fn in_escape(s: Seq<char>) -> bool
    decreases s.len(),
{
    if s.len() == 0 {
        false
    } else if s.last() == ESC {
        true
    } else {
        in_escape(s.drop_last()) && !is_ascii_alphabetic_spec(s.last())
    }
}

/// Whether an `ESC` at `j` starts a run that nothing in `s` ends: no ASCII
/// letter follows it.
pub open spec fn opens_run(s: Seq<char>, j: int) -> bool {
    &&& 0 <= j < s.len()
    &&& s[j] == ESC
    &&& forall|k: int| j < k < s.len() ==> !is_ascii_alphabetic_spec(#[trigger] s[k])
}

/// A run is open after `s` exactly when `s` holds an `ESC` with no ASCII
/// letter after it.
pub proof fn lemma_in_escape_is_open_run(s: Seq<char>)
    ensures
        in_escape(s) <==> exists|j: int| opens_run(s, j),
    decreases s.len(),
{
    if s.len() > 0 {
        let head = s.drop_last();
        let last = s.len() - 1;
        lemma_in_escape_is_open_run(head);
        if s.last() == ESC {
            assert(opens_run(s, last));
        } else if in_escape(head) && !is_ascii_alphabetic_spec(s.last()) {
            let j = choose|j: int| opens_run(head, j);
            assert forall|k: int| j < k < s.len() implies !is_ascii_alphabetic_spec(
                #[trigger] s[k],
            ) by {
                if k < last {
                    assert(head[k] == s[k]);
                }
            }
            assert(opens_run(s, j));
        } else {
            assert forall|j: int| !opens_run(s, j) by {
                if opens_run(s, j) {
                    assert(j < last);
                    assert(!is_ascii_alphabetic_spec(s[last]));
                    assert forall|k: int| j < k < head.len() implies !is_ascii_alphabetic_spec(
                        #[trigger] head[k],
                    ) by {
                        assert(head[k] == s[k]);
                    }
                    assert(opens_run(head, j));
                }
            }
        }
    } else {
        assert forall|j: int| !opens_run(s, j) by {}
    }
}

/// `s` without its escape runs: a character is dropped when it is `ESC` or
/// when a run is open in front of it.
pub open spec fn strip_escapes(s: Seq<char>) -> Seq<char>
    decreases s.len(),
{
    if s.len() == 0 {
        Seq::empty()
    } else if s.last() == ESC || in_escape(s.drop_last()) {
        strip_escapes(s.drop_last())
    } else {
        strip_escapes(s.drop_last()).push(s.last())
    }
}

/// Removes terminal escape sequences from `input`.
pub fn remove_ansi_escape_sequences(input: &str) -> (result: String)
    ensures
        result@ == strip_escapes(input@),
{
    let mut result = String::new();
    let mut in_escape_sequence = false;
    for c in it: input.chars()
        invariant
            it.seq() == input@,
            result@ == strip_escapes(input@.take(it.index() as int)),
            in_escape_sequence == in_escape(input@.take(it.index() as int)),
    {
        proof {
            let i = it.index() as int;
            assert(input@.take(i + 1).drop_last() =~= input@.take(i));
            assert(input@.take(i + 1).last() == c);
        }
        if c == ESC {
            in_escape_sequence = true;
        } else if in_escape_sequence {
            if is_ascii_alphabetic(c) {
                in_escape_sequence = false;
            }
        } else {
            result.push(c);
        }
    }
    proof {
        assert(input@.take(input@.len() as int) =~= input@);
    }
    result
}

/// What a line shows: its text without escape runs and without the
/// whitespace around it.
pub open spec fn visible_text_spec(line: Seq<char>) -> Seq<char> {
    trim(strip_escapes(line))
}

/// The visible part of `line`.
pub fn visible_text(line: &str) -> (text: String)
    ensures
        text@ == visible_text_spec(line@),
{
    let stripped = remove_ansi_escape_sequences(line);
    let chars = chars_of(stripped.as_str());
    let (a, b) = trim_bounds(&chars);
    string_of(&chars, a, b)
}

/// Text that holds no `ESC`.
pub open spec fn has_no_escape(text: Seq<char>) -> bool {
    forall|i: int| 0 <= i < text.len() ==> #[trigger] text[i] != ESC
}

/// A complete escape sequence: `ESC`, then anything but ASCII letters, then
/// one ASCII letter.
pub open spec fn is_escape_sequence(e: Seq<char>) -> bool {
    &&& e.len() >= 2
    &&& e.first() == ESC
    &&& is_ascii_alphabetic_spec(e.last())
    &&& forall|i: int| 0 < i < e.len() - 1 ==> !is_ascii_alphabetic_spec(#[trigger] e[i])
}

/// After `ESC` and any run of characters that are not ASCII letters, the
/// escape run is still open and nothing of it shows.
proof fn lemma_open_run(s: Seq<char>, e: Seq<char>)
    requires
        e.len() >= 1,
        e.first() == ESC,
        forall|i: int| 0 < i < e.len() ==> !is_ascii_alphabetic_spec(#[trigger] e[i]),
    ensures
        in_escape(s + e),
        strip_escapes(s + e) == strip_escapes(s),
    decreases e.len(),
{
    assert((s + e).drop_last() =~= s + e.drop_last());
    assert((s + e).last() == e.last());
    if e.len() == 1 {
        assert(s + e.drop_last() =~= s);
    } else {
        lemma_open_run(s, e.drop_last());
    }
}

/// A complete escape sequence after `s` shows nothing and leaves no run
/// open.
pub proof fn lemma_strip_escape_sequence(s: Seq<char>, e: Seq<char>)
    requires
        is_escape_sequence(e),
    ensures
        !in_escape(s + e),
        strip_escapes(s + e) == strip_escapes(s),
{
    assert((s + e).drop_last() =~= s + e.drop_last());
    assert((s + e).last() == e.last());
    lemma_open_run(s, e.drop_last());
}

/// Text without `ESC` that follows a closed run shows in full.
pub proof fn lemma_strip_plain_text(s: Seq<char>, text: Seq<char>)
    requires
        !in_escape(s),
        has_no_escape(text),
    ensures
        !in_escape(s + text),
        strip_escapes(s + text) == strip_escapes(s) + text,
    decreases text.len(),
{
    if text.len() == 0 {
        assert(s + text =~= s);
        assert(strip_escapes(s) + text =~= strip_escapes(s));
    } else {
        assert((s + text).drop_last() =~= s + text.drop_last());
        assert((s + text).last() == text.last());
        assert(text[text.len() - 1] != ESC);
        lemma_strip_plain_text(s, text.drop_last());
        assert(strip_escapes(s) + text =~= (strip_escapes(s) + text.drop_last()).push(
            text.last(),
        ));
    }
}

/// What text shows does not depend on the escape sequences that enclose it:
/// between two complete escape sequences, text without `ESC` shows as it is.
pub proof fn lemma_enclosing_escapes_do_not_show(
    before: Seq<char>,
    text: Seq<char>,
    after: Seq<char>,
)
    requires
        is_escape_sequence(before),
        is_escape_sequence(after),
        has_no_escape(text),
    ensures
        strip_escapes(before + text + after) == text,
        visible_text_spec(before + text + after) == trim(text),
{
    let none = Seq::<char>::empty();
    lemma_strip_escape_sequence(none, before);
    assert(none + before =~= before);
    lemma_strip_plain_text(before, text);
    lemma_strip_escape_sequence(before + text, after);
    assert(strip_escapes(none) + text =~= text);
}

/// Nothing that `strip_escapes` leaves is an `ESC`.
pub proof fn lemma_strip_leaves_no_escape(s: Seq<char>)
    ensures
        has_no_escape(strip_escapes(s)),
    decreases s.len(),
{
    if s.len() > 0 {
        lemma_strip_leaves_no_escape(s.drop_last());
    }
}

/// Stripping what is already stripped changes nothing.
pub proof fn lemma_strip_twice(s: Seq<char>)
    ensures
        strip_escapes(strip_escapes(s)) == strip_escapes(s),
{
    let none = Seq::<char>::empty();
    lemma_strip_leaves_no_escape(s);
    lemma_strip_plain_text(none, strip_escapes(s));
    assert(none + strip_escapes(s) =~= strip_escapes(s));
}

/// Bytes that `c` takes in UTF-8.
pub fn char_utf8_len(c: char) -> (n: u128)
    ensures
        n == encode_scalar(c as u32).len(),
        1 <= n <= 4,
{
    let u: u32 = c as u32;
    if u < 0x80 {
        1
    } else if u < 0x800 {
        2
    } else if u < 0x10000 {
        3
    } else {
        4
    }
}

/// Appending one character appends its encoding.
pub proof fn lemma_encode_utf8_push(s: Seq<char>, c: char)
    ensures
        encode_utf8(s.push(c)) == encode_utf8(s) + encode_scalar(c as u32),
    decreases s.len(),
{
    if s.len() == 0 {
        assert(s.push(c).drop_first() =~= Seq::<char>::empty());
        assert(encode_utf8(s) =~= Seq::<u8>::empty());
        assert(encode_utf8(s.push(c).drop_first()) =~= Seq::<u8>::empty());
        assert(encode_utf8(s.push(c)) =~= encode_utf8(s) + encode_scalar(c as u32));
    } else {
        assert(s.push(c).drop_first() =~= s.drop_first().push(c));
        lemma_encode_utf8_push(s.drop_first(), c);
        assert(encode_utf8(s.push(c)) =~= encode_utf8(s) + encode_scalar(c as u32));
    }
}

/// Width of a line as the terminal art measures it: the UTF-8 length of its
/// visible text.
pub open spec fn visible_width(line: Seq<char>) -> nat {
    encode_utf8(visible_text_spec(line)).len()
}

/// Measures `line`. The count is kept in 128 bits because four bytes per
/// character may exceed `usize`.
pub fn measure_line(line: &str) -> (width: u128)
    ensures
        width == visible_width(line@),
{
    let stripped = remove_ansi_escape_sequences(line);
    let chars = chars_of(stripped.as_str());
    let (a, b) = trim_bounds(&chars);
    let mut width: u128 = 0;
    let mut i: usize = a;
    while i < b
        invariant
            a <= i <= b <= chars.len(),
            width == encode_utf8(chars@.subrange(a as int, i as int)).len(),
            width <= 4 * (i - a),
        decreases b - i,
    {
        proof {
            let seen = chars@.subrange(a as int, i as int);
            lemma_encode_utf8_push(seen, chars@[i as int]);
            assert(seen.push(chars@[i as int]) =~= chars@.subrange(a as int, i + 1));
        }
        width = width + char_utf8_len(chars[i]);
        i += 1;
    }
    width
}

/// The largest visible width among the rows of `frame`; zero for a frame
/// without rows. Rows that show nothing have width zero and so never decide.
pub open spec fn widest_line(frame: Seq<Seq<char>>) -> nat
    decreases frame.len(),
{
    if frame.len() == 0 {
        0
    } else {
        let rest = widest_line(frame.drop_last());
        let last = visible_width(frame.last());
        if last > rest {
            last
        } else {
            rest
        }
    }
}

/// `widest_line` bounds every row and, unless it is zero, some row attains it.
pub proof fn lemma_widest_line_is_maximum(frame: Seq<Seq<char>>)
    ensures
        forall|r: int| 0 <= r < frame.len() ==> visible_width(#[trigger] frame[r]) <= widest_line(frame),
        widest_line(frame) > 0 ==> exists|r: int|
            0 <= r < frame.len() && visible_width(#[trigger] frame[r]) == widest_line(frame),
    decreases frame.len(),
{
    if frame.len() > 0 {
        let head = frame.drop_last();
        lemma_widest_line_is_maximum(head);
        assert forall|r: int| 0 <= r < frame.len() implies visible_width(#[trigger] frame[r])
            <= widest_line(frame) by {
            if r < head.len() {
                assert(head[r] == frame[r]);
            }
        }
        if widest_line(frame) > 0 {
            if visible_width(frame.last()) > widest_line(head) {
                assert(visible_width(frame[frame.len() - 1]) == widest_line(frame));
            } else {
                let r = choose|r: int|
                    0 <= r < head.len() && visible_width(#[trigger] head[r]) == widest_line(head);
                assert(head[r] == frame[r]);
            }
        }
    }
}

/// Columns of padding left of a frame whose widest row measures `widest`, in a
/// terminal of `term_cols` columns.
pub open spec fn horizontal_padding_spec(term_cols: int, widest: nat) -> int {
    centering_offset(term_cols, (widest / (CELL_DENSITY as nat)) as int)
}

/// Columns of padding left of `frame` in a terminal of `term_width` columns.
pub fn get_horizontal_padding(frame: &Frame, term_width: u16) -> (left: u16)
    ensures
        left as int == horizontal_padding_spec(term_width as int, widest_line(frame@)),
{
    let mut max_line_width: u128 = 0;
    let rows: usize = frame.rows();
    let mut r: usize = 0;
    while r < rows
        invariant
            r <= rows == frame@.len(),
            max_line_width == widest_line(frame@.take(r as int)),
        decreases rows - r,
    {
        let width: u128 = measure_line(frame.line(r));
        proof {
            assert(frame@.take(r + 1).drop_last() =~= frame@.take(r as int));
            assert(frame@.take(r + 1).last() == frame@[r as int]);
        }
        if width > max_line_width {
            max_line_width = width;
        }
        r += 1;
    }
    proof {
        assert(frame@.take(rows as int) =~= frame@);
    }
    let scaled: u128 = max_line_width / (CELL_DENSITY as u128);
    if scaled < term_width as u128 {
        (term_width - scaled as u16) / 2
    } else {
        0
    }
}

/// Columns handed to the converter for a terminal of `cols` by `rows`: four
/// times the smaller of twice the columns and eight tenths of the rows, or 80
/// where that would be zero.
pub open spec fn target_size_spec(cols: int, rows: int) -> int {
    let wide = cols * 2;
    let tall = rows * 8 / 10;
    let target = (if wide < tall {
        wide
    } else {
        tall
    }) * 4;
    if target == 0 {
        80
    } else {
        target
    }
}

/// The converter's column budget for a terminal of `term_width` by
/// `term_height`. Never zero.
pub fn calculate_target_size(term_width: u16, term_height: u16) -> (target: u32)
    ensures
        target as int == target_size_spec(term_width as int, term_height as int),
        target > 0,
{
    let wide: u32 = term_width as u32 * 2;
    let tall: u32 = term_height as u32 * 8 / 10;
    let target: u32 = if wide < tall {
        wide
    } else {
        tall
    };
    if target == 0 {
        80
    } else {
        target * 4
    }
}

} // verus!
