//! Line-granular diff rendering: only rows whose text changed since the last
//! frame shown are written again, each behind an absolute cursor move.

use vstd::prelude::*;
use crate::frame::Frame;
use crate::geometry::ESC;

verus! {

/// The decimal digit `d`, for `d < 10`.
pub open spec fn digit_char(d: nat) -> char {
    (48 + d) as char
}

/// `n` in decimal, without sign or leading zeros.
pub open spec fn decimal(n: nat) -> Seq<char>
    decreases n,
{
    if n < 10 {
        seq![digit_char(n)]
    } else {
        decimal(n / 10).push(digit_char(n % 10))
    }
}

/// Appends `n` in decimal to `out`.
pub fn push_decimal(out: &mut String, n: u128)
    ensures
        final(out)@ == old(out)@ + decimal(n as nat),
    decreases n,
{
    if n >= 10 {
        push_decimal(out, n / 10);
    }
    let d: u8 = (n % 10) as u8;
    out.push((48u8 + d) as char);
    proof {
        assert(final(out)@ =~= old(out)@ + decimal(n as nat));
    }
}

/// The control sequence that moves the cursor to `row`, `col`:
/// `ESC [ row ; col H`.
pub open spec fn cursor_to(row: nat, col: nat) -> Seq<char> {
    seq![ESC, '['] + decimal(row) + seq![';'] + decimal(col) + seq!['H']
}

/// Appends the cursor move to `row`, `col` to `out`.
pub fn push_cursor_to(out: &mut String, row: u128, col: u128)
    ensures
        final(out)@ == old(out)@ + cursor_to(row as nat, col as nat),
{
    out.push(ESC);
    out.push('[');
    push_decimal(out, row);
    out.push(';');
    push_decimal(out, col);
    out.push('H');
    proof {
        assert(final(out)@ =~= old(out)@ + cursor_to(row as nat, col as nat));
    }
}

/// Whether row `r` of `current` has to be written when `previous` is on
/// screen: always on the first draw and beyond the previous frame's rows,
/// otherwise exactly when the text differs.
pub open spec fn row_changed(
    previous: Option<Seq<Seq<char>>>,
    current: Seq<Seq<char>>,
    r: int,
) -> bool {
    match previous {
        None => true,
        Some(shown) => r >= shown.len() || shown[r] != current[r],
    }
}

/// The rows among the first `n` of `current` that have to be written, in
/// increasing order.
pub open spec fn changed_rows(
    previous: Option<Seq<Seq<char>>>,
    current: Seq<Seq<char>>,
    n: int,
) -> Seq<int>
    decreases n,
{
    if n <= 0 {
        Seq::empty()
    } else if row_changed(previous, current, n - 1) {
        changed_rows(previous, current, n - 1).push(n - 1)
    } else {
        changed_rows(previous, current, n - 1)
    }
}

/// What one row costs on the wire: the cursor move to its place, then its
/// full text.
pub open spec fn line_write(current: Seq<Seq<char>>, top: nat, left: nat, r: int) -> Seq<char> {
    cursor_to((top + r) as nat, left) + current[r]
}

/// The single buffer that writes the rows `rows` of `current`, in that order.
pub open spec fn writes_output(
    current: Seq<Seq<char>>,
    top: nat,
    left: nat,
    rows: Seq<int>,
) -> Seq<char>
    decreases rows.len(),
{
    if rows.len() == 0 {
        Seq::empty()
    } else {
        writes_output(current, top, left, rows.drop_last()) + line_write(
            current,
            top,
            left,
            rows.last(),
        )
    }
}

/// The buffer that brings a terminal showing `previous` to `current`.
pub open spec fn diff_output(
    previous: Option<Seq<Seq<char>>>,
    current: Seq<Seq<char>>,
    top: nat,
    left: nat,
) -> Seq<char> {
    writes_output(current, top, left, changed_rows(previous, current, current.len() as int))
}

/// The renderer's only state: the frame last drawn, if any.
#[derive(Clone, Copy)]
pub struct Renderer<'a> {
    last_frame: Option<&'a Frame>,
}

impl<'a> Renderer<'a> {
    /// The rows on screen, or `None` before the first draw.
    pub closed spec fn shown(&self) -> Option<Seq<Seq<char>>> {
        match self.last_frame {
            None => None,
            Some(frame) => Some(frame@),
        }
    }

    /// A renderer that has drawn nothing yet.
    pub fn new() -> (renderer: Renderer<'a>)
        ensures
            renderer.shown() is None,
    {
        Renderer { last_frame: None }
    }

    /// The frame last drawn.
    pub fn last_frame(&self) -> (frame: Option<&'a Frame>)
        ensures
            match frame {
                None => self.shown() is None,
                Some(f) => self.shown() == Some(f@),
            },
    {
        self.last_frame
    }

    /// Whether row `r` of `current` differs from what is on screen.
    fn row_differs(&self, current: &Frame, r: usize) -> (differs: bool)
        requires
            r < current@.len(),
        ensures
            differs == row_changed(self.shown(), current@, r as int),
    {
        match self.last_frame {
            None => true,
            Some(shown) => {
                if r >= shown.rows() {
                    true
                } else {
                    let same = shown.lines[r] == current.lines[r];
                    proof {
                        assert(shown@[r as int] == shown.lines@[r as int]@);
                        assert(current@[r as int] == current.lines@[r as int]@);
                    }
                    !same
                }
            },
        }
    }

    /// The rows of `current` that a draw would write, in increasing order.
    pub fn pending_rows(&self, current: &Frame) -> (rows: Vec<usize>)
        ensures
            rows@.map_values(|r: usize| r as int) == changed_rows(
                self.shown(),
                current@,
                current@.len() as int,
            ),
    {
        let mut rows: Vec<usize> = Vec::new();
        let n: usize = current.rows();
        let mut r: usize = 0;
        while r < n
            invariant
                r <= n == current@.len(),
                rows@.map_values(|r: usize| r as int) == changed_rows(
                    self.shown(),
                    current@,
                    r as int,
                ),
            decreases n - r,
        {
            if self.row_differs(current, r) {
                proof {
                    assert(rows@.push(r).map_values(|r: usize| r as int) =~= rows@.map_values(
                        |r: usize| r as int,
                    ).push(r as int));
                }
                rows.push(r);
            }
            r += 1;
        }
        rows
    }

    /// The buffer a draw of `current` at offset `top`, `left` would write,
    /// without recording the draw.
    pub fn pending_output(&self, current: &Frame, top: u16, left: u16) -> (out: String)
        ensures
            out@ == diff_output(self.shown(), current@, top as nat, left as nat),
    {
        let mut out = String::new();
        let n: usize = current.rows();
        let mut r: usize = 0;
        while r < n
            invariant
                r <= n == current@.len(),
                out@ == writes_output(
                    current@,
                    top as nat,
                    left as nat,
                    changed_rows(self.shown(), current@, r as int),
                ),
            decreases n - r,
        {
            if self.row_differs(current, r) {
                let ghost before = changed_rows(self.shown(), current@, r as int);
                proof {
                    assert(before.push(r as int).drop_last() =~= before);
                }
                push_cursor_to(&mut out, top as u128 + r as u128, left as u128);
                out.append(current.line(r));
            }
            r += 1;
        }
        out
    }

    /// Records that `current` is now on screen.
    pub fn mark_drawn(&mut self, current: &'a Frame)
        ensures
            final(self).shown() == Some(current@),
    {
        self.last_frame = Some(current);
    }

    /// Draws `current` at offset `top`, `left`: returns the one buffer to
    /// write and records `current` as shown.
    pub fn draw(&mut self, current: &'a Frame, top: u16, left: u16) -> (out: String)
        ensures
            out@ == diff_output(old(self).shown(), current@, top as nat, left as nat),
            final(self).shown() == Some(current@),
    {
        let out = self.pending_output(current, top, left);
        self.mark_drawn(current);
        out
    }
}

/// The rows to write are exactly the changed ones among the first `n`, each
/// once and in increasing order.
pub proof fn lemma_changed_rows_exact(
    previous: Option<Seq<Seq<char>>>,
    current: Seq<Seq<char>>,
    n: int,
)
    ensures
        forall|r: int| #[trigger]
            changed_rows(previous, current, n).contains(r) <==> (0 <= r < n && row_changed(
                previous,
                current,
                r,
            )),
        forall|i: int, j: int|
            0 <= i < j < changed_rows(previous, current, n).len() ==> (#[trigger] changed_rows(
                previous,
                current,
                n,
            )[i]) < (#[trigger] changed_rows(previous, current, n)[j]),
    decreases n,
{
    let rows = changed_rows(previous, current, n);
    if n > 0 {
        let head = changed_rows(previous, current, n - 1);
        lemma_changed_rows_exact(previous, current, n - 1);
        if row_changed(previous, current, n - 1) {
            assert(rows == head.push(n - 1));
            assert forall|r: int| #[trigger] rows.contains(r) <==> (0 <= r < n && row_changed(
                previous,
                current,
                r,
            )) by {
                if rows.contains(r) {
                    let i = choose|i: int| 0 <= i < rows.len() && rows[i] == r;
                    if i < head.len() {
                        assert(head[i] == r);
                        assert(head.contains(r));
                    }
                }
                if 0 <= r < n && row_changed(previous, current, r) {
                    if r == n - 1 {
                        assert(rows[rows.len() - 1] == r);
                    } else {
                        assert(head.contains(r));
                        let i = choose|i: int| 0 <= i < head.len() && head[i] == r;
                        assert(rows[i] == r);
                    }
                }
            }
            assert forall|i: int, j: int| 0 <= i < j < rows.len() implies (#[trigger] rows[i])
                < (#[trigger] rows[j]) by {
                assert(head[i] == rows[i]);
                assert(head.contains(head[i]));
                if j < head.len() {
                    assert(head[j] == rows[j]);
                }
            }
        } else {
            assert(rows == head);
            assert forall|r: int| #[trigger] rows.contains(r) <==> (0 <= r < n && row_changed(
                previous,
                current,
                r,
            )) by {
                assert(head.contains(r) <==> (0 <= r < n - 1 && row_changed(previous, current, r)));
            }
        }
    } else {
        assert(rows =~= Seq::<int>::empty());
    }
}

/// Redrawing the frame that is already on screen changes no row and writes
/// nothing.
pub proof fn lemma_redraw_writes_nothing(frame: Seq<Seq<char>>, top: nat, left: nat)
    ensures
        changed_rows(Some(frame), frame, frame.len() as int) == Seq::<int>::empty(),
        diff_output(Some(frame), frame, top, left) == Seq::<char>::empty(),
{
    let rows = changed_rows(Some(frame), frame, frame.len() as int);
    lemma_changed_rows_exact(Some(frame), frame, frame.len() as int);
    if rows.len() > 0 {
        assert(rows.contains(rows[0]));
        assert(row_changed(Some(frame), frame, rows[0]));
    }
    assert(rows =~= Seq::<int>::empty());
}

/// The first draw writes every row of the frame, whatever the rows hold.
pub proof fn lemma_first_draw_writes_every_row(frame: Seq<Seq<char>>)
    ensures
        changed_rows(None, frame, frame.len() as int) == Seq::new(frame.len(), |r: int| r),
        changed_rows(None, frame, frame.len() as int).len() == frame.len(),
{
    lemma_first_rows(frame, frame.len() as int);
}

proof fn lemma_first_rows(frame: Seq<Seq<char>>, n: int)
    requires
        0 <= n,
    ensures
        changed_rows(None, frame, n) == Seq::new(n as nat, |r: int| r),
    decreases n,
{
    if n > 0 {
        lemma_first_rows(frame, n - 1);
        assert(Seq::new((n - 1) as nat, |r: int| r).push(n - 1) =~= Seq::new(n as nat, |r: int| r));
    } else {
        assert(changed_rows(None, frame, n) =~= Seq::new(n as nat, |r: int| r));
    }
}

/// Where two frames of equal height differ in row `k` alone, that row is the
/// only one written.
pub proof fn lemma_single_change_writes_one_row(
    previous: Seq<Seq<char>>,
    current: Seq<Seq<char>>,
    top: nat,
    left: nat,
    k: int,
)
    requires
        previous.len() == current.len(),
        0 <= k < current.len(),
        previous[k] != current[k],
        forall|r: int| 0 <= r < current.len() && r != k ==> previous[r] == current[r],
    ensures
        changed_rows(Some(previous), current, current.len() as int) == seq![k],
        diff_output(Some(previous), current, top, left) == line_write(current, top, left, k),
{
    let rows = changed_rows(Some(previous), current, current.len() as int);
    lemma_changed_rows_exact(Some(previous), current, current.len() as int);
    assert(rows.contains(k));
    assert forall|i: int| 0 <= i < rows.len() implies rows[i] == k by {
        assert(rows.contains(rows[i]));
    }
    if rows.len() > 1 {
        assert(rows[0] < rows[1]);
    }
    assert(rows =~= seq![k]);
    assert(rows.drop_last() =~= Seq::<int>::empty());
    assert(writes_output(current, top, left, rows.drop_last()) =~= Seq::<char>::empty());
    assert(writes_output(current, top, left, rows) =~= line_write(current, top, left, k));
}

} // verus!
