//! Scroll-position state for the viewport, and the computation of the
//! visible window: which slice of the content is shown, how each row is cut
//! to the terminal's columns, and the line-number gutter.
use vstd::prelude::*;

verus! {

/// Width of the line-number gutter: a right-aligned four-column index
/// followed by the separator `" | "`.
pub const NUMBERING_OFFSET: u16 = 7;

/// Scroll position of the viewport, together with the line-numbering flag.
pub struct Pagination {
    /// Index of the first content line currently visible.
    pub current_start_line: usize,
    /// Index of the first visible character column within each line.
    pub current_start_column: usize,
    /// Whether each rendered row is prefixed with its 1-based line number.
    pub line_numbers: bool,
}

/// The largest permitted start line: content shorter than one page pins the
/// viewport to the top.
pub open spec fn max_start_line(total: nat, h: nat) -> nat {
    if total > h {
        (total - h) as nat
    } else {
        0
    }
}

/// The largest permitted start column.  When numbering is on, the gutter
/// consumes columns of the viewport, so scrolling may go further right by
/// exactly the gutter's width.  Saturates at the machine limit.
pub open spec fn max_start_column(line_len: nat, w: nat, numbering: bool) -> nat {
    let base: nat = if line_len > w {
        (line_len - w) as nat
    } else {
        0
    };
    let m: nat = base + if numbering {
        NUMBERING_OFFSET as nat
    } else {
        0
    };
    if m > usize::MAX {
        usize::MAX as nat
    } else {
        m
    }
}

/// One vertical step up.
pub open spec fn spec_line_up(s: nat) -> nat {
    if s > 0 {
        (s - 1) as nat
    } else {
        0
    }
}

/// One vertical step down, clamped so the final line is never scrolled past.
pub open spec fn spec_line_down(s: nat, total: nat, h: nat) -> nat {
    if s < max_start_line(total, h) {
        s + 1
    } else {
        max_start_line(total, h)
    }
}

/// One horizontal step right, clamped to the widest useful column.
pub open spec fn spec_move_right(c: nat, line_len: nat, w: nat, numbering: bool) -> nat {
    if c < max_start_column(line_len, w, numbering) {
        c + 1
    } else {
        max_start_column(line_len, w, numbering)
    }
}

/// `k` sequential single-line steps down.
pub open spec fn iter_line_down(s: nat, k: nat, total: nat, h: nat) -> nat
    decreases k,
{
    if k == 0 {
        s
    } else {
        spec_line_down(iter_line_down(s, (k - 1) as nat, total, h), total, h)
    }
}

/// `k` sequential single-line steps up.
pub open spec fn iter_line_up(s: nat, k: nat) -> nat
    decreases k,
{
    if k == 0 {
        s
    } else {
        spec_line_up(iter_line_up(s, (k - 1) as nat))
    }
}

impl Pagination {
    /// A viewport at the top-left corner with numbering off.
    pub fn new() -> (p: Pagination)
        ensures
            p.current_start_line == 0,
            p.current_start_column == 0,
            !p.line_numbers,
    {
        Pagination { current_start_line: 0, current_start_column: 0, line_numbers: false }
    }

    /// Scrolls one line up; a no-op at the top.
    pub fn line_up(&mut self)
        ensures
            final (self).current_start_line == spec_line_up(old(self).current_start_line as nat),
            final (self).current_start_column == old(self).current_start_column,
            final (self).line_numbers == old(self).line_numbers,
    {
        self.current_start_line = if self.current_start_line > 0 {
            self.current_start_line - 1
        } else {
            0
        };
    }

    /// Scrolls one line down; a no-op once the final line is at the last
    /// row of the viewport (or at the top, for content shorter than a page).
    pub fn line_down(&mut self, lines_len: usize, terminal_size: (u16, u16))
        ensures
            final (self).current_start_line == spec_line_down(
                old(self).current_start_line as nat,
                lines_len as nat,
                terminal_size.1 as nat,
            ),
            final (self).current_start_column == old(self).current_start_column,
            final (self).line_numbers == old(self).line_numbers,
    {
        let max_start = lines_len.saturating_sub(terminal_size.1 as usize);
        self.current_start_line = if self.current_start_line < max_start {
            self.current_start_line + 1
        } else {
            max_start
        };
    }

    /// Scrolls one column right, clamped against the widest line.
    pub fn move_right(&mut self, line_len: usize, terminal_size: (u16, u16))
        ensures
            final (self).current_start_column == spec_move_right(
                old(self).current_start_column as nat,
                line_len as nat,
                terminal_size.0 as nat,
                old(self).line_numbers,
            ),
            final (self).current_start_line == old(self).current_start_line,
            final (self).line_numbers == old(self).line_numbers,
    {
        let base = line_len.saturating_sub(terminal_size.0 as usize);
        let max_col = if self.line_numbers {
            base.saturating_add(NUMBERING_OFFSET as usize)
        } else {
            base
        };
        self.current_start_column = if self.current_start_column < max_col {
            self.current_start_column + 1
        } else {
            max_col
        };
    }

    /// Scrolls one column left; a no-op at the left edge.
    pub fn move_left(&mut self)
        ensures
            final (self).current_start_column == spec_line_up(
                old(self).current_start_column as nat,
            ),
            final (self).current_start_line == old(self).current_start_line,
            final (self).line_numbers == old(self).line_numbers,
    {
        self.current_start_column = if self.current_start_column > 0 {
            self.current_start_column - 1
        } else {
            0
        };
    }

    /// Flips the line-number gutter on or off; scroll position is kept.
    pub fn toggle_line_numbers(&mut self)
        ensures
            final (self).line_numbers == !old(self).line_numbers,
            final (self).current_start_line == old(self).current_start_line,
            final (self).current_start_column == old(self).current_start_column,
    {
        self.line_numbers = !self.line_numbers;
    }

    /// Scrolls `step` lines up, exactly as `step` single-line calls would.
    pub fn page_up(&mut self, step: usize)
        ensures
            final (self).current_start_line == iter_line_up(
                old(self).current_start_line as nat,
                step as nat,
            ),
            final (self).current_start_column == old(self).current_start_column,
            final (self).line_numbers == old(self).line_numbers,
    {
        let ghost s0 = self.current_start_line as nat;
        let mut k: usize = 0;
        while k < step
            invariant
                k <= step,
                self.current_start_line == iter_line_up(s0, k as nat),
                self.current_start_column == old(self).current_start_column,
                self.line_numbers == old(self).line_numbers,
            decreases step - k,
        {
            self.line_up();
            k = k + 1;
        }
    }

    /// Scrolls `step` lines down, exactly as `step` single-line calls would.
    pub fn page_down(&mut self, step: usize, lines_len: usize, terminal_size: (u16, u16))
        ensures
            final (self).current_start_line == iter_line_down(
                old(self).current_start_line as nat,
                step as nat,
                lines_len as nat,
                terminal_size.1 as nat,
            ),
            final (self).current_start_column == old(self).current_start_column,
            final (self).line_numbers == old(self).line_numbers,
    {
        let ghost s0 = self.current_start_line as nat;
        let mut k: usize = 0;
        while k < step
            invariant
                k <= step,
                self.current_start_line == iter_line_down(
                    s0,
                    k as nat,
                    lines_len as nat,
                    terminal_size.1 as nat,
                ),
                self.current_start_column == old(self).current_start_column,
                self.line_numbers == old(self).line_numbers,
            decreases step - k,
        {
            self.line_down(lines_len, terminal_size);
            k = k + 1;
        }
    }
}

/// The character for one decimal digit.
pub open spec fn digit_char(d: nat) -> char {
    if d == 0 {
        '0'
    } else if d == 1 {
        '1'
    } else if d == 2 {
        '2'
    } else if d == 3 {
        '3'
    } else if d == 4 {
        '4'
    } else if d == 5 {
        '5'
    } else if d == 6 {
        '6'
    } else if d == 7 {
        '7'
    } else if d == 8 {
        '8'
    } else {
        '9'
    }
}

/// The decimal numeral of `n`, most significant digit first.
pub open spec fn dec_digits(n: nat) -> Seq<char>
    decreases n,
{
    if n < 10 {
        seq![digit_char(n)]
    } else {
        dec_digits(n / 10).push(digit_char(n % 10))
    }
}

/// `k` spaces.
pub open spec fn spaces(k: nat) -> Seq<char> {
    Seq::new(k, |i: int| ' ')
}

/// The line-number gutter for 1-based index `n`: the numeral, right-aligned
/// in four columns, followed by `" | "`.
pub open spec fn number_prefix(n: nat) -> Seq<char> {
    let d = dec_digits(n);
    (if d.len() >= 4 {
        d
    } else {
        spaces((4 - d.len()) as nat) + d
    }) + seq![' ', '|', ' ']
}

/// The columns left for content once the gutter has taken its share.
pub open spec fn content_width(w: nat, numbering: bool) -> nat {
    if !numbering {
        w
    } else if w > NUMBERING_OFFSET as nat {
        (w - NUMBERING_OFFSET as nat) as nat
    } else {
        0
    }
}

/// The visible part of one line: the columns `[c, c + w)`, cut off at the
/// line's end, and empty when the line ends left of column `c`.
pub open spec fn col_slice(line: Seq<char>, c: nat, w: nat) -> Seq<char> {
    if c >= line.len() {
        Seq::empty()
    } else if c + w >= line.len() {
        line.subrange(c as int, line.len() as int)
    } else {
        line.subrange(c as int, (c + w) as int)
    }
}

/// One rendered row: the column slice of the line at index `idx`, prefixed
/// with the gutter for its 1-based number when numbering is on.
pub open spec fn render_row(line: Seq<char>, idx: nat, c: nat, w: nat, numbering: bool) -> Seq<
    char,
> {
    if numbering {
        number_prefix(idx + 1) + col_slice(line, c, content_width(w, true))
    } else {
        col_slice(line, c, w)
    }
}

/// The rows of the visible window: the lines from the (re-clamped) start
/// line down to the end of the page or of the content, each rendered.
pub open spec fn visible_rows(p: Pagination, lines: Seq<Seq<char>>, w: nat, h: nat) -> Seq<
    Seq<char>,
> {
    let s: nat = if p.current_start_line as nat > lines.len() {
        lines.len()
    } else {
        p.current_start_line as nat
    };
    let e: nat = if s + h > lines.len() {
        lines.len()
    } else {
        s + h
    };
    Seq::new((e - s) as nat, |i: int|
        render_row(
            lines[s + i],
            (s + i) as nat,
            p.current_start_column as nat,
            w,
            p.line_numbers,
        ))
}

/// The numeric value of one digit character.
pub open spec fn digit_value(c: char) -> nat {
    if c == '0' {
        0
    } else if c == '1' {
        1
    } else if c == '2' {
        2
    } else if c == '3' {
        3
    } else if c == '4' {
        4
    } else if c == '5' {
        5
    } else if c == '6' {
        6
    } else if c == '7' {
        7
    } else if c == '8' {
        8
    } else {
        9
    }
}

/// The numeric value of a decimal numeral, most significant digit first.
pub open spec fn numeral_value(d: Seq<char>) -> nat
    decreases d.len(),
{
    if d.len() == 0 {
        0
    } else {
        numeral_value(d.drop_last()) * 10 + digit_value(d.last())
    }
}

/// The gutter's numeral really denotes its number: reading it back gives
/// the 1-based line index the renderer put in.
pub proof fn lemma_dec_digits_value(n: nat)
    ensures
        numeral_value(dec_digits(n)) == n,
    decreases n,
{
    if n < 10 {
        assert(seq![digit_char(n)].drop_last() =~= Seq::<char>::empty());
        assert(numeral_value(seq![digit_char(n)].drop_last()) == 0);
    } else {
        lemma_dec_digits_value(n / 10);
        assert(dec_digits(n / 10).push(digit_char(n % 10)).drop_last() =~= dec_digits(n / 10));
        assert(dec_digits(n / 10).push(digit_char(n % 10)).last() == digit_char(n % 10));
    }
}

proof fn lemma_dec_digits_len(n: nat)
    ensures
        n < 10 ==> dec_digits(n).len() == 1,
        10 <= n < 100 ==> dec_digits(n).len() == 2,
        100 <= n < 1000 ==> dec_digits(n).len() == 3,
        1000 <= n < 10000 ==> dec_digits(n).len() == 4,
        n >= 10000 ==> dec_digits(n).len() >= 5,
    decreases n,
{
    if n >= 10 {
        lemma_dec_digits_len(n / 10);
    }
}

/// Appends the character of decimal digit `d`.
fn append_digit(s: &mut String, d: usize)
    requires
        d < 10,
    ensures
        final (s)@ == old(s)@.push(digit_char(d as nat)),
{
    let ds: &str = if d == 0 {
        "0"
    } else if d == 1 {
        "1"
    } else if d == 2 {
        "2"
    } else if d == 3 {
        "3"
    } else if d == 4 {
        "4"
    } else if d == 5 {
        "5"
    } else if d == 6 {
        "6"
    } else if d == 7 {
        "7"
    } else if d == 8 {
        "8"
    } else {
        "9"
    };
    proof {
        reveal_strlit("0");
        reveal_strlit("1");
        reveal_strlit("2");
        reveal_strlit("3");
        reveal_strlit("4");
        reveal_strlit("5");
        reveal_strlit("6");
        reveal_strlit("7");
        reveal_strlit("8");
        reveal_strlit("9");
        assert(ds@ =~= seq![digit_char(d as nat)]);
    }
    s.append(ds);
    proof {
        assert(old(s)@ + ds@ =~= old(s)@.push(digit_char(d as nat)));
    }
}

/// The decimal numeral of `n`.
fn dec_digits_string(n: usize) -> (s: String)
    ensures
        s@ == dec_digits(n as nat),
    decreases n,
{
    if n < 10 {
        let mut s = String::new();
        append_digit(&mut s, n);
        proof {
            assert(Seq::<char>::empty().push(digit_char(n as nat)) =~= seq![
                digit_char(n as nat),
            ]);
        }
        s
    } else {
        let mut s = dec_digits_string(n / 10);
        append_digit(&mut s, n % 10);
        s
    }
}

/// The line-number gutter for 1-based index `n`.
fn number_prefix_string(n: usize) -> (s: String)
    ensures
        s@ == number_prefix(n as nat),
{
    proof {
        lemma_dec_digits_len(n as nat);
    }
    let pad: &str = if n < 10 {
        "   "
    } else if n < 100 {
        "  "
    } else if n < 1000 {
        " "
    } else {
        ""
    };
    proof {
        reveal_strlit("   ");
        reveal_strlit("  ");
        reveal_strlit(" ");
        reveal_strlit("");
        assert(pad@ =~= spaces((4 - dec_digits(n as nat).len()) as nat) || dec_digits(
            n as nat,
        ).len() >= 4);
        if dec_digits(n as nat).len() < 4 {
            assert(pad@ =~= spaces((4 - dec_digits(n as nat).len()) as nat));
        } else {
            assert(pad@ =~= Seq::<char>::empty());
        }
    }
    let mut s = String::from_str(pad);
    let d = dec_digits_string(n);
    s.append(d.as_str());
    s.append(" | ");
    proof {
        reveal_strlit(" | ");
        assert(" | "@ =~= seq![' ', '|', ' ']);
        assert(s@ =~= number_prefix(n as nat));
    }
    s
}

impl Pagination {
    /// Computes the rows of the visible window of `lines` on a terminal of
    /// `terminal_size.0` columns by `terminal_size.1` rows.  A start line
    /// beyond the content is re-clamped; a start column beyond a line's end
    /// shows that line as empty.  The caller paints the returned rows.
    pub fn draw(&self, lines: &Vec<String>, terminal_size: (u16, u16)) -> (rows: Vec<String>)
        ensures
            rows.deep_view() == visible_rows(
                *self,
                lines.deep_view(),
                terminal_size.0 as nat,
                terminal_size.1 as nat,
            ),
    {
        let width: u16 = if self.line_numbers {
            if terminal_size.0 > NUMBERING_OFFSET {
                terminal_size.0 - NUMBERING_OFFSET
            } else {
                0
            }
        } else {
            terminal_size.0
        };
        let total = lines.len();
        let s = if self.current_start_line > total {
            total
        } else {
            self.current_start_line
        };
        let e = if total - s > terminal_size.1 as usize {
            s + terminal_size.1 as usize
        } else {
            total
        };
        let ghost target = visible_rows(
            *self,
            lines.deep_view(),
            terminal_size.0 as nat,
            terminal_size.1 as nat,
        );
        let mut rows: Vec<String> = Vec::new();
        let mut i = s;
        proof {
            assert(rows.deep_view() =~= target.take(0));
        }
        while i < e
            invariant
                s <= i <= e,
                e <= total,
                total == lines@.len(),
                width as nat == content_width(
                    terminal_size.0 as nat,
                    self.line_numbers,
                ),
                target == visible_rows(
                    *self,
                    lines.deep_view(),
                    terminal_size.0 as nat,
                    terminal_size.1 as nat,
                ),
                target.len() == e - s,
                forall|j: int|
                    s <= j < e ==> target[j - s] == render_row(
                        lines.deep_view()[j],
                        j as nat,
                        self.current_start_column as nat,
                        terminal_size.0 as nat,
                        self.line_numbers,
                    ),
                rows.deep_view() == target.take(i - s),
            decreases e - i,
        {
            let line: &String = &lines[i];
            let n = line.as_str().unicode_len();
            let c = self.current_start_column;
            let sliced: String = if c >= n {
                String::new()
            } else {
                let end = if n - c > width as usize {
                    c + width as usize
                } else {
                    n
                };
                line.as_str().substring_char(c, end).to_owned()
            };
            proof {
                assert(sliced@ == col_slice(line@, c as nat, width as nat));
                assert(lines.deep_view()[i as int] == line@);
            }
            let row: String = if self.line_numbers {
                let mut prefix = number_prefix_string(i + 1);
                prefix.append(sliced.as_str());
                prefix
            } else {
                sliced
            };
            let ghost before = rows.deep_view();
            rows.push(row);
            proof {
                assert(row@ == target[i - s]);
                assert(rows.deep_view() =~= before.push(row@));
                assert(target.take(i - s + 1) =~= target.take(i - s).push(target[i - s]));
            }
            i = i + 1;
        }
        proof {
            assert(target.take(e - s) =~= target);
        }
        rows
    }
}

/// Column slicing correctness: the visible part of a line of length `L`
/// seen from start column `c` through a window of `w` columns has length
/// `min(w, L - c)`, and is empty when `c >= L`.
pub proof fn lemma_column_slice_len(line: Seq<char>, c: nat, w: nat)
    ensures
        col_slice(line, c, w).len() == (if c >= line.len() {
            0
        } else if line.len() - c < w {
            line.len() - c
        } else {
            w as int
        }),
        forall|k: int|
            0 <= k < col_slice(line, c, w).len() ==> #[trigger] col_slice(line, c, w)[k] == line[c
                + k],
{
}

/// The gutter the renderer emits really is `NUMBERING_OFFSET` columns wide
/// (indices of up to four digits; wider indices widen the gutter).
pub proof fn lemma_gutter_width(n: nat)
    ensures
        n < 10000 ==> number_prefix(n).len() == NUMBERING_OFFSET as nat,
        number_prefix(n).len() >= NUMBERING_OFFSET as nat,
{
    lemma_dec_digits_len(n);
}

/// Numbering prefix stability: with numbering on, the gutter of each
/// visible row shows the row's 1-based content index, whatever the
/// horizontal scroll position — two states that differ only in their start
/// column render the same gutters.
pub proof fn lemma_numbering_prefix_stability(
    p1: Pagination,
    p2: Pagination,
    lines: Seq<Seq<char>>,
    w: nat,
    h: nat,
    i: int,
)
    requires
        p1.line_numbers,
        p2.line_numbers,
        p1.current_start_line == p2.current_start_line,
        0 <= i < visible_rows(p1, lines, w, h).len(),
    ensures
        visible_rows(p2, lines, w, h).len() == visible_rows(p1, lines, w, h).len(),
        visible_rows(p1, lines, w, h)[i].take(number_prefix(
            (line_index_of(p1, lines, i) + 1) as nat,
        ).len() as int) == number_prefix((line_index_of(p1, lines, i) + 1) as nat),
        visible_rows(p2, lines, w, h)[i].take(number_prefix(
            (line_index_of(p1, lines, i) + 1) as nat,
        ).len() as int) == number_prefix((line_index_of(p1, lines, i) + 1) as nat),
{
    let idx = line_index_of(p1, lines, i);
    assert(visible_rows(p1, lines, w, h)[i].take(number_prefix((idx + 1) as nat).len() as int)
        =~= number_prefix((idx + 1) as nat));
    assert(visible_rows(p2, lines, w, h)[i].take(number_prefix((idx + 1) as nat).len() as int)
        =~= number_prefix((idx + 1) as nat));
}

/// The content index of the `i`-th visible row.
pub open spec fn line_index_of(p: Pagination, lines: Seq<Seq<char>>, i: int) -> int {
    (if p.current_start_line as nat > lines.len() {
        lines.len() as int
    } else {
        p.current_start_line as int
    }) + i
}

/// Scroll clamping: however often the viewport is stepped, the start line
/// stays within `[0, max_start_line]` — stepping down clamps to the bottom
/// after the first step, and stepping up bottoms out at zero.
pub proof fn lemma_scroll_clamping(s: nat, k: nat, total: nat, h: nat)
    ensures
        k >= 1 ==> iter_line_down(s, k, total, h) <= max_start_line(total, h),
        k >= 1 ==> iter_line_down(s, k, total, h) == (if s + k < max_start_line(total, h) {
            s + k
        } else {
            max_start_line(total, h)
        }),
        iter_line_up(s, k) == (if s > k {
            (s - k) as nat
        } else {
            0
        }),
    decreases k,
{
    if k >= 1 {
        lemma_scroll_clamping(s, (k - 1) as nat, total, h);
        if k == 1 {
            assert(iter_line_down(s, 0, total, h) == s);
            assert(iter_line_up(s, 0) == s);
        }
        assert(iter_line_down(s, k, total, h) == spec_line_down(
            iter_line_down(s, (k - 1) as nat, total, h),
            total,
            h,
        ));
        assert(iter_line_up(s, k) == spec_line_up(iter_line_up(s, (k - 1) as nat)));
    }
}

/// Page step equivalence: a page movement of `k` lines lands exactly where
/// `k` sequential single-line movements land, with the same clamping.  The
/// closed forms make that landing point explicit.
pub proof fn lemma_page_step_equivalence(s: nat, k: nat, total: nat, h: nat)
    ensures
        iter_line_down(s, k, total, h) == (if k == 0 {
            s
        } else if s + k < max_start_line(total, h) {
            s + k
        } else {
            max_start_line(total, h)
        }),
        iter_line_up(s, k) == (if s > k {
            (s - k) as nat
        } else {
            0
        }),
{
    lemma_scroll_clamping(s, k, total, h);
}

} // verus!
