//! Adapter for PDF documents.  Text extraction from the raw bytes happens
//! outside the library (the extractor can abort on malformed font data, so
//! no total contract can be given for it); this adapter takes the
//! extracted text, splits it into lines, wraps them once against the
//! terminal width, and drives the viewport over whichever of the two
//! versions is active.
use vstd::prelude::*;

use crate::pagination::{visible_rows, Pagination};
use crate::text_utils::{fold, fold_lines, max_line_len, max_line_width, split_lines,
    split_lines_vec};
use crate::pagination::{
    iter_line_down, iter_line_up, spec_line_down, spec_line_up, spec_move_right,
};

verus! {

/// A PDF document with its scroll state.
pub struct PdfParser {
    /// The lines of the extracted text.
    pub lines: Vec<String>,
    /// The same lines, wrapped to the terminal's width at load time.
    pub lines_wrapped: Vec<String>,
    /// The terminal's columns and usable rows, fixed at construction.
    pub terminal_size: (u16, u16),
    /// The viewport's scroll state.
    pub pagination: Pagination,
    /// Whether the wrapped version of the content is active.
    pub line_wrapping: bool,
}

impl PdfParser {
    /// The viewport's scroll state.
    pub open spec fn scroll(self) -> Pagination {
        self.pagination
    }

    /// Whether the wrapped version of the content is active.
    pub open spec fn wrapping(self) -> bool {
        self.line_wrapping
    }

    /// The active content source: the wrapped lines when wrapping is on,
    /// the raw lines otherwise.
    pub open spec fn active_lines(self) -> Seq<Seq<char>> {
        if self.wrapping() {
            self.lines_wrapped.deep_view()
        } else {
            self.lines.deep_view()
        }
    }

    /// An empty document viewed through a terminal of the given size.
    pub fn new(terminal_size: (u16, u16)) -> (p: PdfParser)
        ensures
            p.lines@.len() == 0,
            p.lines_wrapped@.len() == 0,
            p.terminal_size == terminal_size,
            p.scroll() == (Pagination {
                current_start_line: 0,
                current_start_column: 0,
                line_numbers: false,
            }),
            !p.wrapping(),
    {
        PdfParser {
            lines: Vec::new(),
            lines_wrapped: Vec::new(),
            terminal_size,
            pagination: Pagination::new(),
            line_wrapping: false,
        }
    }

    /// Installs already-extracted text, replacing any content held so far:
    /// its lines, and their version wrapped against the given width.
    /// Returns whether the content is taller than the viewport, so that
    /// paging is worthwhile.
    pub fn load_text(&mut self, text: &str, terminal_size: (u16, u16)) -> (paginate: bool)
        ensures
            final (self).lines.deep_view() == split_lines(text@),
            final (self).lines_wrapped.deep_view() == fold_lines(
                split_lines(text@),
                terminal_size.0 as nat,
            ),
            final (self).terminal_size == old(self).terminal_size,
            final (self).scroll() == old(self).scroll(),
            final (self).wrapping() == old(self).wrapping(),
            paginate == (split_lines(text@).len() > terminal_size.1 as nat),
    {
        let new_lines = split_lines_vec(text);
        let mut refs: Vec<&str> = Vec::new();
        let mut j: usize = 0;
        proof {
            assert(refs.deep_view() =~= new_lines.deep_view().take(0));
        }
        while j < new_lines.len()
            invariant
                j <= new_lines.len(),
                refs.deep_view() == new_lines.deep_view().take(j as int),
            decreases new_lines.len() - j,
        {
            let ghost before = refs.deep_view();
            refs.push(new_lines[j].as_str());
            proof {
                assert(refs.deep_view() =~= before.push(new_lines.deep_view()[j as int]));
                assert(new_lines.deep_view().take(j + 1) =~= new_lines.deep_view().take(
                    j as int,
                ).push(new_lines.deep_view()[j as int]));
            }
            j = j + 1;
        }
        proof {
            assert(new_lines.deep_view().take(new_lines.len() as int) =~= new_lines.deep_view());
        }
        let folded = fold(&refs, terminal_size.0);
        let paginate = new_lines.len() > terminal_size.1 as usize;
        self.lines = new_lines;
        self.lines_wrapped = folded;
        paginate
    }

    /// Computes the rows of the visible window of the active content.
    pub fn draw(&self) -> (rows: Vec<String>)
        ensures
            rows.deep_view() == visible_rows(
                self.scroll(),
                self.active_lines(),
                self.terminal_size.0 as nat,
                self.terminal_size.1 as nat,
            ),
    {
        let to_draw: &Vec<String> = if self.line_wrapping {
            &self.lines_wrapped
        } else {
            &self.lines
        };
        self.pagination.draw(to_draw, self.terminal_size)
    }

    /// Re-computes the visible window without touching any state.
    pub fn refresh(&self) -> (rows: Vec<String>)
        ensures
            rows.deep_view() == visible_rows(
                self.scroll(),
                self.active_lines(),
                self.terminal_size.0 as nat,
                self.terminal_size.1 as nat,
            ),
    {
        self.draw()
    }

    /// Scrolls one line up; a no-op at the top.
    pub fn line_up(&mut self)
        ensures
            final (self).scroll().current_start_line == spec_line_up(
                old(self).scroll().current_start_line as nat,
            ),
            final (self).scroll().current_start_column == old(
                self,
            ).scroll().current_start_column,
            final (self).scroll().line_numbers == old(self).scroll().line_numbers,
            final (self).lines == old(self).lines,
            final (self).lines_wrapped == old(self).lines_wrapped,
            final (self).terminal_size == old(self).terminal_size,
            final (self).wrapping() == old(self).wrapping(),
    {
        self.pagination.line_up();
    }

    /// Scrolls one line down, clamped against the active content's length.
    pub fn line_down(&mut self)
        ensures
            final (self).scroll().current_start_line == spec_line_down(
                old(self).scroll().current_start_line as nat,
                old(self).active_lines().len(),
                old(self).terminal_size.1 as nat,
            ),
            final (self).scroll().current_start_column == old(
                self,
            ).scroll().current_start_column,
            final (self).scroll().line_numbers == old(self).scroll().line_numbers,
            final (self).lines == old(self).lines,
            final (self).lines_wrapped == old(self).lines_wrapped,
            final (self).terminal_size == old(self).terminal_size,
            final (self).wrapping() == old(self).wrapping(),
    {
        let total = if self.line_wrapping {
            self.lines_wrapped.len()
        } else {
            self.lines.len()
        };
        self.pagination.line_down(total, self.terminal_size);
    }

    /// Scrolls one column right, clamped against the active content's
    /// widest line.
    pub fn move_right(&mut self)
        ensures
            final (self).scroll().current_start_column == spec_move_right(
                old(self).scroll().current_start_column as nat,
                max_line_len(old(self).active_lines()),
                old(self).terminal_size.0 as nat,
                old(self).scroll().line_numbers,
            ),
            final (self).scroll().current_start_line == old(self).scroll().current_start_line,
            final (self).scroll().line_numbers == old(self).scroll().line_numbers,
            final (self).lines == old(self).lines,
            final (self).lines_wrapped == old(self).lines_wrapped,
            final (self).terminal_size == old(self).terminal_size,
            final (self).wrapping() == old(self).wrapping(),
    {
        let widest = if self.line_wrapping {
            max_line_width(&self.lines_wrapped)
        } else {
            max_line_width(&self.lines)
        };
        self.pagination.move_right(widest, self.terminal_size);
    }

    /// Scrolls one column left; a no-op at the left edge.
    pub fn move_left(&mut self)
        ensures
            final (self).scroll().current_start_column == spec_line_up(
                old(self).scroll().current_start_column as nat,
            ),
            final (self).scroll().current_start_line == old(self).scroll().current_start_line,
            final (self).scroll().line_numbers == old(self).scroll().line_numbers,
            final (self).lines == old(self).lines,
            final (self).lines_wrapped == old(self).lines_wrapped,
            final (self).terminal_size == old(self).terminal_size,
            final (self).wrapping() == old(self).wrapping(),
    {
        self.pagination.move_left();
    }

    /// Scrolls `step` lines up, exactly as `step` single-line calls would.
    pub fn page_up(&mut self, step: usize)
        ensures
            final (self).scroll().current_start_line == iter_line_up(
                old(self).scroll().current_start_line as nat,
                step as nat,
            ),
            final (self).scroll().current_start_column == old(
                self,
            ).scroll().current_start_column,
            final (self).scroll().line_numbers == old(self).scroll().line_numbers,
            final (self).lines == old(self).lines,
            final (self).lines_wrapped == old(self).lines_wrapped,
            final (self).terminal_size == old(self).terminal_size,
            final (self).wrapping() == old(self).wrapping(),
    {
        self.pagination.page_up(step);
    }

    /// Scrolls `step` lines down, exactly as `step` single-line calls
    /// would, clamped against the active content's length.
    pub fn page_down(&mut self, step: usize)
        ensures
            final (self).scroll().current_start_line == iter_line_down(
                old(self).scroll().current_start_line as nat,
                step as nat,
                old(self).active_lines().len(),
                old(self).terminal_size.1 as nat,
            ),
            final (self).scroll().current_start_column == old(
                self,
            ).scroll().current_start_column,
            final (self).scroll().line_numbers == old(self).scroll().line_numbers,
            final (self).lines == old(self).lines,
            final (self).lines_wrapped == old(self).lines_wrapped,
            final (self).terminal_size == old(self).terminal_size,
            final (self).wrapping() == old(self).wrapping(),
    {
        let total = if self.line_wrapping {
            self.lines_wrapped.len()
        } else {
            self.lines.len()
        };
        self.pagination.page_down(step, total, self.terminal_size);
    }

    /// Flips the line-number gutter on or off; scroll position is kept.
    pub fn toggle_line_numbers(&mut self)
        ensures
            final (self).scroll().line_numbers == !old(self).scroll().line_numbers,
            final (self).scroll().current_start_line == old(self).scroll().current_start_line,
            final (self).scroll().current_start_column == old(
                self,
            ).scroll().current_start_column,
            final (self).lines == old(self).lines,
            final (self).lines_wrapped == old(self).lines_wrapped,
            final (self).terminal_size == old(self).terminal_size,
            final (self).wrapping() == old(self).wrapping(),
    {
        self.pagination.toggle_line_numbers();
    }

    /// Swaps the active content source between the raw and the wrapped
    /// lines; scroll position is kept and is re-clamped against the new
    /// source only by later navigation and rendering.
    pub fn toggle_line_wrapping(&mut self)
        ensures
            final (self).wrapping() == !old(self).wrapping(),
            final (self).scroll() == old(self).scroll(),
            final (self).lines == old(self).lines,
            final (self).lines_wrapped == old(self).lines_wrapped,
            final (self).terminal_size == old(self).terminal_size,
    {
        self.line_wrapping = !self.line_wrapping;
    }
}

} // verus!
