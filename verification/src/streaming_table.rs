//! The uniform-width streaming table: a fixed cell size, as many columns per
//! printed line as fit, and logical rows that wrap over several blocks.

use vstd::prelude::*;
use vstd::arithmetic::mul::lemma_mul_inequality;
use vstd::string::StringExecFns;

use crate::planner::seq_sum;
use crate::planner::spec_group_width;
use crate::render::render_block;
use crate::render::spec_block;
use crate::separator::SepGlyphs;
use crate::separator::glyphs;
use crate::separator::spec_separator;
use crate::sink::write_stdout;

verus! {

/// A group of `n` equal column widths.
pub open spec fn uniform_widths(cell_size: usize, n: int) -> Seq<usize> {
    Seq::new(if n >= 0 {
        n as nat
    } else {
        0
    }, |i: int| cell_size)
}

proof fn lemma_uniform_sum(cell_size: usize, n: int)
    requires
        n >= 0,
    ensures
        seq_sum(uniform_widths(cell_size, n)) == n * cell_size,
    decreases n,
{
    if n == 0 {
        assert(n * cell_size == 0) by (nonlinear_arith)
            requires n == 0;
    } else {
        lemma_uniform_sum(cell_size, n - 1);
        assert(uniform_widths(cell_size, n).drop_first() =~= uniform_widths(cell_size, n - 1));
        assert((n - 1) * cell_size + cell_size == n * cell_size) by (nonlinear_arith);
    }
}

/// The display width of the uniform group, bounded by the width the full
/// column count would have.
proof fn lemma_uniform_width_bound(cell_size: usize, cpl: int, cc: int)
    requires
        1 <= cpl <= cc,
        cc * (cell_size + 1) + 1 <= usize::MAX,
    ensures
        spec_group_width(uniform_widths(cell_size, cpl)) == cpl * (cell_size as int + 1) + 1,
        spec_group_width(uniform_widths(cell_size, cpl)) <= usize::MAX,
{
    lemma_uniform_sum(cell_size, cpl);
    assert(cpl * cell_size + cpl == cpl * (cell_size as int + 1)) by (nonlinear_arith);
    lemma_mul_inequality(cpl, cc, cell_size as int + 1);
}

pub open spec fn stream_head_glyphs() -> SepGlyphs {
    glyphs("┌"@, "─"@, "─"@, "─"@, "┬"@, "┐"@)
}

pub open spec fn stream_record_glyphs() -> SepGlyphs {
    glyphs("├"@, "─"@, "─"@, "─"@, "┼"@, "┤"@)
}

pub open spec fn stream_wrap_glyphs() -> SepGlyphs {
    glyphs("│"@, "-"@, "-"@, "-"@, "│"@, "│"@)
}

pub open spec fn stream_end_glyphs() -> SepGlyphs {
    glyphs("└"@, "─"@, "─"@, "─"@, "┴"@, "┘"@)
}

pub open spec fn stream_sep_text(cell_size: usize, n: int, g: SepGlyphs) -> Seq<char> {
    spec_separator(uniform_widths(cell_size, n), uniform_widths(cell_size, n), g)
}

/// The separator before the very first block.
pub open spec fn stream_head_text(cell_size: usize, n: int) -> Seq<char> {
    stream_sep_text(cell_size, n, stream_head_glyphs())
}

/// The solid separator before a new logical row.
pub open spec fn stream_record_text(cell_size: usize, n: int) -> Seq<char> {
    stream_sep_text(cell_size, n, stream_record_glyphs())
}

/// The light separator between the wrapped blocks of one logical row.
pub open spec fn stream_wrap_text(cell_size: usize, n: int) -> Seq<char> {
    stream_sep_text(cell_size, n, stream_wrap_glyphs())
}

/// The separator that closes the table.
pub open spec fn stream_end_text(cell_size: usize, n: int) -> Seq<char> {
    stream_sep_text(cell_size, n, stream_end_glyphs())
}

/// The rendered block of one buffered row; missing trailing cells are
/// rendered as empty columns.
pub open spec fn stream_block_text(row: Seq<Seq<char>>, cell_size: usize, n: int) -> Seq<char> {
    spec_block(row, uniform_widths(cell_size, n), "│"@, "│"@)
}

/// The abstract state of a uniform-width streaming table.
#[verifier::ext_equal]
pub ghost struct StreamState {
    pub column_count: int,
    pub columns_per_line: int,
    pub cell_size: int,
    pub pending: Seq<Seq<char>>,
    pub columns_written: int,
    pub started: bool,
}

pub open spec fn stream_state_wf(s: StreamState) -> bool {
    &&& s.column_count >= 1
    &&& s.cell_size >= 3
    &&& 1 <= s.columns_per_line <= s.column_count
    &&& s.pending.len() < s.columns_per_line
    &&& 0 <= s.columns_written
    &&& s.columns_written + s.pending.len() < s.column_count
    &&& s.columns_written != 0 ==> s.columns_per_line < s.column_count
}

/// One push: the cell is buffered; the buffer is flushed when it holds a
/// full printed line of columns or completes the logical row.  The head or
/// record separator precedes the first block of a row, the wrapping
/// separator a continuation block.
pub open spec fn stream_step(s: StreamState, cell: Seq<char>) -> (StreamState, Seq<char>) {
    let row = s.pending.push(cell);
    if row.len() == s.columns_per_line || s.columns_written + row.len() == s.column_count {
        let sep = if s.columns_written == 0 {
            if !s.started {
                stream_head_text(s.cell_size as usize, s.columns_per_line)
            } else {
                stream_record_text(s.cell_size as usize, s.columns_per_line)
            }
        } else {
            stream_wrap_text(s.cell_size as usize, s.columns_per_line)
        };
        let written = s.columns_written + row.len();
        (
            StreamState {
                pending: Seq::empty(),
                columns_written: if written >= s.column_count {
                    0
                } else {
                    written
                },
                started: if s.columns_written == 0 {
                    true
                } else {
                    s.started
                },
                ..s
            },
            sep + stream_block_text(row, s.cell_size as usize, s.columns_per_line),
        )
    } else {
        (StreamState { pending: row, ..s }, Seq::empty())
    }
}

/// Closing a started table emits the end separator; closing an unstarted
/// table does nothing.
pub open spec fn stream_end_step(s: StreamState) -> (StreamState, Seq<char>) {
    if s.started {
        (
            StreamState { started: false, ..s },
            stream_end_text(s.cell_size as usize, s.columns_per_line),
        )
    } else {
        (s, Seq::empty())
    }
}

/// A sequence of pushes, with all the emitted text concatenated.
pub open spec fn stream_run(s: StreamState, cells: Seq<Seq<char>>) -> (StreamState, Seq<char>)
    decreases cells.len(),
{
    if cells.len() == 0 {
        (s, Seq::empty())
    } else {
        let first = stream_step(s, cells[0]);
        let rest = stream_run(first.0, cells.drop_first());
        (rest.0, first.1 + rest.1)
    }
}

/// Round-trip law, fill step: when all columns share one printed line,
/// pushing exactly the cells the line still needs emits nothing until the
/// last push, which emits one separator and one block of all buffered cells.
proof fn lemma_stream_fill(s: StreamState, cells: Seq<Seq<char>>)
    requires
        stream_state_wf(s),
        s.columns_per_line == s.column_count,
        cells.len() >= 1,
        s.pending.len() + cells.len() == s.column_count,
    ensures
        stream_run(s, cells).1 == (if s.started {
            stream_record_text(s.cell_size as usize, s.columns_per_line)
        } else {
            stream_head_text(s.cell_size as usize, s.columns_per_line)
        }) + stream_block_text(s.pending + cells, s.cell_size as usize, s.columns_per_line),
        stream_run(s, cells).0 == (StreamState {
            pending: Seq::empty(),
            columns_written: 0,
            started: true,
            ..s
        }),
    decreases cells.len(),
{
    let first = stream_step(s, cells[0]);
    if cells.len() == 1 {
        assert(s.pending.push(cells[0]) =~= s.pending + cells);
        assert(stream_run(first.0, cells.drop_first()) == (first.0, Seq::<char>::empty()));
        assert(first.1 + Seq::<char>::empty() =~= first.1);
        assert(stream_run(s, cells).0 =~= StreamState {
            pending: Seq::empty(),
            columns_written: 0,
            started: true,
            ..s
        });
    } else {
        assert(s.pending.push(cells[0]).len() < s.columns_per_line);
        assert(first.1 =~= Seq::<char>::empty());
        lemma_stream_fill(first.0, cells.drop_first());
        assert(first.0.pending + cells.drop_first() =~= s.pending + cells);
        assert(first.1 + stream_run(first.0, cells.drop_first()).1 =~= stream_run(
            first.0,
            cells.drop_first(),
        ).1);
    }
}

/// Round-trip law: on a fresh table whose columns all fit one printed line,
/// pushing exactly the column count of cells emits exactly one head
/// separator and one block, and closing the table then emits exactly one
/// end separator; no mid separator ever appears.
pub proof fn lemma_stream_single_block_round_trip(s: StreamState, cells: Seq<Seq<char>>)
    requires
        stream_state_wf(s),
        s.columns_per_line == s.column_count,
        s.pending.len() == 0,
        s.columns_written == 0,
        !s.started,
        cells.len() == s.column_count,
    ensures
        stream_run(s, cells).1 == stream_head_text(s.cell_size as usize, s.columns_per_line)
            + stream_block_text(cells, s.cell_size as usize, s.columns_per_line),
        stream_run(s, cells).0.started,
        stream_end_step(stream_run(s, cells).0).1 == stream_end_text(
            s.cell_size as usize,
            s.columns_per_line,
        ),
        !stream_end_step(stream_run(s, cells).0).0.started,
{
    lemma_stream_fill(s, cells);
    assert(s.pending + cells =~= cells);
}

/// Restart law: after a close the started flag is down, so the flush that
/// opens the next logical row is preceded by the head separator again.
pub proof fn lemma_stream_restart_after_close(s: StreamState, cell: Seq<char>)
    requires
        stream_state_wf(s),
        !s.started,
        s.columns_written == 0,
        s.pending.len() + 1 == s.columns_per_line || s.pending.len() + 1 == s.column_count,
    ensures
        stream_step(s, cell).1 == stream_head_text(s.cell_size as usize, s.columns_per_line)
            + stream_block_text(s.pending.push(cell), s.cell_size as usize, s.columns_per_line),
        stream_step(s, cell).0.started,
{
}

/// A streaming table whose cells all share one size.  When the requested
/// columns do not fit one printed line, each logical row wraps over several
/// blocks.
pub struct StreamingTable {
    column_count: usize,
    columns_per_line: usize,
    cell_size: usize,
    line: Vec<String>,
    columns_written: usize,
    table_started: bool,
    record_seprator: String,
    wrapping_separator: String,
    history: Ghost<Seq<char>>,
}

/// How many columns of `cell_size` fit a printed line, at least one, at
/// most the requested column count.
pub open spec fn spec_columns_per_line(column_count: int, cell_size: int, line_width: int) -> int {
    let q = (line_width - 1) / (cell_size + 1);
    let q1 = if q >= 1 {
        q
    } else {
        1
    };
    if q1 < column_count {
        q1
    } else {
        column_count
    }
}

impl StreamingTable {
    /// The abstract state this table is in.
    pub closed spec fn abs(&self) -> StreamState {
        StreamState {
            column_count: self.column_count as int,
            columns_per_line: self.columns_per_line as int,
            cell_size: self.cell_size as int,
            pending: self.line.deep_view(),
            columns_written: self.columns_written as int,
            started: self.table_started,
        }
    }

    /// All text this table has rendered so far, whether or not the sink
    /// accepted it.
    pub closed spec fn emitted(&self) -> Seq<char> {
        self.history@
    }

    pub closed spec fn wf(&self) -> bool {
        &&& stream_state_wf(self.abs())
        &&& spec_group_width(uniform_widths(self.cell_size, self.columns_per_line as int))
            <= usize::MAX
        &&& self.record_seprator@ == stream_record_text(
            self.cell_size,
            self.columns_per_line as int,
        )
        &&& self.columns_per_line < self.column_count ==> self.wrapping_separator@
            == stream_wrap_text(self.cell_size, self.columns_per_line as int)
    }

    /// Build one separator over the uniform column group: edge glyphs at
    /// both ends, junctions between columns, the line glyph elsewhere.
    fn make_separator(
        cell_size: usize,
        columns_per_line: usize,
        start: &str,
        line: &str,
        mid: &str,
        end: &str,
    ) -> (s: String)
        requires
            columns_per_line >= 1,
            spec_group_width(uniform_widths(cell_size, columns_per_line as int)) <= usize::MAX,
            start@.len() == 1,
            line@.len() == 1,
            mid@.len() == 1,
            end@.len() == 1,
        ensures
            s@ == stream_sep_text(
                cell_size,
                columns_per_line as int,
                glyphs(start@, line@, line@, line@, mid@, end@),
            ),
    {
        let g = vec![cell_size; columns_per_line];
        proof {
            assert(g@ =~= uniform_widths(cell_size, columns_per_line as int));
        }
        crate::separator::make_separator(g.as_slice(), g.as_slice(), start, line, line, line, mid, end)
    }

    /// Plan the layout for `column_count` columns of `cell_size` characters
    /// on lines of `line_width`, and build the separators used repeatedly.
    pub fn new(column_count: usize, cell_size: usize, line_width: usize) -> (t: StreamingTable)
        requires
            column_count >= 1,
            3 <= cell_size,
            line_width >= 1,
            column_count * (cell_size + 1) + 1 <= usize::MAX,
        ensures
            t.wf(),
            t.abs().column_count == column_count,
            t.abs().cell_size == cell_size,
            t.abs().columns_per_line == spec_columns_per_line(
                column_count as int,
                cell_size as int,
                line_width as int,
            ),
            t.abs().pending == Seq::<Seq<char>>::empty(),
            t.abs().columns_written == 0,
            !t.abs().started,
            t.emitted() == Seq::<char>::empty(),
    {
        proof {
            assert(cell_size as int + 1 <= column_count as int * (cell_size as int + 1))
                by (nonlinear_arith)
                requires
                    column_count as int >= 1,
                    cell_size as int >= 3,
            ;
        }
        let q = (line_width - 1) / (cell_size + 1);
        let mut columns_per_line = if q >= 1 {
            q
        } else {
            1
        };
        let mut wrapping_separator = String::new();
        if columns_per_line < column_count {
            proof {
                lemma_uniform_width_bound(
                    cell_size,
                    columns_per_line as int,
                    column_count as int,
                );
                reveal_strlit("│");
                reveal_strlit("-");
            }
            wrapping_separator = Self::make_separator(cell_size, columns_per_line, "│", "-", "│", "│");
        } else {
            columns_per_line = column_count;
        }
        proof {
            lemma_uniform_width_bound(cell_size, columns_per_line as int, column_count as int);
            reveal_strlit("├");
            reveal_strlit("┼");
            reveal_strlit("┤");
            reveal_strlit("─");
        }
        let record_seprator = Self::make_separator(cell_size, columns_per_line, "├", "─", "┼", "┤");
        let t = StreamingTable {
            column_count,
            columns_per_line,
            cell_size,
            line: Vec::new(),
            columns_written: 0,
            table_started: false,
            record_seprator,
            wrapping_separator,
            history: Ghost(Seq::empty()),
        };
        proof {
            assert(t.line.deep_view() =~= Seq::<Seq<char>>::empty());
        }
        t
    }

    /// Perform one push and return the text it renders: empty while the
    /// cell only joins the buffer, separator plus block on a flush.
    /// Nothing is written to the sink.
    pub fn push_rendered(&mut self, x: String) -> (out: String)
        requires
            old(self).wf(),
        ensures
            final(self).wf(),
            final(self).abs() == stream_step(old(self).abs(), x@).0,
            out@ == stream_step(old(self).abs(), x@).1,
            final(self).emitted() == old(self).emitted() + out@,
    {
        let ghost pre = self.abs();
        let ghost step = stream_step(pre, x@);
        let ghost xv = x@;
        self.line.push(x);
        proof {
            assert(self.line.deep_view() =~~= pre.pending.push(xv));
        }
        if self.line.len() == self.columns_per_line
            || self.columns_written + self.line.len() == self.column_count {
            let sep: String;
            if self.columns_written == 0 {
                if !self.table_started {
                    self.table_started = true;
                    proof {
                        lemma_uniform_sum(self.cell_size, self.columns_per_line as int);
                        reveal_strlit("┌");
                        reveal_strlit("┬");
                        reveal_strlit("┐");
                        reveal_strlit("─");
                    }
                    sep = Self::make_separator(
                        self.cell_size,
                        self.columns_per_line,
                        "┌",
                        "─",
                        "┬",
                        "┐",
                    );
                } else {
                    sep = self.record_seprator.clone();
                }
            } else {
                sep = self.wrapping_separator.clone();
            }
            let widths = vec![self.cell_size; self.columns_per_line];
            proof {
                reveal_strlit("│");
                assert(widths@ =~= uniform_widths(self.cell_size, self.columns_per_line as int));
            }
            let block = render_block(&self.line, widths.as_slice(), "│", "│");
            let mut out = sep;
            out.append(block.as_str());
            self.columns_written = self.columns_written + self.line.len();
            self.line.clear();
            if self.columns_written >= self.column_count {
                self.columns_written = 0;
            }
            self.history = Ghost(self.history@ + out@);
            proof {
                assert(self.line.deep_view() =~= Seq::<Seq<char>>::empty());
                assert(self.abs() =~= step.0);
                assert(out@ == step.1);
            }
            out
        } else {
            proof {
                assert(self.abs() =~= step.0);
                assert(self.history@ + Seq::<char>::empty() =~= self.history@);
            }
            String::new()
        }
    }

    /// Push one cell.  The state change is exactly one [`stream_step`]; on
    /// a flush the rendered text is handed to the standard output and the
    /// sink's verdict is returned.  A push that only buffers performs no
    /// output and always succeeds.
    pub fn push(&mut self, x: String) -> (r: Result<(), std::io::Error>)
        requires
            old(self).wf(),
        ensures
            final(self).wf(),
            final(self).abs() == stream_step(old(self).abs(), x@).0,
            final(self).emitted() == old(self).emitted() + stream_step(old(self).abs(), x@).1,
            stream_step(old(self).abs(), x@).0.pending == old(self).abs().pending.push(x@)
                ==> r is Ok,
    {
        let will_flush = self.line.len() + 1 == self.columns_per_line || self.columns_written
            + self.line.len() + 1 == self.column_count;
        let out = self.push_rendered(x);
        if will_flush {
            write_stdout(out.as_str())
        } else {
            Ok(())
        }
    }

    /// Perform the closing transition and return the text it renders: the
    /// end separator if the table was started, nothing otherwise.  Nothing
    /// is written to the sink.
    pub fn end_table_rendered(&mut self) -> (out: String)
        requires
            old(self).wf(),
        ensures
            final(self).wf(),
            final(self).abs() == stream_end_step(old(self).abs()).0,
            out@ == stream_end_step(old(self).abs()).1,
            final(self).emitted() == old(self).emitted() + out@,
    {
        if self.table_started {
            self.table_started = false;
            proof {
                lemma_uniform_sum(self.cell_size, self.columns_per_line as int);
                reveal_strlit("└");
                reveal_strlit("┴");
                reveal_strlit("┘");
                reveal_strlit("─");
            }
            let out = Self::make_separator(self.cell_size, self.columns_per_line, "└", "─", "┴", "┘");
            self.history = Ghost(self.history@ + out@);
            out
        } else {
            proof {
                assert(self.history@ + Seq::<char>::empty() =~= self.history@);
            }
            String::new()
        }
    }

    /// Close the table: if a block has been printed since the last close,
    /// the end separator is handed to the standard output and the started
    /// flag is cleared; otherwise nothing happens and the call succeeds.
    pub fn end_table(&mut self) -> (r: Result<(), std::io::Error>)
        requires
            old(self).wf(),
        ensures
            final(self).wf(),
            final(self).abs() == stream_end_step(old(self).abs()).0,
            final(self).emitted() == old(self).emitted() + stream_end_step(old(self).abs()).1,
            !old(self).abs().started ==> r is Ok,
    {
        let was_started = self.table_started;
        let out = self.end_table_rendered();
        if was_started {
            write_stdout(out.as_str())
        } else {
            Ok(())
        }
    }

    /// Whether a block has been printed since the last `end_table`.
    pub fn table_started(&mut self) -> (b: bool)
        ensures
            *final(self) == *old(self),
            b == old(self).abs().started,
    {
        self.table_started
    }
}

} // verus!
