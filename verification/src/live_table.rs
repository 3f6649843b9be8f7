//! The variable-width streaming table: columns are planned into groups once,
//! then cells are buffered and flushed one block at a time.

use vstd::prelude::*;
use vstd::string::StringExecFns;

use crate::planner::compute_column_widths;
use crate::planner::spec_group_width;
use crate::planner::spec_plan;
use crate::render::render_block;
use crate::render::spec_block;
use crate::separator::SepGlyphs;
use crate::separator::glyphs;
use crate::separator::make_separator;
use crate::separator::spec_separator;
use crate::sink::write_stdout;

verus! {

/// Glyphs of the separator printed before the very first block.
pub open spec fn live_head_glyphs() -> SepGlyphs {
    glyphs("┌"@, "─"@, "─"@, "┬"@, "┬"@, "┐"@)
}

/// Glyphs of the separator printed by `end_table`.
pub open spec fn live_end_glyphs() -> SepGlyphs {
    glyphs("└"@, "─"@, "┴"@, "─"@, "┴"@, "┘"@)
}

/// Glyphs of the solid separator that opens a new logical row.
pub open spec fn live_record_glyphs() -> SepGlyphs {
    glyphs("├"@, "─"@, "┴"@, "┬"@, "┼"@, "┤"@)
}

/// Glyphs of the dashed separator between the wrapped blocks of one row.
pub open spec fn live_wrap_glyphs() -> SepGlyphs {
    glyphs("├"@, "╌"@, "┴"@, "┬"@, "┼"@, "┤"@)
}

/// The group rendered directly above group `i` across flushes.
pub open spec fn prev_group(groups: Seq<Seq<usize>>, i: int) -> int {
    if i == 0 {
        groups.len() - 1
    } else {
        i - 1
    }
}

/// The separator before the first block of a table.
pub open spec fn live_head_text(groups: Seq<Seq<usize>>) -> Seq<char> {
    spec_separator(groups[0], groups[0], live_head_glyphs())
}

/// The separator that closes a table.
pub open spec fn live_end_text(groups: Seq<Seq<usize>>) -> Seq<char> {
    spec_separator(
        groups[groups.len() - 1],
        groups[groups.len() - 1],
        live_end_glyphs(),
    )
}

/// The separator before a flush of group `i` of a started table: solid when
/// the flush opens a new logical row, dashed when the row wrapped around.
pub open spec fn live_mid_text(groups: Seq<Seq<usize>>, i: int) -> Seq<char> {
    spec_separator(
        groups[prev_group(groups, i)],
        groups[i],
        if i == 0 {
            live_record_glyphs()
        } else {
            live_wrap_glyphs()
        },
    )
}

/// The rendered block of one buffered row against its group's widths.
pub open spec fn live_block_text(row: Seq<Seq<char>>, widths: Seq<usize>) -> Seq<char> {
    spec_block(row, widths, "│"@, "│"@)
}

/// The abstract state of a live table.
#[verifier::ext_equal]
pub ghost struct LiveState {
    pub groups: Seq<Seq<usize>>,
    pub cursor: int,
    pub pending: Seq<Seq<char>>,
    pub started: bool,
}

pub open spec fn live_state_wf(s: LiveState) -> bool {
    &&& s.groups.len() >= 1
    &&& 0 <= s.cursor < s.groups.len()
    &&& s.pending.len() < s.groups[s.cursor].len()
    &&& forall|i: int| 0 <= i < s.groups.len() ==> (#[trigger] s.groups[i]).len() >= 1
}

/// One push: the cell is buffered; when the buffer fills the current group,
/// the block is rendered behind the proper separator, the buffer is cleared
/// and the cursor advances.  The second component is the text emitted.
pub open spec fn live_step(s: LiveState, cell: Seq<char>) -> (LiveState, Seq<char>) {
    let row = s.pending.push(cell);
    if row.len() == s.groups[s.cursor].len() {
        let next = if s.cursor + 1 == s.groups.len() {
            0
        } else {
            s.cursor + 1
        };
        (
            LiveState { groups: s.groups, cursor: next, pending: Seq::empty(), started: true },
            (if s.started {
                live_mid_text(s.groups, s.cursor)
            } else {
                live_head_text(s.groups)
            }) + live_block_text(row, s.groups[s.cursor]),
        )
    } else {
        (LiveState { groups: s.groups, cursor: s.cursor, pending: row, started: s.started }, Seq::empty())
    }
}

/// Closing a started table emits the end separator; closing an unstarted
/// table does nothing.
pub open spec fn live_end_step(s: LiveState) -> (LiveState, Seq<char>) {
    if s.started {
        (LiveState { started: false, ..s }, live_end_text(s.groups))
    } else {
        (s, Seq::empty())
    }
}

/// A sequence of pushes, with all the emitted text concatenated.
pub open spec fn live_run(s: LiveState, cells: Seq<Seq<char>>) -> (LiveState, Seq<char>)
    decreases cells.len(),
{
    if cells.len() == 0 {
        (s, Seq::empty())
    } else {
        let first = live_step(s, cells[0]);
        let rest = live_run(first.0, cells.drop_first());
        (rest.0, first.1 + rest.1)
    }
}

/// A streaming table over per-column requested widths.  Cells are pushed one
/// at a time; full blocks are rendered to the standard output.
pub struct LiveTable {
    column_groups: Vec<Vec<usize>>,
    current_cgroup: usize,
    column_group_separators: Vec<String>,
    head_separator: String,
    end_separator: String,
    line: Vec<String>,
    table_started: bool,
    history: Ghost<Seq<char>>,
}

impl LiveTable {
    /// The abstract state this table is in.
    pub closed spec fn abs(&self) -> LiveState {
        LiveState {
            groups: self.column_groups.deep_view(),
            cursor: self.current_cgroup as int,
            pending: self.line.deep_view(),
            started: self.table_started,
        }
    }

    /// All text this table has rendered so far, whether or not the sink
    /// accepted it.
    pub closed spec fn emitted(&self) -> Seq<char> {
        self.history@
    }

    pub closed spec fn wf(&self) -> bool {
        let groups = self.column_groups.deep_view();
        &&& live_state_wf(self.abs())
        &&& forall|i: int|
            0 <= i < groups.len() ==> spec_group_width(#[trigger] groups[i]) <= usize::MAX
        &&& forall|i: int, j: int|
            0 <= i < groups.len() && 0 <= j < groups[i].len() ==> #[trigger] groups[i][j] >= 1
        &&& self.column_group_separators@.len() == groups.len()
        &&& forall|i: int|
            0 <= i < groups.len() ==> (#[trigger] self.column_group_separators@[i])@
                == live_mid_text(groups, i)
        &&& self.head_separator@ == live_head_text(groups)
        &&& self.end_separator@ == live_end_text(groups)
    }

    /// The planned column groups.
    pub closed spec fn groups(&self) -> Seq<Seq<usize>> {
        self.column_groups.deep_view()
    }

    /// Plan the groups for the requested widths and build all separators.
    /// A line width below nine is raised to nine; every requested width must
    /// be at least one.  A column wider than the line is clamped.
    pub fn new(columns_widths: Vec<usize>, line_width: usize) -> (t: LiveTable)
        requires
            columns_widths@.len() >= 1,
            line_width <= usize::MAX / 2,
            forall|i: int|
                0 <= i < columns_widths@.len() ==> 1 <= #[trigger] columns_widths@[i]
                    <= usize::MAX / 2 - 2,
        ensures
            t.wf(),
            t.groups() == spec_plan(
                columns_widths@,
                if line_width >= 9 {
                    line_width as int
                } else {
                    9
                },
            ),
            t.abs().cursor == 0,
            t.abs().pending == Seq::<Seq<char>>::empty(),
            !t.abs().started,
            t.emitted() == Seq::<char>::empty(),
    {
        let lw = if line_width >= 9 {
            line_width
        } else {
            9
        };
        let column_groups = compute_column_widths(columns_widths, lw);
        let ghost groups = column_groups.deep_view();
        proof {
            crate::planner::lemma_plan_min_one(columns_widths@, lw as int);
        }
        let cgl = column_groups.len();
        let mut seps: Vec<String> = Vec::new();
        let mut i: usize = 0;
        while i < cgl
            invariant
                0 <= i <= cgl,
                cgl == groups.len(),
                groups == column_groups.deep_view(),
                groups.len() >= 1,
                forall|k: int|
                    0 <= k < groups.len() ==> spec_group_width(#[trigger] groups[k])
                        == spec_group_width(groups[0]),
                forall|k: int|
                    0 <= k < groups.len() ==> spec_group_width(#[trigger] groups[k]) <= usize::MAX,
                forall|k: int| 0 <= k < groups.len() ==> (#[trigger] groups[k]).len() >= 1,
                seps@.len() == i,
                forall|k: int|
                    0 <= k < i ==> (#[trigger] seps@[k])@ == live_mid_text(groups, k),
            decreases cgl - i,
        {
            proof {
                reveal_strlit("├");
                reveal_strlit("┤");
                reveal_strlit("─");
                reveal_strlit("╌");
                reveal_strlit("┬");
                reveal_strlit("┴");
                reveal_strlit("┼");
                assert(column_groups.deep_view()[i as int] == column_groups@[i as int].deep_view());
                assert(column_groups@[i as int].deep_view() =~= column_groups@[i as int]@);
            }
            let prev = if i == 0 {
                cgl - 1
            } else {
                i - 1
            };
            proof {
                assert(prev as int == prev_group(groups, i as int));
                assert(column_groups.deep_view()[prev as int] == column_groups@[
                    prev as int
                ].deep_view());
                assert(column_groups@[prev as int].deep_view() =~= column_groups@[prev as int]@);
            }
            let s = if i == 0 {
                make_separator(
                    column_groups[prev].as_slice(),
                    column_groups[i].as_slice(),
                    "├",
                    "─",
                    "┴",
                    "┬",
                    "┼",
                    "┤",
                )
            } else {
                make_separator(
                    column_groups[prev].as_slice(),
                    column_groups[i].as_slice(),
                    "├",
                    "╌",
                    "┴",
                    "┬",
                    "┼",
                    "┤",
                )
            };
            seps.push(s);
            i = i + 1;
        }
        proof {
            reveal_strlit("┌");
            reveal_strlit("┐");
            reveal_strlit("└");
            reveal_strlit("┘");
            reveal_strlit("─");
            reveal_strlit("┬");
            reveal_strlit("┴");
            assert(column_groups.deep_view()[0] == column_groups@[0].deep_view());
            assert(column_groups@[0].deep_view() =~= column_groups@[0]@);
            assert(column_groups.deep_view()[cgl - 1] == column_groups@[cgl - 1].deep_view());
            assert(column_groups@[cgl - 1].deep_view() =~= column_groups@[cgl - 1]@);
        }
        let head_separator = make_separator(
            column_groups[0].as_slice(),
            column_groups[0].as_slice(),
            "┌",
            "─",
            "─",
            "┬",
            "┬",
            "┐",
        );
        let end_separator = make_separator(
            column_groups[cgl - 1].as_slice(),
            column_groups[cgl - 1].as_slice(),
            "└",
            "─",
            "┴",
            "─",
            "┴",
            "┘",
        );
        let t = LiveTable {
            column_groups,
            current_cgroup: 0,
            column_group_separators: seps,
            head_separator,
            end_separator,
            line: Vec::new(),
            table_started: false,
            history: Ghost(Seq::empty()),
        };
        proof {
            assert(t.line.deep_view() =~= Seq::<Seq<char>>::empty());
        }
        t
    }

    /// Perform one push and return the text it renders: empty while the cell
    /// only joins the buffer, separator plus block on a flush.  Nothing is
    /// written to the sink.
    pub fn push_rendered(&mut self, x: String) -> (out: String)
        requires
            old(self).wf(),
        ensures
            final(self).wf(),
            final(self).abs() == live_step(old(self).abs(), x@).0,
            out@ == live_step(old(self).abs(), x@).1,
            final(self).emitted() == old(self).emitted() + out@,
            final(self).groups() == old(self).groups(),
    {
        let ghost pre = self.abs();
        let ghost step = live_step(pre, x@);
        let ghost xv = x@;
        self.line.push(x);
        proof {
            assert(self.line.deep_view() =~~= pre.pending.push(xv));
        }
        if self.line.len() == self.column_groups[self.current_cgroup].len() {
            let mut out: String;
            if !self.table_started {
                self.table_started = true;
                out = self.head_separator.clone();
            } else {
                out = self.column_group_separators[self.current_cgroup].clone();
            }
            proof {
                reveal_strlit("│");
                assert(self.column_groups.deep_view()[pre.cursor]
                    == self.column_groups@[pre.cursor].deep_view());
                assert(self.column_groups@[pre.cursor].deep_view()
                    =~= self.column_groups@[pre.cursor]@);
            }
            let block = render_block(
                &self.line,
                self.column_groups[self.current_cgroup].as_slice(),
                "│",
                "│",
            );
            out.append(block.as_str());
            self.line.clear();
            let glen = self.column_groups.len();
            proof {
                assert(self.current_cgroup < glen);
            }
            let next = self.current_cgroup + 1;
            self.current_cgroup = if next == glen {
                0
            } else {
                next
            };
            proof {
                assert(self.line.deep_view() =~= Seq::<Seq<char>>::empty());
            }
            self.history = Ghost(self.history@ + out@);
            proof {
                assert(self.abs() =~= step.0);
                assert(out@ == step.1);
            }
            out
        } else {
            proof {
                assert(self.abs() =~= step.0);
                assert(self.history@ + Seq::<char>::empty() =~= self.history@);
            }
            String::new()
        }
    }

    /// Push one cell.  The state change is exactly one [`live_step`]; when
    /// the buffer fills the current group, the rendered text is handed to
    /// the standard output and the sink's verdict is returned.  A push that
    /// only buffers performs no output and always succeeds.
    pub fn push(&mut self, x: String) -> (r: Result<(), std::io::Error>)
        requires
            old(self).wf(),
        ensures
            final(self).wf(),
            final(self).abs() == live_step(old(self).abs(), x@).0,
            final(self).emitted() == old(self).emitted() + live_step(old(self).abs(), x@).1,
            final(self).groups() == old(self).groups(),
            old(self).abs().pending.len() + 1 != old(self).abs().groups[old(self).abs().cursor].len()
                ==> r is Ok,
    {
        proof {
            let groups = self.column_groups.deep_view();
            let g = groups[self.current_cgroup as int];
            crate::planner::lemma_seq_sum_nonneg(g);
            assert(spec_group_width(g) <= usize::MAX);
            assert(self.line@.len() < g.len());
            assert(g.len() < usize::MAX);
        }
        let will_flush = self.line.len() + 1 == self.column_groups[self.current_cgroup].len();
        let out = self.push_rendered(x);
        if will_flush {
            write_stdout(out.as_str())
        } else {
            Ok(())
        }
    }

    /// Perform the closing transition and return the text it renders: the
    /// end separator if the table was started, nothing otherwise.
    pub fn end_table_rendered(&mut self) -> (out: String)
        requires
            old(self).wf(),
        ensures
            final(self).wf(),
            final(self).abs() == live_end_step(old(self).abs()).0,
            out@ == live_end_step(old(self).abs()).1,
            final(self).emitted() == old(self).emitted() + out@,
            final(self).groups() == old(self).groups(),
    {
        if self.table_started {
            self.table_started = false;
            let out = self.end_separator.clone();
            self.history = Ghost(self.history@ + out@);
            proof {
                assert(self.abs() =~= live_end_step(LiveState { started: true, ..self.abs() }).0);
            }
            out
        } else {
            proof {
                assert(self.history@ + Seq::<char>::empty() =~= self.history@);
            }
            String::new()
        }
    }

    /// Close the table: if a block has been printed since the last close,
    /// the end separator is handed to the standard output and the started
    /// flag is cleared; otherwise nothing happens and the call succeeds.
    pub fn end_table(&mut self) -> (r: Result<(), std::io::Error>)
        requires
            old(self).wf(),
        ensures
            final(self).wf(),
            final(self).abs() == live_end_step(old(self).abs()).0,
            final(self).emitted() == old(self).emitted() + live_end_step(old(self).abs()).1,
            final(self).groups() == old(self).groups(),
            !old(self).abs().started ==> r is Ok,
    {
        let was_started = self.table_started;
        let out = self.end_table_rendered();
        if was_started {
            write_stdout(out.as_str())
        } else {
            Ok(())
        }
    }

    /// Whether a block has been printed since the last `end_table`.
    pub fn table_started(&mut self) -> (b: bool)
        ensures
            *final(self) == *old(self),
            b == old(self).abs().started,
    {
        self.table_started
    }
}

/// Round-trip law, general fill step: pushing exactly as many cells as the
/// single group still needs emits nothing until the last push, which emits
/// one separator and one block built from all buffered cells.
proof fn lemma_live_fill(s: LiveState, cells: Seq<Seq<char>>)
    requires
        live_state_wf(s),
        s.groups.len() == 1,
        s.cursor == 0,
        cells.len() >= 1,
        s.pending.len() + cells.len() == s.groups[0].len(),
    ensures
        live_run(s, cells).1 == (if s.started {
            live_mid_text(s.groups, 0)
        } else {
            live_head_text(s.groups)
        }) + live_block_text(s.pending + cells, s.groups[0]),
        live_run(s, cells).0 == (LiveState {
            groups: s.groups,
            cursor: 0,
            pending: Seq::empty(),
            started: true,
        }),
    decreases cells.len(),
{
    let first = live_step(s, cells[0]);
    if cells.len() == 1 {
        assert(s.pending.push(cells[0]) =~= s.pending + cells);
        assert(live_run(first.0, cells.drop_first()) == (first.0, Seq::<char>::empty()));
        assert(first.1 + Seq::<char>::empty() =~= first.1);
        assert(live_run(s, cells).0 =~= LiveState {
            groups: s.groups,
            cursor: 0,
            pending: Seq::empty(),
            started: true,
        });
    } else {
        assert(s.pending.push(cells[0]).len() < s.groups[0].len());
        assert(first.1 =~= Seq::<char>::empty());
        lemma_live_fill(first.0, cells.drop_first());
        assert(first.0.pending + cells.drop_first() =~= s.pending + cells);
        assert(first.1 + live_run(first.0, cells.drop_first()).1 =~= live_run(
            first.0,
            cells.drop_first(),
        ).1);
        assert(first.0.started == s.started);
    }
}

/// Round-trip law: on a fresh single-group table, pushing exactly the
/// group's column count of cells emits exactly one head separator and one
/// block, and closing the table then emits exactly one end separator; no
/// mid separator ever appears.
pub proof fn lemma_live_single_block_round_trip(s: LiveState, cells: Seq<Seq<char>>)
    requires
        live_state_wf(s),
        s.groups.len() == 1,
        s.cursor == 0,
        s.pending.len() == 0,
        !s.started,
        cells.len() == s.groups[0].len(),
    ensures
        live_run(s, cells).1 == live_head_text(s.groups) + live_block_text(cells, s.groups[0]),
        live_run(s, cells).0.started,
        live_end_step(live_run(s, cells).0).1 == live_end_text(s.groups),
        !live_end_step(live_run(s, cells).0).0.started,
{
    lemma_live_fill(s, cells);
    assert(s.pending + cells =~= cells);
}

/// Restart law: after a close the started flag is down, so the next flush
/// is preceded by the head separator again, not by a mid separator.
pub proof fn lemma_live_restart_after_close(s: LiveState, cell: Seq<char>)
    requires
        live_state_wf(s),
        !s.started,
        s.pending.len() + 1 == s.groups[s.cursor].len(),
    ensures
        live_step(s, cell).1 == live_head_text(s.groups) + live_block_text(
            s.pending.push(cell),
            s.groups[s.cursor],
        ),
        live_step(s, cell).0.started,
{
}

} // verus!
