//! Cell wrapping and block rendering: each buffered row is word-wrapped per
//! column, and the sub-lines are printed centered inside their columns.

use vstd::prelude::*;
use vstd::string::StrSliceExecFns;
use vstd::string::StringExecFns;

use crate::planner::seq_sum;
use crate::planner::spec_group_width;

verus! {

/// The lines that word-wrapping a cell text to a column width yields.
pub uninterp spec fn wrapped_lines(text: Seq<char>, width: int) -> Seq<Seq<char>>;

/// Relies on textwrap::wrap with its default options: the resulting lines
/// are a function of the text and the width alone; at least one line comes
/// back, and no inserted or kept character is a newline, since the input is
/// split at newlines first and the default word splitter adds nothing.
#[verifier::external_body]
pub(crate) fn wrap_cell(text: &str, width: usize) -> (lines: Vec<String>)
    requires
        width >= 1,
    ensures
        lines.deep_view() == wrapped_lines(text@, width as int),
        lines@.len() >= 1,
        forall|i: int, j: int|
            0 <= i < lines@.len() && 0 <= j < lines@[i]@.len() ==> lines@[i]@[j] != '\n',
{
    textwrap::wrap(text, width).into_iter().map(|line| line.into_owned()).collect()
}

/// A run of space characters.
pub open spec fn spaces(n: int) -> Seq<char> {
    Seq::new(if n >= 0 {
        n as nat
    } else {
        0
    }, |i: int| ' ')
}

/// A cell sub-line centered in its column: the slack is split, with the odd
/// space going to the right; content at least as wide as the column is kept
/// unchanged.
pub open spec fn spec_centered(content: Seq<char>, width: int) -> Seq<char> {
    if content.len() >= width {
        content
    } else {
        let pad = width - content.len();
        spaces(pad / 2) + content + spaces(pad - pad / 2)
    }
}

/// The wrapped sub-lines of every cell of a row.
pub open spec fn wraps_of(cells: Seq<Seq<char>>, widths: Seq<usize>) -> Seq<Seq<Seq<char>>> {
    Seq::new(cells.len(), |i: int| wrapped_lines(cells[i], widths[i] as int))
}

/// The number of sub-lines of the tallest cell of the row.
pub open spec fn max_line_count(wraps: Seq<Seq<Seq<char>>>) -> int
    decreases wraps.len(),
{
    if wraps.len() == 0 {
        0
    } else {
        let rest = max_line_count(wraps.drop_first());
        if wraps[0].len() >= rest {
            wraps[0].len() as int
        } else {
            rest
        }
    }
}

/// One rendered row line from column `i` on: each column's sub-line `l`
/// centered, columns separated by the field glyph, the line closed by the
/// delimiter glyph and a newline.
pub open spec fn spec_row_from(
    wraps: Seq<Seq<Seq<char>>>,
    widths: Seq<usize>,
    l: int,
    i: int,
    fsep: Seq<char>,
    delim: Seq<char>,
) -> Seq<char>
    decreases widths.len() - i,
{
    if i < 0 || i >= widths.len() {
        Seq::empty()
    } else {
        let content = if 0 <= i < wraps.len() && 0 <= l < wraps[i].len() {
            wraps[i][l]
        } else {
            Seq::empty()
        };
        let cell = spec_centered(content, widths[i] as int);
        if i + 1 == widths.len() {
            cell + delim + seq!['\n']
        } else {
            cell + fsep + spec_row_from(wraps, widths, l, i + 1, fsep, delim)
        }
    }
}

/// The rendered row lines `l` to `n`, each opened by the delimiter glyph.
pub open spec fn spec_rows(
    wraps: Seq<Seq<Seq<char>>>,
    widths: Seq<usize>,
    l: int,
    n: int,
    fsep: Seq<char>,
    delim: Seq<char>,
) -> Seq<char>
    decreases n - l,
{
    if l < 0 || l >= n {
        Seq::empty()
    } else {
        delim + spec_row_from(wraps, widths, l, 0, fsep, delim) + spec_rows(
            wraps,
            widths,
            l + 1,
            n,
            fsep,
            delim,
        )
    }
}

/// The full rendered block of one buffered row of cells.
pub open spec fn spec_block(
    cells: Seq<Seq<char>>,
    widths: Seq<usize>,
    fsep: Seq<char>,
    delim: Seq<char>,
) -> Seq<char> {
    let wraps = wraps_of(cells, widths);
    spec_rows(wraps, widths, 0, max_line_count(wraps), fsep, delim)
}

/// `b` consists of exactly `n` lines, each of exactly `w` characters other
/// than newline, each closed by one newline.
pub open spec fn is_uniform_lines(b: Seq<char>, n: int, w: int) -> bool
    decreases n,
{
    if n <= 0 {
        b.len() == 0
    } else {
        &&& b.len() >= w + 1
        &&& (forall|j: int| 0 <= j < w ==> b[j] != '\n')
        &&& b[w] == '\n'
        &&& is_uniform_lines(b.skip(w + 1), n - 1, w)
    }
}

proof fn lemma_centered_props(content: Seq<char>, width: int)
    requires
        content.len() <= width,
        forall|j: int| 0 <= j < content.len() ==> content[j] != '\n',
    ensures
        spec_centered(content, width).len() == width,
        forall|j: int|
            0 <= j < width ==> #[trigger] spec_centered(content, width)[j] != '\n',
{
}

proof fn lemma_row_from_uniform(
    wraps: Seq<Seq<Seq<char>>>,
    widths: Seq<usize>,
    l: int,
    i: int,
    fsep: Seq<char>,
    delim: Seq<char>,
)
    requires
        0 <= i < widths.len(),
        fsep.len() == 1,
        delim.len() == 1,
        fsep[0] != '\n',
        delim[0] != '\n',
        forall|a: int, b: int|
            0 <= a < wraps.len() && 0 <= b < wraps[a].len() && a < widths.len() ==> (
            #[trigger] wraps[a][b]).len() <= widths[a],
        forall|a: int, b: int, c: int|
            0 <= a < wraps.len() && 0 <= b < wraps[a].len() && 0 <= c < wraps[a][b].len()
                ==> #[trigger] wraps[a][b][c] != '\n',
        wraps.len() <= widths.len(),
    ensures
        spec_row_from(wraps, widths, l, i, fsep, delim).len() == seq_sum(widths.skip(i)) + (
        widths.len() - i) + 1,
        forall|j: int|
            0 <= j < spec_row_from(wraps, widths, l, i, fsep, delim).len() - 1
                ==> #[trigger] spec_row_from(wraps, widths, l, i, fsep, delim)[j] != '\n',
        spec_row_from(wraps, widths, l, i, fsep, delim).last() == '\n',
    decreases widths.len() - i,
{
    let row = spec_row_from(wraps, widths, l, i, fsep, delim);
    let content = if 0 <= i < wraps.len() && 0 <= l < wraps[i].len() {
        wraps[i][l]
    } else {
        Seq::<char>::empty()
    };
    let cell = spec_centered(content, widths[i] as int);
    lemma_centered_props(content, widths[i] as int);
    assert(widths.skip(i)[0] == widths[i]);
    assert(widths.skip(i).drop_first() =~= widths.skip(i + 1));
    assert(seq_sum(widths.skip(i)) == widths[i] + seq_sum(widths.skip(i + 1)));
    if i + 1 == widths.len() {
        assert(widths.skip(i + 1) =~= Seq::<usize>::empty());
        assert(row == cell + delim + seq!['\n']);
    } else {
        lemma_row_from_uniform(wraps, widths, l, i + 1, fsep, delim);
        let rest = spec_row_from(wraps, widths, l, i + 1, fsep, delim);
        assert(row == cell + fsep + rest);
        assert(row.last() == rest.last());
    }
}

proof fn lemma_rows_uniform(
    wraps: Seq<Seq<Seq<char>>>,
    widths: Seq<usize>,
    l: int,
    n: int,
    fsep: Seq<char>,
    delim: Seq<char>,
)
    requires
        0 <= l,
        widths.len() >= 1,
        fsep.len() == 1,
        delim.len() == 1,
        fsep[0] != '\n',
        delim[0] != '\n',
        forall|a: int, b: int|
            0 <= a < wraps.len() && 0 <= b < wraps[a].len() && a < widths.len() ==> (
            #[trigger] wraps[a][b]).len() <= widths[a],
        forall|a: int, b: int, c: int|
            0 <= a < wraps.len() && 0 <= b < wraps[a].len() && 0 <= c < wraps[a][b].len()
                ==> #[trigger] wraps[a][b][c] != '\n',
        wraps.len() <= widths.len(),
    ensures
        is_uniform_lines(
            spec_rows(wraps, widths, l, n, fsep, delim),
            n - l,
            spec_group_width(widths),
        ),
    decreases n - l,
{
    let w = spec_group_width(widths);
    let b = spec_rows(wraps, widths, l, n, fsep, delim);
    if l >= n {
        assert(n - l <= 0);
    } else {
        lemma_row_from_uniform(wraps, widths, l, 0, fsep, delim);
        lemma_rows_uniform(wraps, widths, l + 1, n, fsep, delim);
        let row = spec_row_from(wraps, widths, l, 0, fsep, delim);
        assert(widths.skip(0) =~= widths);
        assert(row.len() == w);
        assert(b == delim + row + spec_rows(wraps, widths, l + 1, n, fsep, delim));
        assert(b[w as int] == row[w - 1]);
        assert(row[w - 1] == row.last());
        assert(b.skip(w + 1) =~= spec_rows(wraps, widths, l + 1, n, fsep, delim));
        assert forall|j: int| 0 <= j < w implies b[j] != '\n' by {
            if j >= 1 {
                assert(b[j] == row[j - 1]);
                assert(row[j - 1] != '\n');
            }
        }
        assert(is_uniform_lines(b, n - l, w));
    }
}

/// Block law: when every wrapped sub-line fits inside its column, the
/// rendered block consists of lines of one identical total width, the
/// group display width of the column widths.
pub proof fn lemma_block_lines_uniform(
    wraps: Seq<Seq<Seq<char>>>,
    widths: Seq<usize>,
    fsep: Seq<char>,
    delim: Seq<char>,
)
    requires
        widths.len() >= 1,
        wraps.len() <= widths.len(),
        fsep.len() == 1,
        delim.len() == 1,
        fsep[0] != '\n',
        delim[0] != '\n',
        forall|a: int, b: int|
            0 <= a < wraps.len() && 0 <= b < wraps[a].len() && a < widths.len() ==> (
            #[trigger] wraps[a][b]).len() <= widths[a],
        forall|a: int, b: int, c: int|
            0 <= a < wraps.len() && 0 <= b < wraps[a].len() && 0 <= c < wraps[a][b].len()
                ==> #[trigger] wraps[a][b][c] != '\n',
    ensures
        is_uniform_lines(
            spec_rows(wraps, widths, 0, max_line_count(wraps), fsep, delim),
            max_line_count(wraps),
            spec_group_width(widths),
        ),
{
    lemma_rows_uniform(wraps, widths, 0, max_line_count(wraps), fsep, delim);
}

/// Center `content` inside a column of `width` characters, the odd space on
/// the right; wider content is returned unchanged.
pub fn centered(content: &str, width: usize) -> (s: String)
    ensures
        s@ == spec_centered(content@, width as int),
{
    let n = content.unicode_len();
    if n >= width {
        String::from_str(content)
    } else {
        let pad = width - n;
        let left = pad / 2;
        let right = pad - left;
        let mut s = String::new();
        proof {
            reveal_strlit(" ");
            assert(" "@ =~= seq![' ']);
            assert(s@ =~= spaces(0));
        }
        let mut i: usize = 0;
        while i < left
            invariant
                0 <= i <= left,
                s@ == spaces(i as int),
            decreases left - i,
        {
            s.append(" ");
            proof {
                reveal_strlit(" ");
                assert(" "@ =~= seq![' ']);
                assert(spaces(i as int).push(' ') =~= spaces(i as int + 1));
            }
            i = i + 1;
        }
        s.append(content);
        let ghost mid = s@;
        let mut j: usize = 0;
        proof {
            assert(mid + spaces(0) =~= mid);
        }
        while j < right
            invariant
                0 <= j <= right,
                s@ == mid + spaces(j as int),
            decreases right - j,
        {
            s.append(" ");
            proof {
                reveal_strlit(" ");
                assert(" "@ =~= seq![' ']);
                assert((mid + spaces(j as int)).push(' ') =~= mid + spaces(j as int + 1));
            }
            j = j + 1;
        }
        proof {
            assert(s@ =~= spec_centered(content@, width as int));
        }
        s
    }
}

/// Render the buffered cells of one row as a block: every cell is wrapped to
/// its column width, and each sub-line is printed centered, the columns
/// separated by `fsep`, each line closed by `delim` and a newline.  Columns
/// beyond the buffered cells are rendered empty.
pub fn render_block(cells: &Vec<String>, widths: &[usize], fsep: &str, delim: &str) -> (s: String)
    requires
        cells@.len() >= 1,
        cells@.len() <= widths@.len(),
        forall|i: int| 0 <= i < widths@.len() ==> widths@[i] >= 1,
        fsep@.len() == 1,
        delim@.len() == 1,
    ensures
        s@ == spec_block(cells.deep_view(), widths@, fsep@, delim@),
{
    let ghost cw = wraps_of(cells.deep_view(), widths@);
    let mut wraps: Vec<Vec<String>> = Vec::new();
    let mut i: usize = 0;
    proof {
        assert(wraps.deep_view() =~= cw.take(0));
    }
    while i < cells.len()
        invariant
            0 <= i <= cells@.len(),
            cells@.len() <= widths@.len(),
            forall|k: int| 0 <= k < widths@.len() ==> widths@[k] >= 1,
            cw == wraps_of(cells.deep_view(), widths@),
            wraps.deep_view() == cw.take(i as int),
            wraps@.len() == i,
            forall|a: int, b: int|
                0 <= a < wraps@.len() && 0 <= b < wraps@[a]@.len() ==> (#[trigger] wraps@[a]@[b])@.len()
                    >= 0,
            forall|a: int| 0 <= a < wraps@.len() ==> (#[trigger] wraps@[a])@.len() >= 1,
        decreases cells@.len() - i,
    {
        let lines = wrap_cell(cells[i].as_str(), widths[i]);
        let ghost prev = wraps.deep_view();
        let ghost lv = lines.deep_view();
        wraps.push(lines);
        proof {
            assert(wraps.deep_view() =~~= prev.push(lv));
            assert(cells.deep_view()[i as int] == cells@[i as int]@);
            assert(cw[i as int] == wrapped_lines(cells@[i as int]@, widths@[i as int] as int));
            assert(cw.take(i as int).push(cw[i as int]) =~= cw.take(i as int + 1));
        }
        i = i + 1;
    }
    proof {
        assert(cw.take(cw.len() as int) =~= cw);
        assert(wraps.deep_view() == cw);
    }
    // The tallest cell decides how many sub-lines the block has.
    let mut nl: usize = 0;
    let mut i: usize = 0;
    proof {
        assert(cw.skip(0) =~= cw);
    }
    while i < wraps.len()
        invariant
            0 <= i <= wraps@.len(),
            wraps.deep_view() == cw,
            wraps@.len() == cw.len(),
            max_line_count(cw) == if nl as int >= max_line_count(cw.skip(i as int)) {
                nl as int
            } else {
                max_line_count(cw.skip(i as int))
            },
        decreases wraps@.len() - i,
    {
        proof {
            let tail = cw.skip(i as int);
            assert(tail[0] == cw[i as int]);
            assert(tail.drop_first() =~= cw.skip(i as int + 1));
            assert(wraps.deep_view()[i as int] == wraps@[i as int].deep_view());
            assert(wraps@[i as int].deep_view().len() == wraps@[i as int]@.len());
        }
        if wraps[i].len() > nl {
            nl = wraps[i].len();
        }
        i = i + 1;
    }
    proof {
        assert(cw.skip(cw.len() as int) =~= Seq::<Seq<Seq<char>>>::empty());
        assert(nl as int == max_line_count(cw));
    }
    // Emit the sub-lines.
    let ghost block = spec_rows(cw, widths@, 0, nl as int, fsep@, delim@);
    let mut s = String::new();
    let mut l: usize = 0;
    proof {
        assert(s@ + spec_rows(cw, widths@, 0, nl as int, fsep@, delim@) =~= block);
    }
    while l < nl
        invariant
            0 <= l <= nl,
            wraps.deep_view() == cw,
            wraps@.len() == cw.len(),
            cells@.len() <= widths@.len(),
            widths@.len() >= 1,
            wraps@.len() == cells@.len(),
            forall|k: int| 0 <= k < widths@.len() ==> widths@[k] >= 1,
            fsep@.len() == 1,
            delim@.len() == 1,
            block == spec_rows(cw, widths@, 0, nl as int, fsep@, delim@),
            s@ + spec_rows(cw, widths@, l as int, nl as int, fsep@, delim@) == block,
        decreases nl - l,
    {
        s.append(delim);
        let ghost base = s@;
        let mut c: usize = 0;
        proof {
            assert(base + spec_row_from(cw, widths@, l as int, 0, fsep@, delim@) =~= base
                + spec_row_from(cw, widths@, l as int, c as int, fsep@, delim@));
        }
        while c < widths.len()
            invariant
                0 <= c <= widths@.len(),
                widths@.len() >= 1,
                wraps.deep_view() == cw,
                wraps@.len() == cw.len(),
                forall|k: int| 0 <= k < widths@.len() ==> widths@[k] >= 1,
                fsep@.len() == 1,
                delim@.len() == 1,
                s@ + spec_row_from(cw, widths@, l as int, c as int, fsep@, delim@) == base
                    + spec_row_from(cw, widths@, l as int, 0, fsep@, delim@),
                c == widths@.len() ==> s@ == base + spec_row_from(
                    cw,
                    widths@,
                    l as int,
                    0,
                    fsep@,
                    delim@,
                ),
            decreases widths@.len() - c,
    {
            let ghost rowc = spec_row_from(cw, widths@, l as int, c as int, fsep@, delim@);
            let ghost content = if 0 <= c < cw.len() && 0 <= (l as int) < cw[c as int].len() {
                cw[c as int][l as int]
            } else {
                Seq::<char>::empty()
            };
            let piece: String;
            if c < wraps.len() {
                let cell_lines = &wraps[c];
                if l < cell_lines.len() {
                    piece = centered(cell_lines[l].as_str(), widths[c]);
                    proof {
                        assert(wraps.deep_view()[c as int] == wraps@[c as int].deep_view());
                        assert(wraps@[c as int].deep_view()[l as int] == wraps@[c as int]@[l as int]@);
                        assert(content == wraps@[c as int]@[l as int]@);
                    }
                } else {
                    piece = centered("", widths[c]);
                    proof {
                        reveal_strlit("");
                        assert(""@ =~= Seq::<char>::empty());
                        assert(wraps.deep_view()[c as int] == wraps@[c as int].deep_view());
                        assert(cw[c as int].len() == wraps@[c as int]@.len());
                        assert(content =~= Seq::<char>::empty());
                    }
                }
            } else {
                piece = centered("", widths[c]);
                proof {
                    reveal_strlit("");
                    assert(""@ =~= Seq::<char>::empty());
                    assert(content =~= Seq::<char>::empty());
                }
            }
            s.append(piece.as_str());
            if c + 1 == widths.len() {
                s.append(delim);
                s.append("\n");
                proof {
                    reveal_strlit("\n");
                    assert("\n"@ =~= seq!['\n']);
                    assert(rowc == spec_centered(content, widths@[c as int] as int) + delim@
                        + seq!['\n']);
                    assert(spec_row_from(cw, widths@, l as int, c as int + 1, fsep@, delim@)
                        =~= Seq::<char>::empty());
                }
            } else {
                s.append(fsep);
                proof {
                    assert(rowc == spec_centered(content, widths@[c as int] as int) + fsep@
                        + spec_row_from(cw, widths@, l as int, c as int + 1, fsep@, delim@));
                }
            }
            c = c + 1;
        }
        proof {
            assert(spec_rows(cw, widths@, l as int, nl as int, fsep@, delim@) == delim@
                + spec_row_from(cw, widths@, l as int, 0, fsep@, delim@) + spec_rows(
                cw,
                widths@,
                l as int + 1,
                nl as int,
                fsep@,
                delim@,
            ));
        }
        l = l + 1;
    }
    proof {
        assert(spec_rows(cw, widths@, nl as int, nl as int, fsep@, delim@)
            =~= Seq::<char>::empty());
        assert(s@ =~= block);
        assert(block == spec_block(cells.deep_view(), widths@, fsep@, delim@)) by {
            assert(cw.len() == cells.deep_view().len());
        }
    }
    s
}

} // verus!
