//! Horizontal separator lines: one row of box-drawing glyphs whose junctions
//! reflect the column boundaries of the group above and the group below.

use vstd::prelude::*;

use crate::planner::seq_sum;
use crate::planner::spec_group_width;

verus! {

/// The glyph set of one separator, each glyph a single character.
pub ghost struct SepGlyphs {
    pub start: Seq<char>,
    pub line: Seq<char>,
    pub only_above: Seq<char>,
    pub only_below: Seq<char>,
    pub both: Seq<char>,
    pub end: Seq<char>,
}

pub open spec fn glyphs(
    start: Seq<char>,
    line: Seq<char>,
    only_above: Seq<char>,
    only_below: Seq<char>,
    both: Seq<char>,
    end: Seq<char>,
) -> SepGlyphs {
    SepGlyphs { start, line, only_above, only_below, both, end }
}

pub open spec fn glyphs_wf(g: SepGlyphs) -> bool {
    &&& g.start.len() == 1
    &&& g.line.len() == 1
    &&& g.only_above.len() == 1
    &&& g.only_below.len() == 1
    &&& g.both.len() == 1
    &&& g.end.len() == 1
}

/// The interior positions of a rendered group, `true` exactly where one
/// column ends and the next begins.
pub open spec fn ticks_row(g: Seq<usize>) -> Seq<bool>
    decreases g.len(),
{
    if g.len() <= 1 {
        Seq::new((if g.len() == 1 {
            g[0] as nat
        } else {
            0
        }), |i: int| false)
    } else {
        Seq::new(g[0] as nat, |i: int| false) + seq![true] + ticks_row(g.drop_first())
    }
}

/// The junction character drawn over a position, given whether the groups
/// above and below have a boundary there.
pub open spec fn cross_char(ta: bool, tb: bool, g: SepGlyphs) -> char {
    if ta && tb {
        g.both[0]
    } else if ta {
        g.only_above[0]
    } else if tb {
        g.only_below[0]
    } else {
        g.line[0]
    }
}

/// The interior of a separator: one junction character per position.
pub open spec fn merge_row(ta: Seq<bool>, tb: Seq<bool>, g: SepGlyphs) -> Seq<char> {
    Seq::new(ta.len(), |i: int| cross_char(ta[i], tb[i], g))
}

/// A full separator line: start glyph, merged interior, end glyph, newline.
pub open spec fn spec_separator(above: Seq<usize>, below: Seq<usize>, g: SepGlyphs) -> Seq<char> {
    g.start + merge_row(ticks_row(above), ticks_row(below), g) + g.end + seq!['\n']
}

pub proof fn lemma_ticks_row_len(g: Seq<usize>)
    requires
        g.len() >= 1,
    ensures
        ticks_row(g).len() == spec_group_width(g) - 2,
    decreases g.len(),
{
    if g.len() == 1 {
        assert(g.drop_first() =~= Seq::<usize>::empty());
        assert(seq_sum(g) == g[0] + seq_sum(g.drop_first()));
    } else {
        lemma_ticks_row_len(g.drop_first());
        assert(seq_sum(g) == g[0] + seq_sum(g.drop_first()));
    }
}

/// Separator law: over two identical groups every interior position shows
/// either the plain line glyph or the both-boundaries junction; the one-sided
/// junction glyphs never appear.
pub proof fn lemma_separator_symmetric(g: Seq<usize>, gl: SepGlyphs)
    requires
        g.len() >= 1,
        glyphs_wf(gl),
    ensures
        forall|i: int|
            0 <= i < merge_row(ticks_row(g), ticks_row(g), gl).len() ==> #[trigger] merge_row(
                ticks_row(g),
                ticks_row(g),
                gl,
            )[i] == (if ticks_row(g)[i] {
                gl.both[0]
            } else {
                gl.line[0]
            }),
{
}

/// The boundary row of one group, as an executable vector.
fn ticks_of(g: &[usize]) -> (t: Vec<bool>)
    requires
        g@.len() >= 1,
        spec_group_width(g@) <= usize::MAX,
    ensures
        t@ == ticks_row(g@),
        t@.len() == spec_group_width(g@) - 2,
    decreases g@.len(),
{
    let mut t: Vec<bool> = Vec::new();
    let mut k: usize = 0;
    proof {
        lemma_ticks_row_len(g@);
        assert(ticks_row(g@.skip(0)) == ticks_row(g@)) by {
            assert(g@.skip(0) =~= g@);
        }
        assert(t@ + ticks_row(g@.skip(0)) =~= ticks_row(g@));
    }
    while k < g.len()
        invariant
            0 <= k <= g@.len(),
            g@.len() >= 1,
            spec_group_width(g@) <= usize::MAX,
            t@ + ticks_row(g@.skip(k as int)) == ticks_row(g@),
        decreases g@.len() - k,
    {
        let ghost rem = g@.skip(k as int);
        let ghost before = t@;
        let w = g[k];
        let mut j: usize = 0;
        while j < w
            invariant
                0 <= j <= w,
                t@ == before + Seq::new(j as nat, |i: int| false),
            decreases w - j,
        {
            t.push(false);
            proof {
                assert(t@ =~= before + Seq::new(j as nat + 1, |i: int| false));
            }
            j = j + 1;
        }
        if k + 1 < g.len() {
            t.push(true);
            proof {
                assert(rem.len() >= 2);
                assert(rem[0] == g@[k as int]);
                assert(rem.drop_first() =~= g@.skip(k as int + 1));
                assert(ticks_row(rem) == Seq::new(rem[0] as nat, |i: int| false) + seq![true]
                    + ticks_row(g@.skip(k as int + 1)));
                assert(t@ =~= before + Seq::new(rem[0] as nat, |i: int| false) + seq![true]);
                assert(t@ + ticks_row(g@.skip(k as int + 1)) =~= before + ticks_row(rem));
            }
        } else {
            proof {
                assert(rem.len() == 1);
                assert(rem[0] == g@[k as int]);
                assert(ticks_row(rem) == Seq::new(rem[0] as nat, |i: int| false));
                assert(t@ =~= before + ticks_row(rem));
                assert(g@.skip(k as int + 1) =~= Seq::<usize>::empty());
                assert(ticks_row(g@.skip(k as int + 1)) =~= Seq::<bool>::empty());
                assert(t@ + ticks_row(g@.skip(k as int + 1)) =~= t@);
            }
        }
        k = k + 1;
    }
    proof {
        assert(g@.skip(g@.len() as int) =~= Seq::<usize>::empty());
        assert(ticks_row(g@.skip(g@.len() as int)) =~= Seq::<bool>::empty());
        assert(t@ =~= t@ + ticks_row(g@.skip(g@.len() as int)));
        lemma_ticks_row_len(g@);
    }
    t
}

/// Build the separator between the group `above` and the group `below`.
/// The six glyphs are single characters: the left edge, the plain line, the
/// junction with a boundary only above, only below, in both, and the right
/// edge.
pub fn make_separator(
    above: &[usize],
    below: &[usize],
    start: &str,
    line: &str,
    only_above: &str,
    only_below: &str,
    both: &str,
    end: &str,
) -> (s: String)
    requires
        above@.len() >= 1,
        below@.len() >= 1,
        spec_group_width(above@) == spec_group_width(below@),
        spec_group_width(above@) <= usize::MAX,
        start@.len() == 1,
        line@.len() == 1,
        only_above@.len() == 1,
        only_below@.len() == 1,
        both@.len() == 1,
        end@.len() == 1,
    ensures
        s@ == spec_separator(
            above@,
            below@,
            glyphs(start@, line@, only_above@, only_below@, both@, end@),
        ),
{
    let ghost gl = glyphs(start@, line@, only_above@, only_below@, both@, end@);
    let ghost interior = merge_row(ticks_row(above@), ticks_row(below@), gl);
    let ta = ticks_of(above);
    let tb = ticks_of(below);
    let mut s = String::new();
    s.append(start);
    proof {
        assert(start@ =~= seq![start@[0]]);
        assert(s@ + interior.take(0) =~= s@);
    }
    let ghost head = s@;
    let mut p: usize = 0;
    while p < ta.len()
        invariant
            0 <= p <= ta@.len(),
            ta@ == ticks_row(above@),
            tb@ == ticks_row(below@),
            ta@.len() == tb@.len(),
            interior == merge_row(ticks_row(above@), ticks_row(below@), gl),
            glyphs_wf(gl),
            gl == glyphs(start@, line@, only_above@, only_below@, both@, end@),
            s@ == head + interior.take(p as int),
        decreases ta@.len() - p,
    {
        let a = ta[p];
        let b = tb[p];
        if a && b {
            s.append(both);
        } else if a {
            s.append(only_above);
        } else if b {
            s.append(only_below);
        } else {
            s.append(line);
        }
        proof {
            assert(both@ =~= seq![both@[0]]);
            assert(only_above@ =~= seq![only_above@[0]]);
            assert(only_below@ =~= seq![only_below@[0]]);
            assert(line@ =~= seq![line@[0]]);
            assert(interior[p as int] == cross_char(ta@[p as int], tb@[p as int], gl));
            assert(interior.take(p as int).push(interior[p as int]) =~= interior.take(
                p as int + 1,
            ));
            assert(s@ =~= head + interior.take(p as int + 1));
        }
        p = p + 1;
    }
    proof {
        assert(interior.take(interior.len() as int) =~= interior);
    }
    s.append(end);
    s.append("\n");
    proof {
        reveal_strlit("\n");
        assert("\n"@ =~= seq!['\n']);
        assert(end@ =~= seq![end@[0]]);
        assert(s@ =~= spec_separator(above@, below@, gl));
    }
    s
}

} // verus!
