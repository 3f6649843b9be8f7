//! Column planning: partition requested column widths into groups that fit a
//! line width, then pad every group to one common display width.

use vstd::prelude::*;

verus! {

/// Sum of a sequence of widths, as a mathematical integer.
pub open spec fn seq_sum(s: Seq<usize>) -> int
    decreases s.len(),
{
    if s.len() == 0 {
        0
    } else {
        s[0] + seq_sum(s.drop_first())
    }
}

/// Display width of a rendered group: the column widths, one separator glyph
/// per column, and the leading separator glyph.
pub open spec fn spec_group_width(g: Seq<usize>) -> int {
    seq_sum(g) + g.len() + 1
}

/// A width clamped to the capacity that remains on the line.
pub open spec fn clamp_width(w: usize, cap: int) -> usize {
    if w <= cap {
        w
    } else {
        cap as usize
    }
}

/// The greedy grouping pass: columns are accumulated into `cur` (whose
/// unclamped running width is `cur_w`) until the next column would overflow
/// the line, at which point the group, if it holds any column yet, is closed
/// and a fresh one is started.  An empty running group is never emitted, so
/// a first column wider than the line is simply clamped.
pub open spec fn spec_groups(req: Seq<usize>, lw: int, cur: Seq<usize>, cur_w: int) -> Seq<
    Seq<usize>,
>
    decreases req.len(),
{
    if req.len() == 0 {
        if cur.len() == 0 {
            Seq::empty()
        } else {
            seq![cur]
        }
    } else {
        let w = req[0];
        if cur_w + w + 1 > lw {
            let rest = spec_groups(req.drop_first(), lw, seq![clamp_width(w, lw - 2)], w + 2);
            if cur.len() == 0 {
                rest
            } else {
                seq![cur] + rest
            }
        } else {
            spec_groups(
                req.drop_first(),
                lw,
                cur.push(clamp_width(w, lw - cur_w - 1)),
                cur_w + w + 1,
            )
        }
    }
}

/// The largest display width among the groups.
pub open spec fn spec_max_width(gs: Seq<Seq<usize>>) -> int
    decreases gs.len(),
{
    if gs.len() == 0 {
        0
    } else {
        let rest = spec_max_width(gs.drop_first());
        if spec_group_width(gs[0]) >= rest {
            spec_group_width(gs[0])
        } else {
            rest
        }
    }
}

/// All slack a group has against the target width goes to its first column.
pub open spec fn spec_pad_first(g: Seq<usize>, target: int) -> Seq<usize> {
    if g.len() == 0 {
        g
    } else {
        let rest = if target >= spec_group_width(g) {
            target - spec_group_width(g)
        } else {
            0
        };
        g.update(0, (g[0] + rest) as usize)
    }
}

/// The full plan: greedy grouping followed by padding every group to the
/// largest group display width.
pub open spec fn spec_plan(req: Seq<usize>, lw: int) -> Seq<Seq<usize>> {
    let gs = spec_groups(req, lw, Seq::empty(), 1);
    gs.map_values(|g: Seq<usize>| spec_pad_first(g, spec_max_width(gs)))
}

pub proof fn lemma_seq_sum_nonneg(s: Seq<usize>)
    ensures
        seq_sum(s) >= 0,
    decreases s.len(),
{
    if s.len() > 0 {
        lemma_seq_sum_nonneg(s.drop_first());
    }
}

pub proof fn lemma_seq_sum_push(s: Seq<usize>, x: usize)
    ensures
        seq_sum(s.push(x)) == seq_sum(s) + x,
    decreases s.len(),
{
    assert(s.push(x)[0] == if s.len() == 0 {
        x
    } else {
        s[0]
    });
    if s.len() == 0 {
        assert(s.push(x).drop_first() =~= Seq::<usize>::empty());
        assert(seq_sum(s.push(x)) == x + seq_sum(Seq::<usize>::empty()));
    } else {
        assert(s.push(x).drop_first() =~= s.drop_first().push(x));
        lemma_seq_sum_push(s.drop_first(), x);
    }
}

pub proof fn lemma_seq_sum_split(s: Seq<usize>, i: int)
    requires
        0 <= i <= s.len(),
    ensures
        seq_sum(s) == seq_sum(s.take(i)) + seq_sum(s.skip(i)),
    decreases i,
{
    if i == 0 {
        assert(s.take(0) =~= Seq::<usize>::empty());
        assert(s.skip(0) =~= s);
    } else {
        lemma_seq_sum_split(s, i - 1);
        assert(s.take(i) =~= s.take(i - 1).push(s[i - 1]));
        lemma_seq_sum_push(s.take(i - 1), s[i - 1]);
        let tail = s.skip(i - 1);
        assert(tail[0] == s[i - 1]);
        assert(tail.drop_first() =~= s.skip(i));
        assert(seq_sum(tail) == s[i - 1] + seq_sum(s.skip(i)));
    }
}

proof fn lemma_sum_singleton(x: usize)
    ensures
        seq_sum(seq![x]) == x,
        spec_group_width(seq![x]) == x + 2,
{
    assert(seq![x].drop_first() =~= Seq::<usize>::empty());
    assert(seq_sum(seq![x]) == x + seq_sum(Seq::<usize>::empty()));
}

/// Every group produced by the greedy pass is nonempty, and as soon as there
/// is a column or a buffered one, there is at least one group.
proof fn lemma_groups_nonempty(req: Seq<usize>, lw: int, cur: Seq<usize>, cur_w: int)
    ensures
        cur.len() >= 1 || req.len() >= 1 ==> spec_groups(req, lw, cur, cur_w).len() >= 1,
        forall|i: int|
            0 <= i < spec_groups(req, lw, cur, cur_w).len() ==> (#[trigger] spec_groups(
                req,
                lw,
                cur,
                cur_w,
            )[i]).len() >= 1,
    decreases req.len(),
{
    let gs = spec_groups(req, lw, cur, cur_w);
    if req.len() == 0 {
    } else {
        let w = req[0];
        if cur_w + w + 1 > lw {
            let rec = spec_groups(req.drop_first(), lw, seq![clamp_width(w, lw - 2)], w + 2);
            lemma_groups_nonempty(req.drop_first(), lw, seq![clamp_width(w, lw - 2)], w + 2);
            if cur.len() == 0 {
                assert(gs == rec);
            } else {
                assert(gs == seq![cur] + rec);
                assert(gs[0] == cur);
                assert(forall|i: int| 1 <= i < gs.len() ==> gs[i] == rec[i - 1]);
            }
        } else {
            lemma_groups_nonempty(
                req.drop_first(),
                lw,
                cur.push(clamp_width(w, lw - cur_w - 1)),
                cur_w + w + 1,
            );
        }
    }
}

/// Every group produced by the greedy pass fits the line width.
proof fn lemma_groups_fit(req: Seq<usize>, lw: int, cur: Seq<usize>, cur_w: int)
    requires
        lw >= 3,
        1 <= cur_w,
        spec_group_width(cur) <= cur_w,
        spec_group_width(cur) <= lw,
    ensures
        forall|i: int|
            0 <= i < spec_groups(req, lw, cur, cur_w).len() ==> spec_group_width(
                #[trigger] spec_groups(req, lw, cur, cur_w)[i],
            ) <= lw,
    decreases req.len(),
{
    let gs = spec_groups(req, lw, cur, cur_w);
    if req.len() == 0 {
    } else {
        let w = req[0];
        if cur_w + w + 1 > lw {
            let c = clamp_width(w, lw - 2);
            let rec = spec_groups(req.drop_first(), lw, seq![c], w + 2);
            lemma_sum_singleton(c);
            lemma_groups_fit(req.drop_first(), lw, seq![c], w + 2);
            if cur.len() == 0 {
                assert(gs == rec);
            } else {
                assert(gs == seq![cur] + rec);
                assert(gs[0] == cur);
                assert(forall|i: int| 1 <= i < gs.len() ==> gs[i] == rec[i - 1]);
            }
        } else {
            let c = clamp_width(w, lw - cur_w - 1);
            lemma_seq_sum_push(cur, c);
            lemma_groups_fit(req.drop_first(), lw, cur.push(c), cur_w + w + 1);
            assert(gs == spec_groups(req.drop_first(), lw, cur.push(c), cur_w + w + 1));
        }
    }
}

/// With every requested width at least one, every greedy width is at least
/// one as well.
proof fn lemma_groups_min_one(req: Seq<usize>, lw: int, cur: Seq<usize>, cur_w: int)
    requires
        lw >= 3,
        forall|i: int| 0 <= i < req.len() ==> req[i] >= 1,
        forall|j: int| 0 <= j < cur.len() ==> cur[j] >= 1,
    ensures
        forall|i: int, j: int|
            0 <= i < spec_groups(req, lw, cur, cur_w).len() && 0 <= j < spec_groups(
                req,
                lw,
                cur,
                cur_w,
            )[i].len() ==> #[trigger] spec_groups(req, lw, cur, cur_w)[i][j] >= 1,
    decreases req.len(),
{
    let gs = spec_groups(req, lw, cur, cur_w);
    if req.len() == 0 {
    } else {
        let w = req[0];
        assert(w >= 1);
        if cur_w + w + 1 > lw {
            let c = clamp_width(w, lw - 2);
            assert(c >= 1);
            let rec = spec_groups(req.drop_first(), lw, seq![c], w + 2);
            lemma_groups_min_one(req.drop_first(), lw, seq![c], w + 2);
            if cur.len() == 0 {
                assert(gs == rec);
            } else {
                assert(gs == seq![cur] + rec);
                assert(gs[0] == cur);
                assert(forall|i: int| 1 <= i < gs.len() ==> gs[i] == rec[i - 1]);
            }
        } else {
            let c = clamp_width(w, lw - cur_w - 1);
            assert(c >= 1);
            lemma_groups_min_one(req.drop_first(), lw, cur.push(c), cur_w + w + 1);
            assert(gs == spec_groups(req.drop_first(), lw, cur.push(c), cur_w + w + 1));
        }
    }
}

proof fn lemma_max_width_ge(gs: Seq<Seq<usize>>)
    ensures
        forall|i: int|
            0 <= i < gs.len() ==> spec_group_width(#[trigger] gs[i]) <= spec_max_width(gs),
    decreases gs.len(),
{
    if gs.len() > 0 {
        lemma_max_width_ge(gs.drop_first());
        assert(forall|i: int| 1 <= i < gs.len() ==> gs[i] == gs.drop_first()[i - 1]);
    }
}

proof fn lemma_max_width_le(gs: Seq<Seq<usize>>, bound: int)
    requires
        bound >= 0,
        forall|i: int| 0 <= i < gs.len() ==> spec_group_width(#[trigger] gs[i]) <= bound,
    ensures
        spec_max_width(gs) <= bound,
    decreases gs.len(),
{
    if gs.len() > 0 {
        assert(forall|i: int|
            0 <= i < gs.drop_first().len() ==> gs.drop_first()[i] == gs[i + 1]);
        lemma_max_width_le(gs.drop_first(), bound);
    }
}

/// Padding a group whose width does not exceed the target yields a group of
/// exactly the target display width.
proof fn lemma_pad_first_width(g: Seq<usize>, target: int)
    requires
        g.len() >= 1,
        spec_group_width(g) <= target,
        target <= usize::MAX,
    ensures
        spec_group_width(spec_pad_first(g, target)) == target,
        spec_pad_first(g, target).len() == g.len(),
{
    let rest = target - spec_group_width(g);
    lemma_seq_sum_nonneg(g.drop_first());
    assert(seq_sum(g) == g[0] + seq_sum(g.drop_first()));
    let v = (g[0] + rest) as usize;
    assert(g[0] + rest <= usize::MAX);
    let u = g.update(0, v);
    assert(u[0] == v);
    assert(u.drop_first() =~= g.drop_first());
    assert(seq_sum(u) == v + seq_sum(g.drop_first()));
}

/// Planner law: every group in a plan has the same display width, and that
/// width never exceeds the line width.
pub proof fn lemma_plan_uniform_and_fits(req: Seq<usize>, lw: int)
    requires
        req.len() >= 1,
        lw >= 9,
        lw <= usize::MAX,
    ensures
        spec_plan(req, lw).len() >= 1,
        forall|i: int|
            0 <= i < spec_plan(req, lw).len() ==> (#[trigger] spec_plan(req, lw)[i]).len() >= 1,
        forall|i: int|
            0 <= i < spec_plan(req, lw).len() ==> spec_group_width(#[trigger] spec_plan(req, lw)[i])
                == spec_max_width(spec_groups(req, lw, Seq::empty(), 1)),
        forall|i: int|
            0 <= i < spec_plan(req, lw).len() ==> spec_group_width(#[trigger] spec_plan(req, lw)[i])
                <= lw,
{
    let gs = spec_groups(req, lw, Seq::empty(), 1);
    let target = spec_max_width(gs);
    let plan = spec_plan(req, lw);
    lemma_groups_nonempty(req, lw, Seq::empty(), 1);
    lemma_groups_fit(req, lw, Seq::empty(), 1);
    lemma_max_width_ge(gs);
    lemma_max_width_le(gs, lw);
    assert(plan.len() == gs.len());
    assert forall|i: int| 0 <= i < plan.len() implies (#[trigger] plan[i]).len() >= 1
        && spec_group_width(plan[i]) == target by {
        assert(plan[i] == spec_pad_first(gs[i], target));
        assert(spec_group_width(gs[i]) <= target);
        lemma_pad_first_width(gs[i], target);
    }
}

/// Planner law: with every requested width at least one, every width in the
/// plan is at least one.
pub proof fn lemma_plan_min_one(req: Seq<usize>, lw: int)
    requires
        req.len() >= 1,
        lw >= 9,
        lw <= usize::MAX,
        forall|i: int| 0 <= i < req.len() ==> req[i] >= 1,
    ensures
        forall|i: int, j: int|
            0 <= i < spec_plan(req, lw).len() && 0 <= j < spec_plan(req, lw)[i].len()
                ==> #[trigger] spec_plan(req, lw)[i][j] >= 1,
{
    let gs = spec_groups(req, lw, Seq::empty(), 1);
    let target = spec_max_width(gs);
    let plan = spec_plan(req, lw);
    lemma_groups_nonempty(req, lw, Seq::empty(), 1);
    lemma_groups_fit(req, lw, Seq::empty(), 1);
    lemma_groups_min_one(req, lw, Seq::empty(), 1);
    lemma_max_width_ge(gs);
    lemma_max_width_le(gs, lw);
    assert forall|i: int, j: int|
        0 <= i < plan.len() && 0 <= j < plan[i].len() implies #[trigger] plan[i][j] >= 1 by {
        assert(plan[i] == spec_pad_first(gs[i], target));
        assert(spec_group_width(gs[i]) <= target);
        lemma_seq_sum_nonneg(gs[i].drop_first());
        assert(seq_sum(gs[i]) == gs[i][0] + seq_sum(gs[i].drop_first()));
        if j > 0 {
            assert(plan[i][j] == gs[i][j]);
        } else {
            let rest = target - spec_group_width(gs[i]);
            assert(gs[i][0] + rest <= target);
            assert(plan[i][0] == (gs[i][0] + rest) as usize);
            assert(plan[i][0] >= gs[i][0]);
        }
    }
}

/// Display width of one group of column widths.
pub fn group_width(g: &[usize]) -> (w: usize)
    requires
        spec_group_width(g@) <= usize::MAX,
    ensures
        w == spec_group_width(g@),
{
    let mut total: usize = 0;
    let mut i: usize = 0;
    proof {
        assert(g@.take(0) =~= Seq::<usize>::empty());
    }
    while i < g.len()
        invariant
            0 <= i <= g@.len(),
            total == seq_sum(g@.take(i as int)),
            spec_group_width(g@) <= usize::MAX,
        decreases g@.len() - i,
    {
        proof {
            lemma_seq_sum_split(g@, i + 1);
            lemma_seq_sum_nonneg(g@.skip(i + 1));
            lemma_seq_sum_push(g@.take(i as int), g@[i as int]);
            assert(g@.take(i + 1) =~= g@.take(i as int).push(g@[i as int]));
        }
        total = total + g[i];
        i = i + 1;
    }
    proof {
        assert(g@.take(g@.len() as int) =~= g@);
    }
    total + g.len() + 1
}

/// Partition the requested column widths into groups that fit `line_width`,
/// clamping any single overlong column, then pad every group to the common
/// target width.
///
/// The result satisfies two laws, also stated by
/// [`lemma_plan_uniform_and_fits`]: all groups share one display width, and
/// that width never exceeds `line_width`.
pub fn compute_column_widths(requested: Vec<usize>, line_width: usize) -> (r: Vec<Vec<usize>>)
    requires
        requested@.len() >= 1,
        line_width >= 9,
        line_width <= usize::MAX / 2,
        forall|i: int| 0 <= i < requested@.len() ==> requested@[i] <= usize::MAX / 2 - 2,
    ensures
        r.deep_view() == spec_plan(requested@, line_width as int),
        r@.len() >= 1,
        r@.len() == spec_plan(requested@, line_width as int).len(),
        forall|i: int| 0 <= i < r@.len() ==> (#[trigger] r.deep_view()[i]).len() >= 1,
        forall|i: int|
            0 <= i < r@.len() ==> spec_group_width(#[trigger] r.deep_view()[i]) == spec_max_width(
                spec_groups(requested@, line_width as int, Seq::empty(), 1),
            ),
        forall|i: int|
            0 <= i < r@.len() ==> spec_group_width(#[trigger] r.deep_view()[i]) <= line_width,
{
    let ghost lw = line_width as int;
    let ghost full = spec_groups(requested@, lw, Seq::empty(), 1);
    let mut groups: Vec<Vec<usize>> = Vec::new();
    let mut cur: Vec<usize> = Vec::new();
    let mut cur_w: usize = 1;
    let mut idx: usize = 0;
    proof {
        assert(requested@.skip(0) =~= requested@);
        assert(groups.deep_view() =~= Seq::<Seq<usize>>::empty());
        assert(groups.deep_view() + spec_groups(requested@, lw, cur@, 1) =~= spec_groups(
            requested@,
            lw,
            cur@,
            1,
        ));
        assert(cur@ =~= Seq::<usize>::empty());
    }
    while idx < requested.len()
        invariant
            0 <= idx <= requested@.len(),
            full == groups.deep_view() + spec_groups(
                requested@.skip(idx as int),
                lw,
                cur@,
                cur_w as int,
            ),
            1 <= cur_w <= usize::MAX / 2,
            9 <= line_width <= usize::MAX / 2,
            lw == line_width as int,
            full == spec_groups(requested@, lw, Seq::empty(), 1),
            forall|i: int| 0 <= i < requested@.len() ==> requested@[i] <= usize::MAX / 2 - 2,
        decreases requested@.len() - idx,
    {
        let w = requested[idx];
        let ghost rem = requested@.skip(idx as int);
        let ghost prev_w = cur_w as int;
        proof {
            assert(rem[0] == requested@[idx as int]);
            assert(rem.drop_first() =~= requested@.skip(idx as int + 1));
        }
        if cur_w + w + 1 > line_width {
            let ghost done = groups.deep_view();
            let ghost closed = cur@;
            if cur.len() > 0 {
                groups.push(cur);
                proof {
                    assert(groups.deep_view() =~~= done.push(closed));
                }
                cur = Vec::new();
            }
            let cap = line_width - 2;
            let cw = if w <= cap {
                w
            } else {
                cap
            };
            cur.push(cw);
            cur_w = w + 2;
            proof {
                assert(cur@ =~= seq![clamp_width(w, lw - 2)]);
                let rec = spec_groups(requested@.skip(idx as int + 1), lw, cur@, w + 2);
                assert(prev_w + w + 1 > lw);
                if closed.len() == 0 {
                    assert(spec_groups(rem, lw, closed, prev_w) == rec);
                    assert(done + rec =~= groups.deep_view() + rec);
                } else {
                    assert(spec_groups(rem, lw, closed, prev_w) == seq![closed] + rec);
                    assert(done + (seq![closed] + rec) =~= (done.push(closed)) + rec);
                }
            }
        } else {
            let ghost old_cur = cur@;
            let ghost old_cur_w = cur_w as int;
            let cap = line_width - cur_w - 1;
            let cw = if w <= cap {
                w
            } else {
                cap
            };
            cur.push(cw);
            cur_w = cur_w + w + 1;
            proof {
                assert(cw == clamp_width(w, lw - old_cur_w - 1));
                assert(cur@ == old_cur.push(clamp_width(w, lw - old_cur_w - 1)));
                assert(spec_groups(rem, lw, old_cur, old_cur_w) == spec_groups(
                    requested@.skip(idx as int + 1),
                    lw,
                    cur@,
                    cur_w as int,
                ));
            }
        }
        idx = idx + 1;
    }
    proof {
        assert(requested@.skip(requested@.len() as int) =~= Seq::<usize>::empty());
    }
    if cur.len() > 0 {
        let ghost done = groups.deep_view();
        let ghost closed = cur@;
        groups.push(cur);
        proof {
            assert(groups.deep_view() =~~= done.push(closed));
            assert(done + seq![closed] =~= done.push(closed));
        }
    } else {
        proof {
            assert(groups.deep_view() + Seq::<Seq<usize>>::empty() =~= groups.deep_view());
        }
    }
    proof {
        assert(groups.deep_view() == full);
        lemma_groups_nonempty(requested@, lw, Seq::empty(), 1);
        lemma_groups_fit(requested@, lw, Seq::empty(), 1);
        lemma_max_width_ge(full);
        lemma_max_width_le(full, lw);
    }
    // Find the common target width: the widest group so far.
    let ghost target = spec_max_width(full);
    let mut widest: usize = 0;
    let mut i: usize = 0;
    proof {
        assert(full.skip(0) =~= full);
        lemma_seq_sum_nonneg(full[0]);
        assert(spec_group_width(full[0]) >= 1);
        assert(spec_max_width(full) >= 1);
    }
    while i < groups.len()
        invariant
            0 <= i <= groups@.len(),
            groups.deep_view() == full,
            groups@.len() == full.len(),
            target == spec_max_width(full),
            target == if widest as int >= spec_max_width(full.skip(i as int)) {
                widest as int
            } else {
                spec_max_width(full.skip(i as int))
            },
            widest <= line_width,
            9 <= line_width <= usize::MAX / 2,
            lw == line_width as int,
            forall|k: int| 0 <= k < full.len() ==> spec_group_width(#[trigger] full[k]) <= lw,
        decreases groups@.len() - i,
    {
        proof {
            assert(groups.deep_view()[i as int] == groups@[i as int].deep_view());
            assert(groups@[i as int].deep_view() =~= groups@[i as int]@);
            let tail = full.skip(i as int);
            assert(tail[0] == full[i as int]);
            assert(tail.drop_first() =~= full.skip(i as int + 1));
            assert(spec_max_width(tail) == if spec_group_width(full[i as int]) >= spec_max_width(
                full.skip(i as int + 1),
            ) {
                spec_group_width(full[i as int])
            } else {
                spec_max_width(full.skip(i as int + 1))
            });
        }
        let gw = group_width(groups[i].as_slice());
        if gw > widest {
            widest = gw;
        }
        i = i + 1;
    }
    proof {
        assert(full.skip(full.len() as int) =~= Seq::<Seq<usize>>::empty());
        assert(widest as int == target);
    }
    // Pad the first column of every group up to the target width.
    let ghost plan = spec_plan(requested@, lw);
    let mut out: Vec<Vec<usize>> = Vec::new();
    let mut i: usize = 0;
    proof {
        assert(plan == full.map_values(|g: Seq<usize>| spec_pad_first(g, target)));
        assert(out.deep_view() =~= plan.take(0));
        lemma_groups_nonempty(requested@, lw, Seq::empty(), 1);
    }
    while i < groups.len()
        invariant
            0 <= i <= groups@.len(),
            groups.deep_view() == full,
            groups@.len() == full.len(),
            widest as int == target,
            target == spec_max_width(full),
            widest <= line_width,
            9 <= line_width <= usize::MAX / 2,
            lw == line_width as int,
            plan == full.map_values(|g: Seq<usize>| spec_pad_first(g, target)),
            out.deep_view() == plan.take(i as int),
            out@.len() == i,
            forall|k: int| 0 <= k < full.len() ==> spec_group_width(#[trigger] full[k]) <= lw,
            forall|k: int| 0 <= k < full.len() ==> spec_group_width(#[trigger] full[k]) <= target,
            forall|k: int| 0 <= k < full.len() ==> (#[trigger] full[k]).len() >= 1,
        decreases groups@.len() - i,
    {
        proof {
            assert(groups.deep_view()[i as int] == groups@[i as int].deep_view());
            assert(groups@[i as int].deep_view() =~= groups@[i as int]@);
            lemma_seq_sum_nonneg(full[i as int]);
            lemma_seq_sum_nonneg(full[i as int].drop_first());
            assert(seq_sum(full[i as int]) == full[i as int][0] + seq_sum(
                full[i as int].drop_first(),
            ));
        }
        let gw = group_width(groups[i].as_slice());
        let rest = if widest >= gw {
            widest - gw
        } else {
            0
        };
        let g = &groups[i];
        let mut ng: Vec<usize> = Vec::new();
        ng.push(g[0] + rest);
        let mut j: usize = 1;
        while j < g.len()
            invariant
                1 <= j <= g@.len(),
                g@ == full[i as int],
                0 <= i < full.len(),
                ng@.len() == j,
                ng@[0] == spec_pad_first(g@, target)[0],
                forall|k: int| 1 <= k < j ==> ng@[k] == g@[k],
                target >= spec_group_width(g@),
            decreases g@.len() - j,
        {
            ng.push(g[j]);
            j = j + 1;
        }
        proof {
            assert(ng@ =~= spec_pad_first(g@, target));
        }
        let ghost prev = out.deep_view();
        out.push(ng);
        proof {
            assert(out.deep_view() =~~= prev.push(ng@));
            assert(plan[i as int] == spec_pad_first(full[i as int], target));
            assert(plan.take(i as int).push(plan[i as int]) =~= plan.take(i as int + 1));
        }
        i = i + 1;
    }
    proof {
        assert(plan.take(plan.len() as int) =~= plan);
        assert(out.deep_view() == plan);
        lemma_plan_uniform_and_fits(requested@, lw);
        assert(out@.len() == plan.len());
        assert forall|k: int| 0 <= k < out@.len() implies (#[trigger] out.deep_view()[k]).len()
            >= 1 && spec_group_width(out.deep_view()[k]) == target && spec_group_width(
            out.deep_view()[k],
        ) <= line_width by {
            assert(out.deep_view()[k] == plan[k]);
            assert(spec_group_width(plan[k]) == spec_max_width(
                spec_groups(requested@, lw, Seq::empty(), 1),
            ));
        }
    }
    out
}

} // verus!
