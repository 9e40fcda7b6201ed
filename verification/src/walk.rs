//! Where Steve can walk in a world: from the spawn in the middle, one column at a time, up one block or down
//! up to three, never onto a column he can't stand on.
use vstd::prelude::*;
use crate::world::{B, Blocks, stand_map, can_stand, N, at_col, in_grid, num_cols, spec_col, spec_step_ok, col, step_ok, lemma_col_injective};

verus! {

/// The spawn column: the middle of the world.
pub open spec fn spawn() -> (int, int) {
    (N / 2, N / 2)
}

/// Columns a and b are side by side (both inside the world).
pub open spec fn neighbours(a: (int, int), b: (int, int)) -> bool {
    &&& in_grid(a.0, a.1)
    &&& in_grid(b.0, b.1)
    &&& ((a.0 - b.0 == 1 || b.0 - a.0 == 1) && a.1 == b.1) || ((a.1 - b.1 == 1 || b.1 - a.1 == 1) && a.0 == b.0)
}

/// Steve can go straight from column a to column b.
pub open spec fn can_move(top: Seq<i64>, ok: Seq<bool>, a: (int, int), b: (int, int)) -> bool {
    &&& neighbours(a, b)
    &&& at_col(ok, b.0, b.1)
    &&& spec_step_ok(at_col(top, a.0, a.1) as int, at_col(top, b.0, b.1) as int)
}

/// A walk from the spawn: it starts there, Steve can stand there, and each step is a move he can make.
pub open spec fn is_walk(top: Seq<i64>, ok: Seq<bool>, p: Seq<(int, int)>) -> bool {
    &&& p.len() > 0
    &&& p[0] == spawn()
    &&& at_col(ok, spawn().0, spawn().1)
    &&& forall|i: int| 0 <= i < p.len() - 1 ==> #[trigger] can_move(top, ok, p[i], p[i + 1])
}

/// Steve can get to column c from the spawn.
pub open spec fn reachable(top: Seq<i64>, ok: Seq<bool>, c: (int, int)) -> bool {
    exists|p: Seq<(int, int)>| #[trigger] is_walk(top, ok, p) && p.last() == c
}

/// How many entries are true.
pub open spec fn count_true(s: Seq<bool>) -> nat
    decreases s.len(),
{
    if s.len() == 0 {
        0
    } else {
        count_true(s.drop_last()) + if s.last() {
            1nat
        } else {
            0nat
        }
    }
}

proof fn lemma_count_true_le(s: Seq<bool>)
    ensures
        count_true(s) <= s.len(),
    decreases s.len(),
{
    if s.len() > 0 {
        lemma_count_true_le(s.drop_last());
    }
}

proof fn lemma_count_true_set(s: Seq<bool>, i: int)
    requires
        0 <= i < s.len(),
        !s[i],
    ensures
        count_true(s.update(i, true)) == count_true(s) + 1,
    decreases s.len(),
{
    let t = s.update(i, true);
    if i == s.len() - 1 {
        assert(t.drop_last() =~= s.drop_last());
    } else {
        assert(t.drop_last() =~= s.drop_last().update(i, true));
        lemma_count_true_set(s.drop_last(), i);
    }
}

/// Column c is waiting in the queue (at `head` or after it).
pub open spec fn pending(q: Seq<(i64, i64)>, head: int, c: (int, int)) -> bool {
    exists|i: int| head <= i < q.len() && (#[trigger] q[i]).0 == c.0 && q[i].1 == c.1
}

/// Every move out of column c leads to a column already marked.
pub open spec fn closed(top: Seq<i64>, ok: Seq<bool>, reach: Seq<bool>, c: (int, int)) -> bool {
    forall|b: (int, int)| #[trigger] can_move(top, ok, c, b) ==> at_col(reach, b.0, b.1)
}

/// What holds between the steps of the search. `skip` is the column being looked at (its moves not all done).
spec fn bfs_inv(top: Seq<i64>, ok: Seq<bool>, reach: Seq<bool>, q: Seq<(i64, i64)>, head: int, skip: Option<(int, int)>) -> bool {
    &&& top.len() == num_cols()
    &&& ok.len() == num_cols()
    &&& reach.len() == num_cols()
    &&& 0 <= head <= q.len()
    &&& q.len() == count_true(reach)
    &&& forall|i: int| 0 <= i < q.len() ==> in_grid((#[trigger] q[i]).0 as int, q[i].1 as int) && at_col(reach, q[i].0 as int, q[i].1 as int)
    &&& forall|x: int, z: int| in_grid(x, z) && #[trigger] at_col(reach, x, z) ==> reachable(top, ok, (x, z))
    &&& forall|x: int, z: int|
        in_grid(x, z) && #[trigger] at_col(reach, x, z) && !pending(q, head, (x, z)) && skip != Some((x, z))
            ==> closed(top, ok, reach, (x, z))
    &&& at_col(ok, spawn().0, spawn().1) ==> at_col(reach, spawn().0, spawn().1)
}

/// A walk to a followed by a move to b is a walk to b.
proof fn lemma_extend_walk(top: Seq<i64>, ok: Seq<bool>, a: (int, int), b: (int, int))
    requires
        reachable(top, ok, a),
        can_move(top, ok, a, b),
    ensures
        reachable(top, ok, b),
{
    let p = choose|p: Seq<(int, int)>| #[trigger] is_walk(top, ok, p) && p.last() == a;
    let p2 = p.push(b);
    assert forall|i: int| 0 <= i < p2.len() - 1 implies #[trigger] can_move(top, ok, p2[i], p2[i + 1]) by {
        if i < p.len() - 1 {
            assert(p2[i] == p[i] && p2[i + 1] == p[i + 1]);
        } else {
            assert(p2[i] == a && p2[i + 1] == b);
        }
    }
    assert(is_walk(top, ok, p2));
    assert(p2.last() == b);
}

/// Marks column n (a neighbour of a, the column being looked at) if Steve can move there and it isn't marked yet.
fn visit(
    top: &Vec<i64>,
    ok: &Vec<bool>,
    reach: &mut Vec<bool>,
    q: &mut Vec<(i64, i64)>,
    Ghost(head): Ghost<int>,
    a: (i64, i64),
    n: (i64, i64),
)
    requires
        bfs_inv(top@, ok@, old(reach)@, old(q)@, head, Some((a.0 as int, a.1 as int))),
        in_grid(a.0 as int, a.1 as int),
        at_col(old(reach)@, a.0 as int, a.1 as int),
        ((n.0 - a.0 == 1 || a.0 - n.0 == 1) && n.1 == a.1) || ((n.1 - a.1 == 1 || a.1 - n.1 == 1) && n.0 == a.0),
    ensures
        bfs_inv(top@, ok@, final(reach)@, final(q)@, head, Some((a.0 as int, a.1 as int))),
        can_move(top@, ok@, (a.0 as int, a.1 as int), (n.0 as int, n.1 as int)) ==> at_col(
            final(reach)@,
            n.0 as int,
            n.1 as int,
        ),
        forall|x: int, z: int| in_grid(x, z) && #[trigger] at_col(old(reach)@, x, z) ==> at_col(final(reach)@, x, z),
        forall|b: (int, int)| #[trigger] can_move(top@, ok@, (a.0 as int, a.1 as int), b) && at_col(old(reach)@, b.0, b.1) ==> at_col(final(reach)@, b.0, b.1),
{
    let (nx, nz) = n;
    if !(0 <= nx && nx < N) || !(0 <= nz && nz < N) {
        return;
    }
    let ca = col(a.0, a.1);
    let cb = col(nx, nz);
    if !reach[cb] && ok[cb] && step_ok(top[ca], top[cb]) {
        let ghost r0 = reach@;
        let ghost q0 = q@;
        proof {
            lemma_extend_walk(top@, ok@, (a.0 as int, a.1 as int), (nx as int, nz as int));
            lemma_count_true_set(r0, cb as int);
        }
        reach.set(cb, true);
        q.push((nx, nz));
        proof {
            let r1 = reach@;
            let q1 = q@;
            assert forall|x: int, z: int| in_grid(x, z) && #[trigger] at_col(r0, x, z) implies at_col(r1, x, z) by {
                if spec_col(x, z) == cb {
                    lemma_col_injective(x, z, nx as int, nz as int);
                }
            }
            assert forall|i: int| 0 <= i < q1.len() implies in_grid((#[trigger] q1[i]).0 as int, q1[i].1 as int)
                && at_col(r1, q1[i].0 as int, q1[i].1 as int) by {
                if i < q0.len() {
                    assert(q1[i] == q0[i]);
                    assert(at_col(r0, q0[i].0 as int, q0[i].1 as int));
                }
            }
            assert forall|x: int, z: int| in_grid(x, z) && #[trigger] at_col(r1, x, z) implies reachable(
                top@,
                ok@,
                (x, z),
            ) by {
                if spec_col(x, z) == cb {
                    lemma_col_injective(x, z, nx as int, nz as int);
                } else {
                    assert(at_col(r0, x, z));
                }
            }
            assert forall|x: int, z: int|
                in_grid(x, z) && #[trigger] at_col(r1, x, z) && !pending(q1, head, (x, z)) && Some((a.0 as int, a.1 as int)) != Some((x, z))
                implies closed(top@, ok@, r1, (x, z)) by {
                if spec_col(x, z) == cb {
                    lemma_col_injective(x, z, nx as int, nz as int);
                    assert(q1[q1.len() - 1] == (nx, nz));
                    assert(pending(q1, head, (x, z)));
                } else {
                    assert(at_col(r0, x, z));
                    if pending(q0, head, (x, z)) {
                        let i = choose|i: int| head <= i < q0.len() && (#[trigger] q0[i]).0 == x && q0[i].1 == z;
                        assert(q1[i] == q0[i]);
                    }
                    assert(closed(top@, ok@, r0, (x, z)));
                    assert forall|b: (int, int)| #[trigger] can_move(top@, ok@, (x, z), b) implies at_col(r1, b.0, b.1) by {
                        assert(at_col(r0, b.0, b.1));
                        if spec_col(b.0, b.1) == cb {
                        }
                    }
                }
            }
            assert forall|b: (int, int)| #[trigger] can_move(top@, ok@, (a.0 as int, a.1 as int), b) && at_col(r0, b.0, b.1) implies at_col(r1, b.0, b.1) by {
                if spec_col(b.0, b.1) == cb {
                }
            }
        }
    }
}


proof fn lemma_count_true_none(s: Seq<bool>)
    requires
        forall|i: int| 0 <= i < s.len() ==> !s[i],
    ensures
        count_true(s) == 0,
    decreases s.len(),
{
    if s.len() > 0 {
        lemma_count_true_none(s.drop_last());
    }
}

/// Every column of a walk is marked, when the spawn is marked and every marked column is closed.
proof fn lemma_walk_reached(top: Seq<i64>, ok: Seq<bool>, reach: Seq<bool>, p: Seq<(int, int)>)
    requires
        is_walk(top, ok, p),
        at_col(ok, spawn().0, spawn().1) ==> at_col(reach, spawn().0, spawn().1),
        forall|x: int, z: int| in_grid(x, z) && #[trigger] at_col(reach, x, z) ==> closed(top, ok, reach, (x, z)),
    ensures
        in_grid(p.last().0, p.last().1),
        at_col(reach, p.last().0, p.last().1),
    decreases p.len(),
{
    if p.len() > 1 {
        let p0 = p.drop_last();
        assert forall|i: int| 0 <= i < p0.len() - 1 implies #[trigger] can_move(top, ok, p0[i], p0[i + 1]) by {
            assert(can_move(top, ok, p[i], p[i + 1]));
        }
        lemma_walk_reached(top, ok, reach, p0);
        let k = p.len() - 2;
        assert(can_move(top, ok, p[k], p[k + 1]));
        assert(p0.last() == p[k]);
        assert(closed(top, ok, reach, p0.last()));
    }
}

/// The columns Steve can reach from the spawn (the middle of the world): breadth first, one column at a time,
/// up one block or down up to three, only onto columns he can stand on.
pub fn reach_from_spawn(top: &Vec<i64>, ok: &Vec<bool>) -> (reach: Vec<bool>)
    requires
        top@.len() == num_cols(),
        ok@.len() == num_cols(),
    ensures
        reach@.len() == num_cols(),
        forall|x: int, z: int| in_grid(x, z) ==> (#[trigger] at_col(reach@, x, z) <==> reachable(top@, ok@, (x, z))),
{
    let mut reach: Vec<bool> = vec![false; (N * N) as usize];
    let mut q: Vec<(i64, i64)> = Vec::new();
    proof {
        assert forall|i: int| 0 <= i < reach@.len() implies !reach@[i] by {
            assert(cloned(false, reach@[i]));
        }
        lemma_count_true_none(reach@);
    }
    let (sx, sz) = (N / 2, N / 2);
    let s = col(sx, sz);
    if ok[s] {
        proof {
            let p = seq![spawn()];
            assert(is_walk(top@, ok@, p));
            assert(p.last() == spawn());
            lemma_count_true_set(reach@, s as int);
        }
        reach.set(s, true);
        q.push((sx, sz));
        proof {
            assert forall|x: int, z: int| in_grid(x, z) && #[trigger] at_col(reach@, x, z) implies reachable(top@, ok@, (x, z)) by {
                lemma_col_injective(x, z, sx as int, sz as int);
            }
            assert forall|x: int, z: int| in_grid(x, z) && #[trigger] at_col(reach@, x, z) && !pending(q@, 0, (x, z))
                implies closed(top@, ok@, reach@, (x, z)) by {
                lemma_col_injective(x, z, sx as int, sz as int);
                assert(q@[0] == (sx, sz));
            }
        }
    }
    let mut head: usize = 0;
    while head < q.len()
        invariant
            bfs_inv(top@, ok@, reach@, q@, head as int, None),
        decreases num_cols() - head,
    {
        proof {
            lemma_count_true_le(reach@);
        }
        let a = q[head];
        let ghost h0 = head as int;
        head = head + 1;
        proof {
            let ai = (a.0 as int, a.1 as int);
            assert(q@[h0] == a);
            assert forall|x: int, z: int|
                in_grid(x, z) && #[trigger] at_col(reach@, x, z) && !pending(q@, head as int, (x, z)) && Some(ai) != Some((x, z))
                implies closed(top@, ok@, reach@, (x, z)) by {
                if pending(q@, h0, (x, z)) {
                    let i = choose|i: int| h0 <= i < q@.len() && (#[trigger] q@[i]).0 == x && q@[i].1 == z;
                    if i == h0 {
                    } else {
                        assert(pending(q@, head as int, (x, z)));
                    }
                }
            }
        }
        let ghost r_start = reach@;
        visit(top, ok, &mut reach, &mut q, Ghost(head as int), a, (a.0 + 1, a.1));
        let ghost r1 = reach@;
        visit(top, ok, &mut reach, &mut q, Ghost(head as int), a, (a.0 - 1, a.1));
        let ghost r2 = reach@;
        visit(top, ok, &mut reach, &mut q, Ghost(head as int), a, (a.0, a.1 + 1));
        let ghost r3 = reach@;
        visit(top, ok, &mut reach, &mut q, Ghost(head as int), a, (a.0, a.1 - 1));
        proof {
            let ai = (a.0 as int, a.1 as int);
            assert forall|b: (int, int)| #[trigger] can_move(top@, ok@, ai, b) implies at_col(reach@, b.0, b.1) by {
                if b == (ai.0 + 1, ai.1) {
                    assert(at_col(r1, b.0, b.1));
                    assert(at_col(r2, b.0, b.1));
                    assert(at_col(r3, b.0, b.1));
                } else if b == (ai.0 - 1, ai.1) {
                    assert(at_col(r2, b.0, b.1));
                    assert(at_col(r3, b.0, b.1));
                } else if b == (ai.0, ai.1 + 1) {
                    assert(at_col(r3, b.0, b.1));
                } else {
                    assert(b == (ai.0, ai.1 - 1));
                }
            }
            assert(closed(top@, ok@, reach@, ai));
            assert forall|x: int, z: int|
                in_grid(x, z) && #[trigger] at_col(reach@, x, z) && !pending(q@, head as int, (x, z)) && None::<(int, int)> != Some((x, z))
                implies closed(top@, ok@, reach@, (x, z)) by {
                if (x, z) != ai {
                    assert(Some(ai) != Some((x, z)));
                }
            }
        }
    }
    proof {
        assert forall|x: int, z: int| in_grid(x, z) && #[trigger] at_col(reach@, x, z) implies closed(top@, ok@, reach@, (x, z)) by {
            assert(!pending(q@, head as int, (x, z)));
        }
        assert forall|x: int, z: int| in_grid(x, z) implies (#[trigger] at_col(reach@, x, z) <==> reachable(top@, ok@, (x, z))) by {
            if reachable(top@, ok@, (x, z)) {
                let p = choose|p: Seq<(int, int)>| #[trigger] is_walk(top@, ok@, p) && p.last() == (x, z);
                lemma_walk_reached(top@, ok@, reach@, p);
            }
        }
    }
    reach
}


/// Every column Steve can reach is one he can stand on.
pub proof fn lemma_reached_can_stand(top: Seq<i64>, ok: Seq<bool>, c: (int, int))
    requires
        reachable(top, ok, c),
    ensures
        at_col(ok, c.0, c.1),
{
    let p = choose|p: Seq<(int, int)>| #[trigger] is_walk(top, ok, p) && p.last() == c;
    if p.len() > 1 {
        let k = p.len() - 2;
        assert(can_move(top, ok, p[k], p[k + 1]));
    }
}

/// Steve can reach the spawn exactly when he can stand on it.
pub proof fn lemma_spawn_reachable(top: Seq<i64>, ok: Seq<bool>)
    requires
        top.len() == num_cols(),
        ok.len() == num_cols(),
    ensures
        reachable(top, ok, spawn()) <==> at_col(ok, spawn().0, spawn().1),
{
    if at_col(ok, spawn().0, spawn().1) {
        let p = seq![spawn()];
        assert(is_walk(top, ok, p));
        assert(p.last() == spawn());
    } else if reachable(top, ok, spawn()) {
        lemma_reached_can_stand(top, ok, spawn());
    }
}

/// Where Steve can stand in a world and what he can reach from the spawn: per column, the height he stands at
/// and whether he can get there.
pub fn walkable(bl: &Blocks) -> (res: (Vec<i64>, Vec<bool>))
    requires
        bl.wf(),
    ensures
        res.0@.len() == num_cols(),
        res.1@.len() == num_cols(),
        forall|x: int, z: int| in_grid(x, z) ==> #[trigger] at_col(res.0@, x, z) == bl.spec_height(x, z),
        exists|ok: Seq<bool>|
            ok.len() == num_cols() && (forall|x: int, z: int| in_grid(x, z) ==> #[trigger] at_col(ok, x, z) == can_stand(*bl, x, z))
            && forall|x: int, z: int| in_grid(x, z) ==> (#[trigger] at_col(res.1@, x, z) <==> reachable(res.0@, ok, (x, z))),
{
    let (top, ok) = stand_map(bl);
    let reach = reach_from_spawn(&top, &ok);
    proof {
        assert(forall|x: int, z: int| in_grid(x, z) ==> #[trigger] at_col(ok@, x, z) == can_stand(*bl, x, z));
    }
    (top, reach)
}

/// The height Steve stands at on column (x, z) (once his position is rounded down to a column): the
/// column's top, 0 for the void and outside the world.
pub fn ground(top: &Vec<i64>, x: i64, z: i64) -> (g: i64)
    requires
        top@.len() == num_cols(),
    ensures
        g == if in_grid(x as int, z as int) && at_col(top@, x as int, z as int) > 0 { at_col(top@, x as int, z as int) } else { 0 },
{
    if !(0 <= x && x < N) || !(0 <= z && z < N) {
        return 0;
    }
    let t = top[col(x, z)];
    if t > 0 { t } else { 0 }
}

/// Whether Steve can go from one column to another (his position and target rounded down): the target must be
/// inside the world, reachable, and a step he can make from where he is (a column outside the world counts as the
/// target's own height). Staying in the same column is always fine.
pub open spec fn spec_can_go(top: Seq<i64>, reach: Seq<bool>, from: (int, int), to: (int, int)) -> bool {
    if !in_grid(to.0, to.1) {
        false
    } else if from == to {
        true
    } else {
        let b = at_col(top, to.0, to.1);
        let a = if in_grid(from.0, from.1) { at_col(top, from.0, from.1) } else { b };
        at_col(reach, to.0, to.1) && spec_step_ok(a as int, b as int)
    }
}

/// Can Steve go from column `from` to column `to`?
pub fn can_go(top: &Vec<i64>, reach: &Vec<bool>, from: (i64, i64), to: (i64, i64)) -> (r: bool)
    requires
        top@.len() == num_cols(),
        reach@.len() == num_cols(),
    ensures
        r == spec_can_go(top@, reach@, (from.0 as int, from.1 as int), (to.0 as int, to.1 as int)),
{
    let (fx, fz) = from;
    let (tx, tz) = to;
    if !(0 <= tx && tx < N) || !(0 <= tz && tz < N) {
        return false;
    }
    if fx == tx && fz == tz {
        return true;
    }
    let b = col(tx, tz);
    let a = if (0 <= fx && fx < N) && (0 <= fz && fz < N) { top[col(fx, fz)] } else { top[b] };
    reach[b] && step_ok(a, top[b])
}

/// A move that can_go allows ends on a column Steve can reach.
pub proof fn lemma_can_go_stays_reachable(top: Seq<i64>, ok: Seq<bool>, reach: Seq<bool>, from: (int, int), to: (int, int))
    requires
        reach.len() == num_cols(),
        forall|x: int, z: int| in_grid(x, z) ==> (#[trigger] at_col(reach, x, z) <==> reachable(top, ok, (x, z))),
        reachable(top, ok, from),
        spec_can_go(top, reach, from, to),
    ensures
        reachable(top, ok, to),
{
    if from != to {
        assert(at_col(reach, to.0, to.1));
    }
}

/// The columns marked reachable (as `walkable` and `build_world` mark them) leave nothing out: from a marked column,
/// every move Steve can make (to a side neighbour he can stand on, a step he can take) ends on a marked column.
pub proof fn law_walk_complete(top: Seq<i64>, ok: Seq<bool>, reach: Seq<bool>, a: (int, int), b: (int, int))
    requires
        reach.len() == num_cols(),
        forall|x: int, z: int| in_grid(x, z) ==> (#[trigger] at_col(reach, x, z) <==> reachable(top, ok, (x, z))),
        in_grid(a.0, a.1),
        at_col(reach, a.0, a.1),
        can_move(top, ok, a, b),
    ensures
        at_col(reach, b.0, b.1),
{
    assert(reachable(top, ok, a));
    lemma_extend_walk(top, ok, a, b);
}

/// Every column of the walk is inside the world and marked.
pub open spec fn all_marked(reach: Seq<bool>, p: Seq<(int, int)>) -> bool {
    forall|i: int| 0 <= i < p.len() ==> in_grid((#[trigger] p[i]).0, p[i].1) && at_col(reach, p[i].0, p[i].1)
}

proof fn lemma_walk_prefix(top: Seq<i64>, ok: Seq<bool>, p: Seq<(int, int)>, i: int)
    requires
        is_walk(top, ok, p),
        0 <= i < p.len(),
    ensures
        in_grid(p[i].0, p[i].1),
        reachable(top, ok, p[i]),
{
    let q = p.subrange(0, i + 1);
    assert forall|j: int| 0 <= j < q.len() - 1 implies #[trigger] can_move(top, ok, q[j], q[j + 1]) by {
        assert(q[j] == p[j] && q[j + 1] == p[j + 1]);
        assert(can_move(top, ok, p[j], p[j + 1]));
    }
    assert(is_walk(top, ok, q));
    assert(q.last() == p[i]);
    if i > 0 {
        let k = i - 1;
        assert(can_move(top, ok, p[k], p[k + 1]));
    } else {
        assert(p[0] == spawn());
    }
}

/// The columns marked reachable are only those Steve can walk to: a marked column is one he can stand on, and there
/// is a walk to it from the spawn whose every column is marked too.
pub proof fn law_walk_sound(top: Seq<i64>, ok: Seq<bool>, reach: Seq<bool>, c: (int, int))
    requires
        reach.len() == num_cols(),
        forall|x: int, z: int| in_grid(x, z) ==> (#[trigger] at_col(reach, x, z) <==> reachable(top, ok, (x, z))),
        in_grid(c.0, c.1),
        at_col(reach, c.0, c.1),
    ensures
        at_col(ok, c.0, c.1),
        exists|p: Seq<(int, int)>| #[trigger] is_walk(top, ok, p) && p.last() == c && all_marked(reach, p),
{
    assert(reachable(top, ok, c));
    lemma_reached_can_stand(top, ok, c);
    let p = choose|p: Seq<(int, int)>| #[trigger] is_walk(top, ok, p) && p.last() == c;
    assert forall|i: int| 0 <= i < p.len() implies (in_grid((#[trigger] p[i]).0, p[i].1) && at_col(reach, p[i].0, p[i].1)) by {
        lemma_walk_prefix(top, ok, p, i);
        let (x, z) = p[i];
        assert(in_grid(x, z));
        assert(at_col(reach, x, z) <==> reachable(top, ok, (x, z)));
    }
    assert(is_walk(top, ok, p) && p.last() == c && all_marked(reach, p));
}

/// Steve never stands on water, lava, logs, leaves, crystals, end rods or chorus plants: a column marked reachable
/// (as `walkable` marks them) has blocks, and its top block is none of those.
pub proof fn law_reached_columns_have_solid_tops(bl: Blocks, top: Seq<i64>, reach: Seq<bool>, x: int, z: int)
    requires
        reach.len() == num_cols(),
        exists|ok: Seq<bool>|
            ok.len() == num_cols() && (forall|x: int, z: int| in_grid(x, z) ==> #[trigger] at_col(ok, x, z) == can_stand(bl, x, z))
            && forall|x: int, z: int| in_grid(x, z) ==> (#[trigger] at_col(reach, x, z) <==> reachable(top, ok, (x, z))),
        in_grid(x, z),
        at_col(reach, x, z),
    ensures
        bl.spec_height(x, z) > 0,
        ({
            let b = bl.at(x, bl.spec_height(x, z) - 1, z);
            b != B::Water && b != B::Lava && b != B::Log && b != B::Leaves && b != B::Crystal && b != B::EndRod && b != B::Chorus
        }),
{
    let ok = choose|ok: Seq<bool>|
        ok.len() == num_cols() && (forall|x: int, z: int| in_grid(x, z) ==> #[trigger] at_col(ok, x, z) == can_stand(bl, x, z))
            && forall|x: int, z: int| in_grid(x, z) ==> (#[trigger] at_col(reach, x, z) <==> reachable(top, ok, (x, z)));
    assert(reachable(top, ok, (x, z)));
    lemma_reached_can_stand(top, ok, (x, z));
    assert(can_stand(bl, x, z));
}

/// How Steve walks, spelled out for the columns marked reachable (as `walkable` marks them): the spawn (28, 28) is
/// marked exactly when he can stand on it; from a marked column he reaches any side neighbour he can stand on
/// whose ground is at most 1 higher and at most 3 lower; and every marked column but the spawn has a marked side
/// neighbour he can have come from that way.
pub proof fn law_walk_steps(top: Seq<i64>, ok: Seq<bool>, reach: Seq<bool>, a: (int, int), b: (int, int))
    requires
        top.len() == num_cols(),
        ok.len() == num_cols(),
        reach.len() == num_cols(),
        forall|x: int, z: int| in_grid(x, z) ==> (#[trigger] at_col(reach, x, z) <==> reachable(top, ok, (x, z))),
    ensures
        at_col(reach, 28, 28) <==> at_col(ok, 28, 28),
        ({
            let side_by_side = in_grid(a.0, a.1) && in_grid(b.0, b.1) && ((a.1 == b.1 && (a.0 - b.0 == 1 || b.0 - a.0 == 1))
                || (a.0 == b.0 && (a.1 - b.1 == 1 || b.1 - a.1 == 1)));
            let ta = at_col(top, a.0, a.1) as int;
            let tb = at_col(top, b.0, b.1) as int;
            side_by_side && at_col(reach, a.0, a.1) && at_col(ok, b.0, b.1) && tb > 0 && tb - ta <= 1 && ta - tb <= 3
                ==> at_col(reach, b.0, b.1)
        }),
        in_grid(b.0, b.1) && at_col(reach, b.0, b.1) && b != (28int, 28int) ==> exists|a2: (int, int)| {
            &&& in_grid(a2.0, a2.1)
            &&& ((a2.1 == b.1 && (a2.0 - b.0 == 1 || b.0 - a2.0 == 1)) || (a2.0 == b.0 && (a2.1 - b.1 == 1 || b.1 - a2.1 == 1)))
            &&& #[trigger] at_col(reach, a2.0, a2.1)
            &&& at_col(top, b.0, b.1) > 0
            &&& at_col(top, b.0, b.1) - at_col(top, a2.0, a2.1) <= 1
            &&& at_col(top, a2.0, a2.1) - at_col(top, b.0, b.1) <= 3
        },
{
    lemma_spawn_reachable(top, ok);
    assert(spawn() == (28int, 28int));
    assert(in_grid(28, 28));
    if in_grid(a.0, a.1) && in_grid(b.0, b.1) && at_col(reach, a.0, a.1) && can_move(top, ok, a, b) {
        law_walk_complete(top, ok, reach, a, b);
    }
    if in_grid(b.0, b.1) && at_col(reach, b.0, b.1) && b != (28int, 28int) {
        assert(reachable(top, ok, b));
        let p = choose|p: Seq<(int, int)>| #[trigger] is_walk(top, ok, p) && p.last() == b;
        assert(p.len() > 1);
        let k = p.len() - 2;
        assert(can_move(top, ok, p[k], p[k + 1]));
        let a2 = p[k];
        lemma_walk_prefix(top, ok, p, k);
        assert(at_col(reach, a2.0, a2.1));
    }
}

} // verus!
