use vstd::prelude::*;
use crate::cells::Pos;
use crate::clipboard::{copied, entry_of, pasted, Entry};
use crate::editor::{paint_step, toggled};
use crate::life::{live_at, neighbor_count, next_gen};

verus! {

/// Bringing a cell to life twice leaves the live set as once does, and so
/// does killing it twice; toggling a cell twice restores the live set.
pub proof fn lemma_idempotent_toggle(s: Set<Pos>, p: Pos)
    ensures
        s.insert(p).insert(p) == s.insert(p),
        s.remove(p).remove(p) == s.remove(p),
        toggled(toggled(s, p), p) == s,
{
    assert(s.insert(p).insert(p) =~= s.insert(p));
    assert(s.remove(p).remove(p) =~= s.remove(p));
    assert(toggled(toggled(s, p), p) =~= s);
}

/// The next generation depends on the live cells alone: two live sets with
/// the same cells give the same next generation.
pub proof fn lemma_generation_deterministic(a: Set<Pos>, b: Set<Pos>)
    requires
        a == b,
    ensures
        next_gen(a) == next_gen(b),
{
}

/// A live cell without live neighbours is dead in the next generation.
pub proof fn lemma_isolation(s: Set<Pos>, p: Pos)
    requires
        s.contains(p),
        neighbor_count(s, p.0 as int, p.1 as int) == 0,
    ensures
        !next_gen(s).contains(p),
{
}

/// A dead cell is alive in the next generation exactly when it has three
/// live neighbours: with two, or four or more, it stays dead.
pub proof fn lemma_birth(s: Set<Pos>, p: Pos)
    requires
        !s.contains(p),
    ensures
        next_gen(s).contains(p) <==> neighbor_count(s, p.0 as int, p.1 as int) == 3,
{
    assert(!live_at(s, p.0 as int, p.1 as int));
}

/// Copying a selection and pasting it back restores each selected cell's
/// captured state, dead cells included: the cell `p` copied with anchor
/// `anchor` under pan offset `copy_off` and pasted under pan offset
/// `paste_off` lands on `p - anchor - copy_off - paste_off` (on `p` itself
/// when those three sum to zero), which is then alive exactly when `p` was.
pub proof fn lemma_copy_paste_round_trip(
    live: Set<Pos>,
    sel: Set<Pos>,
    anchor: Pos,
    copy_off: Pos,
    paste_off: Pos,
    p: Pos,
)
    requires
        sel.contains(p),
        i32::MIN <= p.0 - anchor.0 - copy_off.0 - paste_off.0 <= i32::MAX,
        i32::MIN <= p.1 - anchor.1 - copy_off.1 - paste_off.1 <= i32::MAX,
    ensures
        pasted(live, copied(sel, anchor, copy_off, live), paste_off).contains(
            (
                (p.0 - anchor.0 - copy_off.0 - paste_off.0) as i32,
                (p.1 - anchor.1 - copy_off.1 - paste_off.1) as i32,
            ),
        ) == live.contains(p),
{
    let clip = copied(sel, anchor, copy_off, live);
    let e = entry_of(p, anchor, copy_off, live);
    assert(clip.contains(e));
    let other: Entry = (e.0, e.1, !e.2);
    if clip.contains(other) {
        let q = choose|q: Pos| sel.contains(q) && entry_of(q, anchor, copy_off, live) == other;
        assert(q == p);
    }
}

/// `n` paint events in a row over cell `p`.
pub open spec fn paint_repeat(live: Set<Pos>, painted: bool, erased: bool, p: Pos, n: nat) -> (
    Set<Pos>,
    bool,
    bool,
)
    decreases n,
{
    if n == 0 {
        (live, painted, erased)
    } else {
        let (l, a, e) = paint_step(live, painted, erased, p);
        paint_repeat(l, a, e, p, (n - 1) as nat)
    }
}

/// Paint events over one cell after the first change nothing.
pub proof fn lemma_paint_step_settles(live: Set<Pos>, painted: bool, erased: bool, p: Pos)
    ensures
        ({
            let (l, a, e) = paint_step(live, painted, erased, p);
            paint_step(l, a, e, p) == (l, a, e)
        }),
{
}

/// During one drag, any number of paint events over one cell toggle it at
/// most once; from a fresh drag, at least one event toggles it exactly once.
pub proof fn lemma_paint_latch(live: Set<Pos>, painted: bool, erased: bool, p: Pos, n: nat)
    ensures
        paint_repeat(live, painted, erased, p, n).0 == live || paint_repeat(
            live,
            painted,
            erased,
            p,
            n,
        ).0 == toggled(live, p),
        n >= 1 && !painted && !erased ==> paint_repeat(live, painted, erased, p, n).0 == toggled(
            live,
            p,
        ),
    decreases n,
{
    if n >= 1 {
        lemma_repeat_after_first(live, painted, erased, p, n);
        let (l, a, e) = paint_step(live, painted, erased, p);
        assert(l == live || l == toggled(live, p)) by {
            if !erased && !live.contains(p) {
                assert(l == toggled(live, p));
            } else if !painted && live.contains(p) {
                assert(l == toggled(live, p));
            }
        }
    }
}

proof fn lemma_repeat_after_first(live: Set<Pos>, painted: bool, erased: bool, p: Pos, n: nat)
    requires
        n >= 1,
    ensures
        paint_repeat(live, painted, erased, p, n) == paint_step(live, painted, erased, p),
    decreases n,
{
    lemma_paint_step_settles(live, painted, erased, p);
    let (l, a, e) = paint_step(live, painted, erased, p);
    assert(paint_repeat(live, painted, erased, p, n) == paint_repeat(l, a, e, p, (n - 1) as nat));
    if n > 1 {
        lemma_repeat_after_first(l, a, e, p, (n - 1) as nat);
        assert(paint_repeat(l, a, e, p, (n - 1) as nat) == paint_step(l, a, e, p));
    } else {
        assert(paint_repeat(l, a, e, p, 0) == (l, a, e));
    }
}

} // verus!
