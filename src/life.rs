use vstd::prelude::*;
use crate::cells::{CellSet, Pos};

verus! {

/// Whether the lattice point `(x, y)` is a live cell of `s`; points that no
/// `i32` pair can name are never alive.
pub open spec fn live_at(s: Set<Pos>, x: int, y: int) -> bool {
    i32::MIN <= x <= i32::MAX && i32::MIN <= y <= i32::MAX && s.contains((x as i32, y as i32))
}

pub open spec fn one_if(b: bool) -> nat {
    if b { 1 } else { 0 }
}

/// How many of the eight Moore neighbours of `(x, y)` are alive in `s`.
pub open spec fn neighbor_count(s: Set<Pos>, x: int, y: int) -> nat {
    one_if(live_at(s, x - 1, y - 1)) + one_if(live_at(s, x, y - 1)) + one_if(
        live_at(s, x + 1, y - 1),
    ) + one_if(live_at(s, x - 1, y)) + one_if(live_at(s, x + 1, y)) + one_if(
        live_at(s, x - 1, y + 1),
    ) + one_if(live_at(s, x, y + 1)) + one_if(live_at(s, x + 1, y + 1))
}

/// The Life rule: a live cell survives with two or three live neighbours, a
/// dead cell is born with exactly three.
pub open spec fn alive_next(s: Set<Pos>, x: int, y: int) -> bool {
    if live_at(s, x, y) {
        neighbor_count(s, x, y) == 2 || neighbor_count(s, x, y) == 3
    } else {
        neighbor_count(s, x, y) == 3
    }
}

/// The generation that follows `s`.
pub open spec fn next_gen(s: Set<Pos>) -> Set<Pos> {
    Set::new(|p: Pos| alive_next(s, p.0 as int, p.1 as int))
}

/// A cell far enough from the edge of the `i32` lattice that its neighbours'
/// neighbours can be named.
pub open spec fn inner(p: Pos) -> bool {
    i32::MIN + 2 <= p.0 <= i32::MAX - 2 && i32::MIN + 2 <= p.1 <= i32::MAX - 2
}

/// Every cell of `s` is inner.
pub open spec fn all_inner(s: Set<Pos>) -> bool {
    forall|p: Pos| s.contains(p) ==> inner(p)
}

/// Counts the live neighbours of `(x, y)`.
pub fn count_neighbors(live: &CellSet, x: i32, y: i32) -> (r: u8)
    requires
        live.wf(),
        i32::MIN < x < i32::MAX,
        i32::MIN < y < i32::MAX,
    ensures
        r as nat == neighbor_count(live@, x as int, y as int),
{
    let mut n: u8 = 0;
    if live.contains((x - 1, y - 1)) { n = n + 1; }
    if live.contains((x, y - 1)) { n = n + 1; }
    if live.contains((x + 1, y - 1)) { n = n + 1; }
    if live.contains((x - 1, y)) { n = n + 1; }
    if live.contains((x + 1, y)) { n = n + 1; }
    if live.contains((x - 1, y + 1)) { n = n + 1; }
    if live.contains((x, y + 1)) { n = n + 1; }
    if live.contains((x + 1, y + 1)) { n = n + 1; }
    n
}

/// The cells that are born: dead neighbours of some live cell of `snap[..upto]`
/// with exactly three live neighbours.
pub open spec fn births_upto(s: Set<Pos>, snap: Seq<Pos>, upto: int) -> Set<Pos> {
    Set::new(
        |p: Pos|
            !s.contains(p) && neighbor_count(s, p.0 as int, p.1 as int) == 3 && exists|j: int|
                0 <= j < upto && #[trigger] adjacent(snap[j], p),
    )
}

/// `q` is one of the eight neighbours of `p`.
pub open spec fn adjacent(p: Pos, q: Pos) -> bool {
    -1 <= q.0 - p.0 <= 1 && -1 <= q.1 - p.1 <= 1 && q != p
}

/// Records `(x, y)` as born if it is dead and has exactly three live neighbours.
fn consider_birth(live: &CellSet, born: &mut CellSet, x: i32, y: i32)
    requires
        live.wf(),
        old(born).wf(),
        i32::MIN < x < i32::MAX,
        i32::MIN < y < i32::MAX,
    ensures
        final(born).wf(),
        final(born)@ == (if !live@.contains((x, y)) && neighbor_count(live@, x as int, y as int)
            == 3 {
            old(born)@.insert((x, y))
        } else {
            old(born)@
        }),
{
    if !live.contains((x, y)) {
        let n = count_neighbors(live, x, y);
        if n == 3 {
            born.insert((x, y));
        }
    }
}

/// Computes the generation after `live`, reading only `live`.
#[verifier::rlimit(40)]
pub fn next_generation(live: &CellSet) -> (r: CellSet)
    requires
        live.wf(),
        all_inner(live@),
    ensures
        r.wf(),
        r@ == next_gen(live@),
{
    let s = Ghost(live@);
    let snap = Ghost(live.elems());
    proof {
        live.lemma_elems();
    }
    let mut survivors = CellSet::new();
    let mut born = CellSet::new();
    let n = live.len();
    let mut i: usize = 0;
    while i < n
        invariant
            live.wf(),
            n == snap@.len(),
            snap@ == live.elems(),
            snap@.to_set() == s@,
            s@ == live@,
            all_inner(s@),
            i <= n,
            survivors.wf(),
            born.wf(),
            survivors@ == Set::new(
                |p: Pos|
                    exists|j: int|
                        0 <= j < i && snap@[j] == p && alive_next(s@, p.0 as int, p.1 as int),
            ),
            born@ == births_upto(s@, snap@, i as int),
        decreases n - i,
    {
        let c = live.get(i);
        proof {
            assert(s@.contains(c));
            assert(inner(c));
        }
        let (x, y) = c;
        let k = count_neighbors(live, x, y);
        let ghost prev_surv = survivors@;
        if k == 2 || k == 3 {
            survivors.insert(c);
        }
        proof {
            assert(live_at(s@, x as int, y as int));
            assert(survivors@ =~= Set::new(
                |p: Pos|
                    exists|j: int|
                        0 <= j < i + 1 && snap@[j] == p && alive_next(s@, p.0 as int, p.1 as int),
            )) by {
                assert forall|p: Pos|
                    (exists|j: int|
                        0 <= j < i + 1 && snap@[j] == p && alive_next(
                            s@,
                            p.0 as int,
                            p.1 as int,
                        )) implies survivors@.contains(p) by {
                    let j = choose|j: int|
                        0 <= j < i + 1 && snap@[j] == p && alive_next(s@, p.0 as int, p.1 as int);
                    if j < i {
                        assert(prev_surv.contains(p));
                    }
                }
            }
        }
        let ghost prev_born = born@;
        consider_birth(live, &mut born, x - 1, y - 1);
        consider_birth(live, &mut born, x, y - 1);
        consider_birth(live, &mut born, x + 1, y - 1);
        consider_birth(live, &mut born, x - 1, y);
        consider_birth(live, &mut born, x + 1, y);
        consider_birth(live, &mut born, x - 1, y + 1);
        consider_birth(live, &mut born, x, y + 1);
        consider_birth(live, &mut born, x + 1, y + 1);
        proof {
            let ii = i as int;
            assert(snap@[ii] == c);
            assert forall|p: Pos| #[trigger]
                born@.contains(p) == births_upto(s@, snap@, ii + 1).contains(p) by {
                if births_upto(s@, snap@, ii + 1).contains(p) {
                    let j = choose|j: int| 0 <= j < ii + 1 && #[trigger] adjacent(snap@[j], p);
                    if j < ii {
                        assert(prev_born.contains(p));
                    }
                }
                if born@.contains(p) && !prev_born.contains(p) {
                    assert(adjacent(snap@[ii], p));
                }
                if prev_born.contains(p) {
                    let j = choose|j: int| 0 <= j < ii && #[trigger] adjacent(snap@[j], p);
                    assert(adjacent(snap@[j], p));
                }
            }
            assert(born@ =~= births_upto(s@, snap@, ii + 1));
        }
        i = i + 1;
    }
    proof {
        lemma_births_complete(s@, snap@);
    }
    let r = merge(survivors, &born);
    proof {
        assert forall|p: Pos| #[trigger] r@.contains(p) == next_gen(s@).contains(p) by {
            if s@.contains(p) {
                assert(live_at(s@, p.0 as int, p.1 as int));
                if alive_next(s@, p.0 as int, p.1 as int) {
                    let j = choose|j: int| 0 <= j < snap@.len() && snap@[j] == p;
                    assert(survivors@.contains(p) || r@.contains(p));
                }
            } else {
                assert(!live_at(s@, p.0 as int, p.1 as int));
                if survivors@.contains(p) {
                    let j = choose|j: int|
                        0 <= j < n && snap@[j] == p && alive_next(s@, p.0 as int, p.1 as int);
                    assert(s@.contains(snap@[j]));
                }
            }
        }
        assert(r@ =~= next_gen(s@));
    }
    r
}

/// Every dead cell with three live neighbours is adjacent to a live cell.
proof fn lemma_births_complete(s: Set<Pos>, snap: Seq<Pos>)
    requires
        snap.to_set() == s,
        all_inner(s),
    ensures
        forall|p: Pos|
            !s.contains(p) && neighbor_count(s, p.0 as int, p.1 as int) == 3 ==> births_upto(
                s,
                snap,
                snap.len() as int,
            ).contains(p),
{
    assert forall|p: Pos|
        !s.contains(p) && neighbor_count(s, p.0 as int, p.1 as int) == 3 implies births_upto(
            s,
            snap,
            snap.len() as int,
        ).contains(p) by {
        let x = p.0 as int;
        let y = p.1 as int;
        let q: Pos = if live_at(s, x - 1, y - 1) {
            ((x - 1) as i32, (y - 1) as i32)
        } else if live_at(s, x, y - 1) {
            (x as i32, (y - 1) as i32)
        } else if live_at(s, x + 1, y - 1) {
            ((x + 1) as i32, (y - 1) as i32)
        } else if live_at(s, x - 1, y) {
            ((x - 1) as i32, y as i32)
        } else if live_at(s, x + 1, y) {
            ((x + 1) as i32, y as i32)
        } else if live_at(s, x - 1, y + 1) {
            ((x - 1) as i32, (y + 1) as i32)
        } else if live_at(s, x, y + 1) {
            (x as i32, (y + 1) as i32)
        } else {
            ((x + 1) as i32, (y + 1) as i32)
        };
        assert(s.contains(q));
        assert(snap.contains(q));
        let j = choose|j: int| 0 <= j < snap.len() && snap[j] == q;
        assert(adjacent(snap[j], p));
    }
}

/// Joins two disjoint cell sets.
fn merge(a: CellSet, b: &CellSet) -> (r: CellSet)
    requires
        a.wf(),
        b.wf(),
    ensures
        r.wf(),
        r@ == a@.union(b@),
{
    let mut r = a;
    let n = b.len();
    let mut i: usize = 0;
    while i < n
        invariant
            r.wf(),
            b.wf(),
            n == b.elems().len(),
            i <= n,
            r@ == a@.union(Set::new(|z: Pos| exists|j: int| 0 <= j < i && b.elems()[j] == z)),
        decreases n - i,
    {
        let ghost prev = r@;
        let q = b.get(i);
        r.insert(q);
        proof {
            assert forall|z: Pos| #[trigger] r@.contains(z) == a@.union(
                Set::new(|z: Pos| exists|j: int| 0 <= j < i + 1 && b.elems()[j] == z),
            ).contains(z) by {
                if z == q {
                    assert(b.elems()[i as int] == z);
                } else if exists|j: int| 0 <= j < i + 1 && b.elems()[j] == z {
                    let j = choose|j: int| 0 <= j < i + 1 && b.elems()[j] == z;
                    assert(j < i);
                }
            }
            assert(r@ =~= a@.union(
                Set::new(|z: Pos| exists|j: int| 0 <= j < i + 1 && b.elems()[j] == z),
            ));
        }
        i = i + 1;
    }
    proof {
        b.lemma_elems();
        assert(Set::new(|z: Pos| exists|j: int| 0 <= j < n && b.elems()[j] == z) =~= b@);
    }
    r
}

} // verus!
