use std::collections::HashMap;
use vstd::prelude::*;

verus! {

broadcast use vstd::std_specs::hash::group_hash_axioms;

/// A lattice cell: column and row.
pub type Pos = (i32, i32);

/// The cells `(x, y)` with `min(a.0, b.0) <= x < max(a.0, b.0)` and
/// `min(a.1, b.1) <= y < max(a.1, b.1)`: a half-open rectangle.
pub open spec fn rect_cells(a: Pos, b: Pos) -> Set<Pos> {
    Set::new(
        |p: Pos|
            lo(a.0, b.0) <= p.0 < hi(a.0, b.0) && lo(a.1, b.1) <= p.1 < hi(a.1, b.1),
    )
}

pub open spec fn lo(a: i32, b: i32) -> i32 {
    if a <= b { a } else { b }
}

pub open spec fn hi(a: i32, b: i32) -> i32 {
    if a <= b { b } else { a }
}

/// The hash key of a cell: its two coordinates, each shifted to be
/// non-negative, side by side in one `u64`.
pub open spec fn cell_key(p: Pos) -> u64 {
    ((p.0 + 0x8000_0000) * 0x1_0000_0000 + (p.1 + 0x8000_0000)) as u64
}

proof fn lemma_key_fits(p: Pos)
    ensures
        0 <= (p.0 + 0x8000_0000) * 0x1_0000_0000 + (p.1 + 0x8000_0000) <= u64::MAX,
{
    let a: int = p.0 + 0x8000_0000;
    assert(0 <= a * 0x1_0000_0000 <= 0xFFFF_FFFF * 0x1_0000_0000) by (nonlinear_arith)
        requires
            0 <= a <= 0xFFFF_FFFF,
    ;
}

/// Distinct cells have distinct keys.
proof fn lemma_key_injective(p: Pos, q: Pos)
    requires
        cell_key(p) == cell_key(q),
    ensures
        p == q,
{
    lemma_key_fits(p);
    lemma_key_fits(q);
    let a1: int = p.0 + 0x8000_0000;
    let b1: int = p.1 + 0x8000_0000;
    let a2: int = q.0 + 0x8000_0000;
    let b2: int = q.1 + 0x8000_0000;
    assert(a1 == a2 && b1 == b2) by (nonlinear_arith)
        requires
            a1 * 0x1_0000_0000 + b1 == a2 * 0x1_0000_0000 + b2,
            0 <= b1 < 0x1_0000_0000,
            0 <= b2 < 0x1_0000_0000,
    ;
}

fn key_of(p: Pos) -> (k: u64)
    ensures
        k == cell_key(p),
{
    proof {
        lemma_key_fits(p);
    }
    let a = (p.0 as i64 + 0x8000_0000) as u64;
    let b = (p.1 as i64 + 0x8000_0000) as u64;
    proof {
        assert(a * 0x1_0000_0000 <= 0xFFFF_FFFF * 0x1_0000_0000) by (nonlinear_arith)
            requires
                a <= 0xFFFF_FFFF,
        ;
    }
    a * 0x1_0000_0000 + b
}

/// A finite set of lattice cells: the cells in a vector without repetition,
/// and a hash index from each cell's key to its place in the vector.
pub struct CellSet {
    items: Vec<Pos>,
    slots: HashMap<u64, usize>,
}

impl View for CellSet {
    type V = Set<Pos>;

    closed spec fn view(&self) -> Set<Pos> {
        self.items@.to_set()
    }
}

impl CellSet {
    /// Each cell is stored at most once.
    pub closed spec fn wf(&self) -> bool {
        &&& self.items@.no_duplicates()
        &&& forall|i: int|
            0 <= i < self.items@.len() ==> self.slots@.contains_key(
                cell_key(#[trigger] self.items@[i]),
            ) && self.slots@[cell_key(self.items@[i])] == i
        &&& forall|k: u64| #[trigger]
            self.slots@.contains_key(k) ==> self.slots@[k] < self.items@.len() && cell_key(
                self.items@[self.slots@[k] as int],
            ) == k
    }

    /// The stored cells in storage order.
    pub closed spec fn elems(&self) -> Seq<Pos> {
        self.items@
    }

    /// The stored sequence lists each cell of the set exactly once.
    pub proof fn lemma_elems(&self)
        requires
            self.wf(),
        ensures
            self.elems().no_duplicates(),
            self.elems().to_set() == self@,
            self.elems().len() == self@.len(),
            self@.finite(),
    {
        self.items@.unique_seq_to_set();
    }

    pub fn new() -> (r: CellSet)
        ensures
            r.wf(),
            r@ == Set::<Pos>::empty(),
    {
        let r = CellSet { items: Vec::new(), slots: HashMap::new() };
        proof {
            assert(r@ =~= Set::<Pos>::empty());
        }
        r
    }

    /// Number of cells.
    pub fn len(&self) -> (r: usize)
        ensures
            r == self.elems().len(),
    {
        self.items.len()
    }

    /// The cell stored at position `i`.
    pub fn get(&self, i: usize) -> (r: Pos)
        requires
            i < self.elems().len(),
        ensures
            r == self.elems()[i as int],
    {
        self.items[i]
    }

    fn index_of(&self, p: Pos) -> (r: Option<usize>)
        requires
            self.wf(),
        ensures
            match r {
                Some(i) => i < self.items@.len() && self.items@[i as int] == p,
                None => !self@.contains(p),
            },
    {
        let k = key_of(p);
        match self.slots.get(&k) {
            Some(i) => {
                let i = *i;
                proof {
                    lemma_key_injective(self.items@[i as int], p);
                }
                Some(i)
            },
            None => {
                proof {
                    if self@.contains(p) {
                        let j = choose|j: int| 0 <= j < self.items@.len() && self.items@[j] == p;
                    }
                }
                None
            },
        }
    }

    /// Membership test.
    pub fn contains(&self, p: Pos) -> (r: bool)
        requires
            self.wf(),
        ensures
            r == self@.contains(p),
    {
        match self.index_of(p) {
            Some(_) => true,
            None => false,
        }
    }

    /// Adds `p`; the result tells whether the set changed.
    pub fn insert(&mut self, p: Pos) -> (r: bool)
        requires
            old(self).wf(),
        ensures
            final(self).wf(),
            final(self)@ == old(self)@.insert(p),
            r == !old(self)@.contains(p),
    {
        if self.contains(p) {
            proof {
                assert(self@.insert(p) =~= self@);
            }
            false
        } else {
            let ghost before = self.items@;
            let ghost old_slots = self.slots@;
            let k = key_of(p);
            let n = self.items.len();
            self.items.push(p);
            self.slots.insert(k, n);
            proof {
                assert(self.items@ == before.push(p));
                assert forall|i: int| 0 <= i < before.len() implies before[i] != p by {
                    assert(before.contains(before[i]));
                }
                assert forall|i: int| 0 <= i < self.items@.len() implies self.slots@.contains_key(
                    cell_key(#[trigger] self.items@[i]),
                ) && self.slots@[cell_key(self.items@[i])] == i by {
                    if i < n {
                        assert(self.items@[i] == before[i]);
                        if cell_key(before[i]) == k {
                            lemma_key_injective(before[i], p);
                        }
                    }
                }
                assert forall|q: Pos| self@.contains(q) == before.to_set().insert(p).contains(q) by {
                    if q != p && self.items@.contains(q) {
                        let j = choose|j: int| 0 <= j < self.items@.len() && self.items@[j] == q;
                        assert(before[j] == q);
                    }
                    if before.contains(q) {
                        let j = choose|j: int| 0 <= j < before.len() && before[j] == q;
                        assert(self.items@[j] == q);
                    }
                    if q == p {
                        assert(self.items@[before.len() as int] == p);
                    }
                }
                assert(self@ =~= before.to_set().insert(p));
            }
            true
        }
    }

    /// Removes `p`; the result tells whether the set changed.
    pub fn remove(&mut self, p: Pos) -> (r: bool)
        requires
            old(self).wf(),
        ensures
            final(self).wf(),
            final(self)@ == old(self)@.remove(p),
            r == old(self)@.contains(p),
    {
        match self.index_of(p) {
            None => {
                proof {
                    assert(self@.remove(p) =~= self@);
                }
                false
            },
            Some(i) => {
                let ghost before = self.items@;
                let ghost old_slots = self.slots@;
                let k = key_of(p);
                let last = self.items.len() - 1;
                self.items.swap_remove(i);
                if i < last {
                    let moved = self.items[i];
                    let mk = key_of(moved);
                    self.slots.insert(mk, i);
                }
                self.slots.remove(&k);
                proof {
                    let after = self.items@;
                    assert(after == before.update(i as int, before.last()).drop_last());
                    let src = |a: int| if a == i { last as int } else { a };
                    assert forall|a: int| 0 <= a < after.len() implies after[a] == before[src(a)]
                        && src(a) != i by {}
                    assert forall|a: int, b: int|
                        0 <= a < after.len() && 0 <= b < after.len() && a != b implies after[a]
                        != after[b] by {
                        assert(after[a] == before[src(a)]);
                        assert(after[b] == before[src(b)]);
                    }
                    assert forall|a: int| 0 <= a < after.len() implies self.slots@.contains_key(
                        cell_key(#[trigger] after[a]),
                    ) && self.slots@[cell_key(after[a])] == a by {
                        assert(after[a] == before[src(a)]);
                        if cell_key(after[a]) == k {
                            lemma_key_injective(after[a], p);
                            assert(before[src(a)] == before[i as int]);
                        }
                        if a != i && i < last {
                            if cell_key(after[a]) == cell_key(after[i as int]) {
                                lemma_key_injective(after[a], after[i as int]);
                            }
                        }
                    }
                    assert forall|kk: u64| #[trigger] self.slots@.contains_key(kk) implies self.slots@[kk]
                        < after.len() && cell_key(after[self.slots@[kk] as int]) == kk by {
                        if i < last && kk == cell_key(before[last as int]) {
                        } else {
                            let j = old_slots[kk];
                            assert(cell_key(before[j as int]) == kk);
                            assert(j != i);
                            if j == last {
                                assert(kk == cell_key(before[last as int]));
                            }
                            assert(after[j as int] == before[j as int]);
                        }
                    }
                    assert forall|q: Pos| self@.contains(q) == before.to_set().remove(p).contains(q) by {
                        if after.contains(q) {
                            let j = choose|j: int| 0 <= j < after.len() && after[j] == q;
                            assert(before[src(j)] == q);
                        }
                        if q != p && before.contains(q) {
                            let j = choose|j: int| 0 <= j < before.len() && before[j] == q;
                            assert(j != i);
                            if j == last {
                                assert(after[i as int] == q);
                            } else {
                                assert(after[j] == q);
                            }
                        }
                    }
                    assert(self@ =~= before.to_set().remove(p));
                }
                true
            },
        }
    }

    /// Adds `p` if absent, removes it otherwise.
    pub fn toggle(&mut self, p: Pos)
        requires
            old(self).wf(),
        ensures
            final(self).wf(),
            final(self)@ == (if old(self)@.contains(p) {
                old(self)@.remove(p)
            } else {
                old(self)@.insert(p)
            }),
    {
        if !self.insert(p) {
            self.remove(p);
        }
    }

    /// Empties the set.
    pub fn clear(&mut self)
        requires
            old(self).wf(),
        ensures
            final(self).wf(),
            final(self)@ == Set::<Pos>::empty(),
    {
        self.items.clear();
        self.slots.clear();
        proof {
            assert(self@ =~= Set::<Pos>::empty());
        }
    }

    /// The cells of the half-open rectangle spanned by `a` and `b`.
    pub fn select_rect(a: Pos, b: Pos) -> (r: CellSet)
        ensures
            r.wf(),
            r@ == rect_cells(a, b),
    {
        let x0 = if a.0 <= b.0 { a.0 } else { b.0 };
        let x1 = if a.0 <= b.0 { b.0 } else { a.0 };
        let y0 = if a.1 <= b.1 { a.1 } else { b.1 };
        let y1 = if a.1 <= b.1 { b.1 } else { a.1 };
        let mut r = CellSet::new();
        let mut x: i32 = x0;
        while x < x1
            invariant
                x0 <= x <= x1,
                x0 == lo(a.0, b.0) && x1 == hi(a.0, b.0),
                y0 == lo(a.1, b.1) && y1 == hi(a.1, b.1),
                r.wf(),
                r@ == Set::new(|p: Pos| x0 <= p.0 < x && y0 <= p.1 < y1),
            decreases x1 - x,
        {
            let mut y: i32 = y0;
            while y < y1
                invariant
                    x0 <= x < x1,
                    y0 <= y <= y1,
                    r.wf(),
                    r@ == Set::new(
                        |p: Pos| (x0 <= p.0 < x && y0 <= p.1 < y1) || (p.0 == x && y0 <= p.1 < y),
                    ),
                decreases y1 - y,
            {
                let ghost prev = r@;
                r.insert((x, y));
                proof {
                    assert(r@ =~= Set::new(
                        |p: Pos| (x0 <= p.0 < x && y0 <= p.1 < y1) || (p.0 == x && y0 <= p.1 < y + 1),
                    ));
                }
                y = y + 1;
            }
            proof {
                assert(r@ =~= Set::new(|p: Pos| x0 <= p.0 < x + 1 && y0 <= p.1 < y1));
            }
            x = x + 1;
        }
        proof {
            assert(r@ =~= rect_cells(a, b));
        }
        r
    }
}

} // verus!
