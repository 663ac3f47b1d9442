use vstd::prelude::*;
use crate::cells::{CellSet, Pos};

verus! {

/// A clipboard entry: offset from the capture origin, and whether the cell
/// was alive.
pub type Entry = (i64, i64, bool);

/// The entry that copying cell `p` records, for selection anchor `anchor`,
/// pan offset `off` and live set `live`.
pub open spec fn entry_of(p: Pos, anchor: Pos, off: Pos, live: Set<Pos>) -> Entry {
    (
        (p.0 - anchor.0 - off.0) as i64,
        (p.1 - anchor.1 - off.1) as i64,
        live.contains(p),
    )
}

/// What copying `sel` records.
pub open spec fn copied(sel: Set<Pos>, anchor: Pos, off: Pos, live: Set<Pos>) -> Set<Entry> {
    sel.map(|p: Pos| entry_of(p, anchor, off, live))
}

/// The live set after pasting `clip` under pan offset `off`: the entry with
/// offset `(dx, dy)` lands on cell `(dx - off.0, dy - off.1)` and sets it alive
/// or dead as recorded; other cells keep their state.
pub open spec fn pasted(live: Set<Pos>, clip: Set<Entry>, off: Pos) -> Set<Pos> {
    Set::new(
        |q: Pos|
            clip.contains(((q.0 + off.0) as i64, (q.1 + off.1) as i64, true)) || (!clip.contains(
                ((q.0 + off.0) as i64, (q.1 + off.1) as i64, false),
            ) && live.contains(q)),
    )
}

/// Bound on the offsets a copy can record: three `i32` magnitudes.
pub const OFFSET_BOUND: i64 = 0x2_0000_0000;

/// Cells captured by a copy, relative to where they were taken.
pub struct Clipboard {
    entries: Vec<Entry>,
}

impl View for Clipboard {
    type V = Set<Entry>;

    closed spec fn view(&self) -> Set<Entry> {
        self.entries@.to_set()
    }
}

impl Clipboard {
    /// No two stored entries share an offset.
    pub closed spec fn wf(&self) -> bool {
        (forall|k: int|
            0 <= k < self.entries@.len() ==> -OFFSET_BOUND <= #[trigger] self.entries@[k].0
                <= OFFSET_BOUND && -OFFSET_BOUND <= self.entries@[k].1 <= OFFSET_BOUND) && forall|
            i: int,
            j: int,
        |
            0 <= i < self.entries@.len() && 0 <= j < self.entries@.len() && #[trigger] self.entries@[i].0
                == #[trigger] self.entries@[j].0 && self.entries@[i].1 == self.entries@[j].1
                ==> i == j
    }

    /// Number of entries.
    pub fn len(&self) -> (r: usize)
        requires
            self.wf(),
        ensures
            r as nat == self@.len(),
    {
        proof {
            let e = self.entries@;
            assert forall|i: int, j: int| 0 <= i < e.len() && 0 <= j < e.len() && i != j implies e[i]
                != e[j] by {
                if e[i] == e[j] {
                    assert(e[i].0 == e[j].0);
                }
            }
            e.unique_seq_to_set();
        }
        self.entries.len()
    }

    pub fn new() -> (r: Clipboard)
        ensures
            r.wf(),
            r@ == Set::<Entry>::empty(),
    {
        let r = Clipboard { entries: Vec::new() };
        proof {
            assert(r@ =~= Set::<Entry>::empty());
        }
        r
    }

    /// Replaces the contents with the cells of `sel`, each with its state in
    /// `live`, relative to `anchor` and the pan offset `off`.
    pub fn copy_from(&mut self, sel: &CellSet, live: &CellSet, anchor: Pos, off: Pos)
        requires
            sel.wf(),
            live.wf(),
        ensures
            final(self).wf(),
            final(self)@ == copied(sel@, anchor, off, live@),
    {
        self.entries.clear();
        let n = sel.len();
        let mut i: usize = 0;
        proof {
            sel.lemma_elems();
        }
        while i < n
            invariant
                sel.wf(),
                live.wf(),
                n == sel.elems().len(),
                sel.elems().no_duplicates(),
                i <= n,
                self.entries@.len() == i,
                forall|k: int|
                    0 <= k < i ==> #[trigger] self.entries@[k] == entry_of(
                        sel.elems()[k],
                        anchor,
                        off,
                        live@,
                    ),
            decreases n - i,
        {
            let p = sel.get(i);
            let dx = p.0 as i64 - anchor.0 as i64 - off.0 as i64;
            let dy = p.1 as i64 - anchor.1 as i64 - off.1 as i64;
            let alive = live.contains(p);
            self.entries.push((dx, dy, alive));
            i = i + 1;
        }
        proof {
            sel.lemma_elems();
            let e = self.entries@;
            let s = sel.elems();
            assert forall|i: int, j: int|
                0 <= i < e.len() && 0 <= j < e.len() && #[trigger] e[i].0 == #[trigger] e[j].0
                    && e[i].1 == e[j].1 implies i == j by {
                assert(e[i] == entry_of(s[i], anchor, off, live@));
                assert(e[j] == entry_of(s[j], anchor, off, live@));
                assert(s[i] == s[j]);
            }
            assert forall|x: Entry| #[trigger] self@.contains(x) == copied(
                sel@,
                anchor,
                off,
                live@,
            ).contains(x) by {
                if self@.contains(x) {
                    let k = choose|k: int| 0 <= k < e.len() && e[k] == x;
                    assert(e[k] == entry_of(s[k], anchor, off, live@));
                    assert(s.contains(s[k]));
                    assert(sel@.contains(s[k]));
                    assert(sel@.contains(s[k]) && entry_of(s[k], anchor, off, live@) == x);
                }
                if copied(sel@, anchor, off, live@).contains(x) {
                    let p = choose|p: Pos| sel@.contains(p) && entry_of(p, anchor, off, live@) == x;
                    assert(s.contains(p));
                    let k = choose|k: int| 0 <= k < s.len() && s[k] == p;
                    assert(e[k] == x);
                }
            }
            assert(self@ =~= copied(sel@, anchor, off, live@));
        }
    }

    /// Writes every entry into `live` under pan offset `off`; an entry whose
    /// cell lies outside the `i32` lattice is skipped.
    pub fn paste_into(&self, live: &mut CellSet, off: Pos)
        requires
            self.wf(),
            old(live).wf(),
        ensures
            final(live).wf(),
            final(live)@ == pasted(old(live)@, self@, off),
    {
        let ghost start = live@;
        let n = self.entries.len();
        let mut i: usize = 0;
        while i < n
            invariant
                self.wf(),
                n == self.entries@.len(),
                i <= n,
                live.wf(),
                live@ == pasted(
                    start,
                    Set::new(|x: Entry| exists|k: int| 0 <= k < i && self.entries@[k] == x),
                    off,
                ),
            decreases n - i,
        {
            let e = self.entries[i];
            let tx = e.0 - off.0 as i64;
            let ty = e.1 - off.1 as i64;
            let ghost prev = live@;
            let ghost before = Set::new(
                |x: Entry| exists|k: int| 0 <= k < i && self.entries@[k] == x,
            );
            let ghost after = Set::new(
                |x: Entry| exists|k: int| 0 <= k < i + 1 && self.entries@[k] == x,
            );
            proof {
                assert(after =~= before.insert(e)) by {
                    assert(self.entries@[i as int] == e);
                    assert forall|x: Entry| after.contains(x) implies before.insert(e).contains(x) by {
                        let k = choose|k: int| 0 <= k < i + 1 && self.entries@[k] == x;
                        if k < i {
                            assert(before.contains(x));
                        }
                    }
                }
                assert forall|b: bool| !before.contains((e.0, e.1, b)) by {
                    if before.contains((e.0, e.1, b)) {
                        let k = choose|k: int| 0 <= k < i && self.entries@[k] == (e.0, e.1, b);
                        assert(self.entries@[k].0 == self.entries@[i as int].0);
                    }
                }
            }
            if i32::MIN as i64 <= tx && tx <= i32::MAX as i64 && i32::MIN as i64 <= ty && ty
                <= i32::MAX as i64 {
                let q: Pos = (tx as i32, ty as i32);
                if e.2 {
                    live.insert(q);
                } else {
                    live.remove(q);
                }
                proof {
                    assert(live@ =~= pasted(start, after, off));
                }
            } else {
                proof {
                    assert(live@ =~= pasted(start, after, off));
                }
            }
            i = i + 1;
        }
        proof {
            assert(Set::new(|x: Entry| exists|k: int| 0 <= k < n && self.entries@[k] == x)
                =~= self@);
        }
    }
}

} // verus!
