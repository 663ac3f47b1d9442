use vstd::prelude::*;
use crate::cells::{CellSet, Pos, rect_cells};
use crate::clipboard::{Clipboard, copied, pasted};
use crate::life::{all_inner, next_gen, next_generation};

verus! {

/// The keys the editor reacts to; every other key is `Other`.
#[derive(Clone, Copy, Debug, PartialEq, Eq, Structural)]
pub enum Key {
    Tab,
    Space,
    C,
    V,
    Left,
    Right,
    Up,
    Down,
    Return,
    I,
    O,
    Other,
}

/// Zoom, in half pixels per grid unit, below which zooming out stops.
pub const MIN_ZOOM_OUT_HALVES: u32 = 3;

/// The whole state of the sandbox: live cells, selection, clipboard, view and
/// run state.
pub struct Model {
    /// The live cells.
    pub live: CellSet,
    /// The cells of the last selection rectangle.
    pub sel_points: CellSet,
    /// The cells captured by the last copy.
    pub clipboard: Clipboard,
    /// The corner where the selection drag started.
    pub start_pos: Pos,
    /// The corner under the pointer during the selection drag.
    pub current_pos: Pos,
    /// A selection drag is under way.
    pub selector_active: bool,
    /// The current paint drag has brought a cell to life.
    pub painted: bool,
    /// The current paint drag has erased a cell.
    pub erased: bool,
    /// Pan offset in grid units; the screen centre shows cell `-offset`.
    pub offset: Pos,
    /// Zoom in half pixels per grid unit.
    pub zoom_halves: u32,
    /// The keyboard marker is shown and can toggle cells.
    pub marker_mode: bool,
    /// The automaton is advancing.
    pub running: bool,
    /// Milliseconds per generation while running.
    pub speed: u64,
}

/// The grid cell under screen cell `pointer` with pan offset `off`, if an
/// `i32` pair can name it.
pub open spec fn grid_cell_of(pointer: Pos, off: Pos) -> Option<Pos> {
    let x = pointer.0 - off.0;
    let y = pointer.1 - off.1;
    if i32::MIN <= x <= i32::MAX && i32::MIN <= y <= i32::MAX {
        Some((x as i32, y as i32))
    } else {
        None
    }
}

/// One paint event over cell `p`: live set and the two drag latches after it.
pub open spec fn paint_step(live: Set<Pos>, painted: bool, erased: bool, p: Pos) -> (
    Set<Pos>,
    bool,
    bool,
) {
    if !erased && !live.contains(p) {
        (live.insert(p), true, erased)
    } else if !painted && live.contains(p) {
        (live.remove(p), painted, true)
    } else {
        (live, painted, erased)
    }
}

/// The live set with `p` flipped.
pub open spec fn toggled(s: Set<Pos>, p: Pos) -> Set<Pos> {
    if s.contains(p) {
        s.remove(p)
    } else {
        s.insert(p)
    }
}

/// Pan components stay within `-i32::MAX ..= i32::MAX`, so that the cell at
/// the screen centre can always be named.
pub open spec fn offset_ok(off: Pos) -> bool {
    -i32::MAX <= off.0 && -i32::MAX <= off.1
}

/// The grid cell under screen cell `pointer` with pan offset `off`.
pub fn grid_cell(pointer: Pos, off: Pos) -> (r: Option<Pos>)
    ensures
        r == grid_cell_of(pointer, off),
{
    let x = pointer.0 as i64 - off.0 as i64;
    let y = pointer.1 as i64 - off.1 as i64;
    if i32::MIN as i64 <= x && x <= i32::MAX as i64 && i32::MIN as i64 <= y && y <= i32::MAX as i64 {
        Some((x as i32, y as i32))
    } else {
        None
    }
}

impl Model {
    /// The parts' own invariants, and the pan bound.
    pub open spec fn wf(&self) -> bool {
        self.live.wf() && self.sel_points.wf() && self.clipboard.wf() && offset_ok(self.offset)
    }

    /// An empty, paused sandbox at zoom `zoom_halves / 2` and the given speed.
    pub fn new(speed: u64, zoom_halves: u32) -> (r: Model)
        ensures
            r.wf(),
            r.live@ == Set::<Pos>::empty(),
            r.sel_points@ == Set::<Pos>::empty(),
            r.clipboard@ == Set::<(i64, i64, bool)>::empty(),
            r.offset == (0i32, 0i32),
            r.zoom_halves == zoom_halves,
            r.speed == speed,
            !r.running && !r.marker_mode && !r.selector_active && !r.painted && !r.erased,
    {
        Model {
            live: CellSet::new(),
            sel_points: CellSet::new(),
            clipboard: Clipboard::new(),
            start_pos: (0, 0),
            current_pos: (0, 0),
            selector_active: false,
            painted: false,
            erased: false,
            offset: (0, 0),
            zoom_halves,
            marker_mode: false,
            running: false,
            speed,
        }
    }

    /// Whether `p` is alive.
    pub fn is_alive(&self, p: Pos) -> (r: bool)
        requires
            self.wf(),
        ensures
            r == self.live@.contains(p),
    {
        self.live.contains(p)
    }

    /// Brings `p` to life; the result tells whether it was dead.
    pub fn set_alive(&mut self, p: Pos) -> (r: bool)
        requires
            old(self).wf(),
        ensures
            final(self).wf(),
            final(self).live@ == old(self).live@.insert(p),
            r == !old(self).live@.contains(p),
            final(self).offset == old(self).offset,
    {
        self.live.insert(p)
    }

    /// Kills `p`; the result tells whether it was alive.
    pub fn set_dead(&mut self, p: Pos) -> (r: bool)
        requires
            old(self).wf(),
        ensures
            final(self).wf(),
            final(self).live@ == old(self).live@.remove(p),
            r == old(self).live@.contains(p),
            final(self).offset == old(self).offset,
    {
        self.live.remove(p)
    }

    /// Flips `p` between alive and dead.
    pub fn toggle(&mut self, p: Pos)
        requires
            old(self).wf(),
        ensures
            final(self).wf(),
            final(self).live@ == toggled(old(self).live@, p),
            final(self).offset == old(self).offset,
    {
        self.live.toggle(p)
    }

    /// Whether every live cell is far enough from the lattice edge for a
    /// generation step.
    pub fn can_step(&self) -> (r: bool)
        requires
            self.wf(),
        ensures
            r == all_inner(self.live@),
    {
        proof {
            self.live.lemma_elems();
        }
        let n = self.live.len();
        let mut i: usize = 0;
        while i < n
            invariant
                self.wf(),
                n == self.live.elems().len(),
                self.live.elems().to_set() == self.live@,
                i <= n,
                forall|k: int| 0 <= k < i ==> crate::life::inner(#[trigger] self.live.elems()[k]),
            decreases n - i,
        {
            let p = self.live.get(i);
            if !(i32::MIN + 2 <= p.0 && p.0 <= i32::MAX - 2 && i32::MIN + 2 <= p.1 && p.1
                <= i32::MAX - 2) {
                proof {
                    assert(self.live.elems()[i as int] == p);
                    assert(self.live.elems().contains(p));
                    assert(self.live@.contains(p));
                    assert(!crate::life::inner(p));
                }
                return false;
            }
            i = i + 1;
        }
        proof {
            assert forall|p: Pos| self.live@.contains(p) implies crate::life::inner(p) by {
                let k = choose|k: int| 0 <= k < n && self.live.elems()[k] == p;
            }
        }
        true
    }

    /// One tick of the automaton: while running, replaces the live set by the
    /// next generation, computed from the current one alone. Returns whether a
    /// generation was computed; it is not when paused, nor when a live cell
    /// lies within two of the lattice edge.
    pub fn update(&mut self) -> (r: bool)
        requires
            old(self).wf(),
        ensures
            final(self).wf(),
            r == (old(self).running && all_inner(old(self).live@)),
            final(self).live@ == (if r {
                next_gen(old(self).live@)
            } else {
                old(self).live@
            }),
            final(self).running == old(self).running,
            final(self).offset == old(self).offset,
    {
        if self.running && self.can_step() {
            let next = next_generation(&self.live);
            self.live = next;
            true
        } else {
            false
        }
    }
}

/// Paint or erase under the primary button. While it is held over screen cell
/// `pointer` (and the automaton is paused), the cell below is brought to life
/// unless this drag has erased, or else erased unless this drag has painted;
/// each drag thus toggles a cell at most once. Releasing clears both latches.
pub fn brush(model: &mut Model, pressed: bool, pointer: Pos)
    requires
        old(model).wf(),
    ensures
        final(model).wf(),
        final(model).offset == old(model).offset,
        final(model).running == old(model).running,
        !pressed ==> final(model).live@ == old(model).live@ && !final(model).painted
            && !final(model).erased,
        pressed && (old(model).running || grid_cell_of(pointer, old(model).offset) is None)
            ==> final(model).live@ == old(model).live@ && final(model).painted
            == old(model).painted && final(model).erased == old(model).erased,
        pressed && !old(model).running && grid_cell_of(pointer, old(model).offset) is Some ==> (
        final(model).live@, final(model).painted, final(model).erased) == paint_step(
            old(model).live@,
            old(model).painted,
            old(model).erased,
            grid_cell_of(pointer, old(model).offset)->0,
        ),
{
    if pressed {
        if !model.running {
            match grid_cell(pointer, model.offset) {
                Some(p) => {
                    if !model.erased && model.live.insert(p) {
                        model.painted = true;
                    } else if !model.painted && model.live.remove(p) {
                        model.erased = true;
                    }
                },
                None => {},
            }
        }
    } else {
        model.painted = false;
        model.erased = false;
    }
}

/// Rectangle selection under the secondary button, paused or running. A press
/// anchors both corners at the cell under `pointer`; holding it moves the
/// second corner there and recomputes the selected cells; releasing ends the
/// drag and keeps the selection.
pub fn selector(model: &mut Model, pressed: bool, pointer: Pos)
    requires
        old(model).wf(),
    ensures
        final(model).wf(),
        final(model).live@ == old(model).live@,
        final(model).offset == old(model).offset,
        final(model).running == old(model).running,
        final(model).clipboard@ == old(model).clipboard@,
        !pressed ==> !final(model).selector_active && final(model).sel_points@ == old(model).sel_points@ && final(model).start_pos == old(model).start_pos,
        pressed && grid_cell_of(pointer, old(model).offset) is None ==> final(model).selector_active
            == old(model).selector_active && final(model).sel_points@ == old(model).sel_points@
            && final(model).start_pos == old(model).start_pos && final(model).current_pos == old(model).current_pos,
        pressed && !old(model).selector_active && grid_cell_of(pointer, old(model).offset) is Some
            ==> final(model).selector_active && final(model).start_pos == grid_cell_of(
            pointer,
            old(model).offset,
        )->0 && final(model).current_pos == final(model).start_pos && final(model).sel_points@
            == old(model).sel_points@,
        pressed && old(model).selector_active && grid_cell_of(pointer, old(model).offset) is Some
            ==> final(model).selector_active && final(model).start_pos == old(model).start_pos
            && final(model).current_pos == grid_cell_of(pointer, old(model).offset)->0 && final(model).sel_points@ == rect_cells(final(model).start_pos, final(model).current_pos),
{
    if pressed {
        match grid_cell(pointer, model.offset) {
            Some(p) => {
                if !model.selector_active {
                    model.start_pos = p;
                    model.current_pos = p;
                    model.selector_active = true;
                } else {
                    model.current_pos = p;
                    model.sel_points = CellSet::select_rect(model.start_pos, p);
                }
            },
            None => {},
        }
    } else {
        model.selector_active = false;
    }
}

/// The cell at the screen centre, where the keyboard marker sits.
pub open spec fn marker_cell(off: Pos) -> Pos {
    ((-off.0) as i32, (-off.1) as i32)
}

/// The pan offset after `key`: arrows move it by one grid unit, stopping at
/// the pan bound.
pub open spec fn panned(off: Pos, key: Key) -> Pos {
    match key {
        Key::Left => if off.0 < i32::MAX { ((off.0 + 1) as i32, off.1) } else { off },
        Key::Right => if off.0 > -i32::MAX { ((off.0 - 1) as i32, off.1) } else { off },
        Key::Up => if off.1 > -i32::MAX { (off.0, (off.1 - 1) as i32) } else { off },
        Key::Down => if off.1 < i32::MAX { (off.0, (off.1 + 1) as i32) } else { off },
        _ => off,
    }
}

/// The zoom after `key`: `I` adds half a pixel per unit, `O` takes one away
/// while the zoom is above one and a half.
pub open spec fn zoomed(z: u32, key: Key) -> u32 {
    match key {
        Key::I => if z < u32::MAX { (z + 1) as u32 } else { z },
        Key::O => if z > MIN_ZOOM_OUT_HALVES { (z - 1) as u32 } else { z },
        _ => z,
    }
}

/// A key press. While paused: `Tab` switches marker mode; `Space` in marker
/// mode toggles the cell under the marker; with the control key held and no
/// selection drag under way, `C` copies the selection and `V` pastes the
/// clipboard. At any time: arrows pan, `Return` starts or stops the
/// automaton, `I` and `O` zoom.
pub fn key_pressed(model: &mut Model, key: Key, ctrl_held: bool)
    requires
        old(model).wf(),
    ensures
        final(model).wf(),
        final(model).marker_mode == (if !old(model).running && key == Key::Tab {
            !old(model).marker_mode
        } else {
            old(model).marker_mode
        }),
        final(model).live@ == (if old(model).running {
            old(model).live@
        } else if key == Key::Space && old(model).marker_mode {
            toggled(old(model).live@, marker_cell(old(model).offset))
        } else if key == Key::V && ctrl_held && !old(model).selector_active {
            pasted(old(model).live@, old(model).clipboard@, old(model).offset)
        } else {
            old(model).live@
        }),
        final(model).clipboard@ == (if !old(model).running && key == Key::C && ctrl_held
            && !old(model).selector_active {
            copied(old(model).sel_points@, old(model).start_pos, old(model).offset, old(model).live@)
        } else {
            old(model).clipboard@
        }),
        final(model).offset == panned(old(model).offset, key),
        final(model).running == (if key == Key::Return {
            !old(model).running
        } else {
            old(model).running
        }),
        final(model).zoom_halves == zoomed(old(model).zoom_halves, key),
        final(model).sel_points@ == old(model).sel_points@,
        final(model).start_pos == old(model).start_pos,
        final(model).current_pos == old(model).current_pos,
        final(model).selector_active == old(model).selector_active,
        final(model).painted == old(model).painted,
        final(model).erased == old(model).erased,
        final(model).speed == old(model).speed,
{
    if !model.running {
        match key {
            Key::Tab => {
                model.marker_mode = !model.marker_mode;
            },
            Key::Space => {
                if model.marker_mode {
                    let p: Pos = (-model.offset.0, -model.offset.1);
                    model.live.toggle(p);
                }
            },
            Key::C => {
                if ctrl_held && !model.selector_active {
                    model.clipboard.copy_from(
                        &model.sel_points,
                        &model.live,
                        model.start_pos,
                        model.offset,
                    );
                }
            },
            Key::V => {
                if ctrl_held && !model.selector_active {
                    model.clipboard.paste_into(&mut model.live, model.offset);
                }
            },
            _ => {},
        }
    }
    match key {
        Key::Left => {
            if model.offset.0 < i32::MAX {
                model.offset.0 = model.offset.0 + 1;
            }
        },
        Key::Right => {
            if model.offset.0 > -i32::MAX {
                model.offset.0 = model.offset.0 - 1;
            }
        },
        Key::Up => {
            if model.offset.1 > -i32::MAX {
                model.offset.1 = model.offset.1 - 1;
            }
        },
        Key::Down => {
            if model.offset.1 < i32::MAX {
                model.offset.1 = model.offset.1 + 1;
            }
        },
        Key::Return => {
            model.running = !model.running;
        },
        Key::I => {
            if model.zoom_halves < u32::MAX {
                model.zoom_halves = model.zoom_halves + 1;
            }
        },
        Key::O => {
            if model.zoom_halves > MIN_ZOOM_OUT_HALVES {
                model.zoom_halves = model.zoom_halves - 1;
            }
        },
        _ => {},
    }
}

} // verus!
