use vstd::prelude::*;
use vstd::pervasive::unreached;

use crate::entity::Entity;
use crate::error::MapError;
use crate::grid_store::{grid_get, grid_new, grid_seq, grid_set};
use crate::utils::{
    in_bounds, step_tile, step_x, step_y, Direction, MoveResult, Movement, Position, Size,
};

verus! {

/// The grid contents with the cell under `p` set to `v`.
pub open spec fn cell_set(
    cells: Seq<Seq<Option<usize>>>,
    p: Position,
    v: Option<usize>,
) -> Seq<Seq<Option<usize>>> {
    cells.update(p.y as int, cells[p.y as int].update(p.x as int, v))
}

/// The grid contents after moving handle `id` between two cells: the
/// source cell is cleared first, then the handle is written into the
/// destination, so a move onto the source cell leaves the handle in place.
pub open spec fn cells_after_move(
    cells: Seq<Seq<Option<usize>>>,
    from: Position,
    to: Position,
    id: usize,
) -> Seq<Seq<Option<usize>>> {
    cell_set(cell_set(cells, from, None), to, Some(id))
}

/// The room state after a successful placement. Under a fresh or reused
/// arena slot `id`, the target cell holds `id`, overwriting any occupant;
/// a mobile occupant that the write evicted is no longer tracked; a reused
/// mobile slot first left its old cell; and the index tracks `id` at the
/// target exactly when the entity was placed as mobile.
pub open spec fn add_outcome(
    pre: GridRoom,
    post: GridRoom,
    entity: Entity,
    position: Position,
    is_static: bool,
) -> bool {
    let reuse = !is_static && pre.is_mobile(entity.name@);
    let id = if reuse {
        pre.mobile_id(entity.name@)
    } else {
        pre.entities@.len() as int
    };
    let ents = if reuse {
        pre.entities@
    } else {
        pre.entities@.push(entity)
    };
    let m0 = if reuse {
        pre.mobile@.update(id, None)
    } else {
        pre.mobile@.push(None)
    };
    let c1 = if reuse {
        cell_set(pre.cells(), pre.slot_position(id), None)
    } else {
        pre.cells()
    };
    let occ = c1[position.y as int][position.x as int];
    let m1 = if occ is Some && 0 <= occ->0 < m0.len() && m0[occ->0 as int] is Some {
        m0.update(occ->0 as int, None)
    } else {
        m0
    };
    &&& post.name == pre.name
    &&& post.size == pre.size
    &&& post.entities@ == ents
    &&& post.cells() == cell_set(c1, position, Some(id as usize))
    &&& post.mobile@ == (if is_static {
        m1
    } else {
        m1.update(id, Some(position))
    })
}

/// A copy of an entity, sharing no storage with the copied value.
fn clone_entity(e: &Entity) -> (r: Entity)
    ensures
        r == *e,
{
    Entity { name: e.name.clone() }
}

/// A bounded room: a grid of optional entity handles plus a position index
/// for the entities that can move. Entities live in an arena owned by the
/// room; a grid cell and the index both refer to an entity by its arena
/// slot, so no cell ever aliases entity storage.
#[derive(Debug)]
pub struct GridRoom {
    pub name: String,
    pub size: Size,
    pub grid: grid::Grid<Option<usize>>,
    pub entities: Vec<Entity>,
    pub mobile: Vec<Option<Position>>,
}

impl GridRoom {
    /// The grid contents, row by row.
    pub open spec fn cells(self) -> Seq<Seq<Option<usize>>> {
        grid_seq(self.grid)
    }

    /// Whether (r, c) indexes a cell of the grid.
    pub open spec fn valid_rc(self, r: int, c: int) -> bool {
        0 <= r < self.cells().len() && 0 <= c < self.cells()[r].len()
    }

    /// The cell under a position.
    pub open spec fn cell(self, p: Position) -> Option<usize> {
        self.cells()[p.y as int][p.x as int]
    }

    /// Whether arena slot i is tracked by the mobile-position index.
    pub open spec fn tracked_slot(self, i: int) -> bool {
        0 <= i < self.mobile@.len() && self.mobile@[i] is Some
    }

    /// The recorded position of tracked slot i.
    pub open spec fn slot_position(self, i: int) -> Position {
        self.mobile@[i]->0
    }

    /// The grid's rows and columns agree with the room's size; a room with
    /// a zero dimension has no rows at all.
    pub open spec fn dims_ok(self) -> bool {
        if self.size.width > 0 && self.size.height > 0 {
            &&& self.cells().len() == self.size.height
            &&& forall|r: int|
                0 <= r < self.cells().len() ==> (#[trigger] self.cells()[r]).len()
                    == self.size.width
        } else {
            self.cells().len() == 0
        }
    }

    /// Well-formedness: the grid matches the size, the index matches the
    /// arena, tracked entities carry distinct names, every tracked entity
    /// sits exactly at its recorded cell and nowhere else, and every
    /// occupied cell holds a valid arena slot.
    pub open spec fn wf(self) -> bool {
        &&& self.dims_ok()
        &&& self.mobile@.len() == self.entities@.len()
        &&& forall|i: int, j: int|
            #[trigger] self.tracked_slot(i) && #[trigger] self.tracked_slot(j)
                && self.entities@[i].name@ == self.entities@[j].name@ ==> i == j
        &&& forall|i: int|
            #[trigger] self.tracked_slot(i) ==> in_bounds(
                self.size,
                self.slot_position(i).x as int,
                self.slot_position(i).y as int,
            ) && self.cell(self.slot_position(i)) is Some && self.cell(self.slot_position(i))->0
                == i
        &&& forall|r: int, c: int|
            self.valid_rc(r, c) && (#[trigger] self.cells()[r][c]) is Some
                ==> self.cells()[r][c]->0 < self.entities@.len()
        &&& forall|r: int, c: int|
            self.valid_rc(r, c) && (#[trigger] self.cells()[r][c]) is Some && self.tracked_slot(
                self.cells()[r][c]->0 as int,
            ) ==> {
                let p = self.slot_position(self.cells()[r][c]->0 as int);
                r == p.y && c == p.x
            }
    }

    /// Create an empty room of the given fixed size.
    pub fn new(name: String, size: Size) -> (room: GridRoom)
        requires
            size.height * size.width <= usize::MAX,
        ensures
            room.wf(),
            room.name == name,
            room.size == size,
            room.entities@.len() == 0,
            room.mobile@.len() == 0,
            forall|r: int, c: int|
                room.valid_rc(r, c) ==> (#[trigger] room.cells()[r][c]) is None,
    {
        GridRoom {
            name,
            size,
            grid: grid_new(size.height, size.width),
            entities: Vec::new(),
            mobile: Vec::new(),
        }
    }

    /// Whether an entity of this name is registered as mobile.
    pub open spec fn is_mobile(self, name: Seq<char>) -> bool {
        exists|i: int| #[trigger] self.tracked_slot(i) && self.entities@[i].name@ == name
    }

    /// The tracked arena slot of a mobile entity of this name.
    pub open spec fn mobile_id(self, name: Seq<char>) -> int {
        choose|i: int| #[trigger] self.tracked_slot(i) && self.entities@[i].name@ == name
    }

    /// The recorded position of a mobile entity of this name.
    pub open spec fn recorded_position(self, name: Seq<char>) -> Position {
        self.slot_position(self.mobile_id(name))
    }

    /// Tile (x, y) lies inside the grid and is empty.
    pub open spec fn tile_free(self, x: int, y: int) -> bool {
        in_bounds(self.size, x, y) && self.cells()[y][x] is None
    }

    /// The tile `k` steps from `start` towards `direction` is free.
    pub open spec fn step_free(self, start: Position, direction: Direction, k: int) -> bool {
        self.tile_free(step_x(start, direction, k), step_y(start, direction, k))
    }

    /// The first `k` tiles of the path from `start` are all free.
    pub open spec fn free_prefix(self, start: Position, direction: Direction, k: int) -> bool {
        forall|j: int| 1 <= j <= k ==> #[trigger] self.step_free(start, direction, j)
    }

    /// How far along a path of `n` tiles an entity can slide: the length
    /// of the longest free prefix of the path.
    pub open spec fn free_len(self, start: Position, direction: Direction, n: nat) -> nat
        decreases n,
    {
        if n == 0 {
            0
        } else {
            let m = self.free_len(start, direction, (n - 1) as nat);
            if m == n - 1 && self.step_free(start, direction, n as int) {
                n
            } else {
                m
            }
        }
    }

    /// Bounded slide, unobstructed case: when the first `n` tiles of a
    /// path are all free, a move of distance `n` slides the full distance,
    /// so by `move_entity`'s contract it returns `Success` and leaves the
    /// entity displaced by `n` along the requested axis.
    pub proof fn lemma_unobstructed_slide(self, start: Position, direction: Direction, n: nat)
        requires
            self.free_prefix(start, direction, n as int),
        ensures
            self.free_len(start, direction, n) == n,
        decreases n,
    {
        if n > 0 {
            self.lemma_unobstructed_slide(start, direction, (n - 1) as nat);
        }
    }

    /// Bounded slide, blocked case: when the first `k` tiles of a path are
    /// free and tile `k + 1` is not (off the grid, or occupied), a move of
    /// any distance `n >= k` stops after exactly `k` steps.
    pub proof fn lemma_blocked_slide(
        self,
        start: Position,
        direction: Direction,
        n: nat,
        k: nat,
    )
        requires
            k <= n,
            self.free_prefix(start, direction, k as int),
            k < n ==> !self.step_free(start, direction, k as int + 1),
        ensures
            self.free_len(start, direction, n) == k,
        decreases n,
    {
        if k == n {
            self.lemma_unobstructed_slide(start, direction, n);
        } else if n > 0 {
            self.lemma_blocked_slide(start, direction, (n - 1) as nat, k);
        }
    }

    /// What the slide length guarantees: it never exceeds the requested
    /// distance, the tiles up to it are all free and, when it falls short
    /// of the distance, the very next tile is not free.
    pub proof fn lemma_free_len_bounds(self, start: Position, direction: Direction, n: nat)
        ensures
            self.free_len(start, direction, n) <= n,
            self.free_prefix(start, direction, self.free_len(start, direction, n) as int),
            self.free_len(start, direction, n) < n ==> !self.step_free(
                start,
                direction,
                self.free_len(start, direction, n) as int + 1,
            ),
        decreases n,
    {
        if n > 0 {
            self.lemma_free_len_bounds(start, direction, (n - 1) as nat);
        }
    }

    /// No grid cell holds the handle `id`.
    pub open spec fn absent(self, id: int) -> bool {
        forall|r: int, c: int|
            self.valid_rc(r, c) && (#[trigger] self.cells()[r][c]) is Some ==> self.cells()[r][c]->0
                != id
    }

    /// The arena slot that the mobile-position index tracks under the
    /// given name, if any.
    fn find_mobile(&self, name: &String) -> (r: Option<usize>)
        requires
            self.mobile@.len() == self.entities@.len(),
        ensures
            match r {
                Some(i) => self.tracked_slot(i as int) && self.entities@[i as int].name@ == name@,
                None => forall|i: int|
                    #[trigger] self.tracked_slot(i) ==> self.entities@[i].name@ != name@,
            },
    {
        let n = self.entities.len();
        let mut i: usize = 0;
        while i < n
            invariant
                n == self.entities@.len(),
                self.mobile@.len() == self.entities@.len(),
                0 <= i <= n,
                forall|k: int|
                    0 <= k < i && #[trigger] self.tracked_slot(k) ==> self.entities@[k].name@
                        != name@,
            decreases n - i,
        {
            if self.mobile[i].is_some() && self.entities[i].name == *name {
                return Some(i);
            }
            i = i + 1;
        }
        None
    }

    /// Read the cell under an in-bounds position.
    fn cell_at(&self, p: Position) -> (c: Option<usize>)
        requires
            self.dims_ok(),
            in_bounds(self.size, p.x as int, p.y as int),
        ensures
            c == self.cell(p),
    {
        match grid_get(&self.grid, p.y, p.x) {
            Some(c) => c,
            None => unreached(),
        }
    }

    /// Commit a move of the entity in slot `id`: clear its old cell, write
    /// the handle into the target cell, and record the target position in
    /// the mobile-position index. The sole mutator used by movement
    /// resolution, keeping grid and index consistent in one step.
    fn swap(&mut self, id: usize, from: Position, to: Position)
        requires
            old(self).wf(),
            old(self).tracked_slot(id as int),
            old(self).slot_position(id as int) == from,
            in_bounds(old(self).size, to.x as int, to.y as int),
            old(self).cell(to) is None || to == from,
        ensures
            final(self).wf(),
            final(self).name == old(self).name,
            final(self).size == old(self).size,
            final(self).entities@ == old(self).entities@,
            final(self).mobile@ == old(self).mobile@.update(id as int, Some(to)),
            final(self).cells() == cells_after_move(old(self).cells(), from, to, id),
    {
        let ghost pre = *old(self);
        let ok1 = grid_set(&mut self.grid, from.y, from.x, None);
        let ok2 = grid_set(&mut self.grid, to.y, to.x, Some(id));
        self.mobile[id] = Some(to);
        proof {
            let post = *self;
            assert(pre.tracked_slot(id as int));
            assert(id < pre.entities@.len());
            assert(pre.cell(from) == Some(id));
            assert(pre.valid_rc(from.y as int, from.x as int));
            assert(pre.valid_rc(to.y as int, to.x as int));
            assert forall|r: int, c: int| post.valid_rc(r, c) implies #[trigger] post.cells()[r][c]
                == (if r == to.y && c == to.x {
                Some(id)
            } else if r == from.y && c == from.x {
                None
            } else {
                pre.cells()[r][c]
            }) by {}
            assert(post.cells().len() == pre.cells().len());
            assert forall|r: int| 0 <= r < post.cells().len() implies (#[trigger] post.cells()[r]).len()
                == pre.cells()[r].len() by {}
            assert forall|i: int| #[trigger] post.tracked_slot(i) && i != id implies
                pre.tracked_slot(i) && post.slot_position(i) == pre.slot_position(i) by {}
            assert forall|i: int| #[trigger] post.tracked_slot(i) implies in_bounds(
                post.size,
                post.slot_position(i).x as int,
                post.slot_position(i).y as int,
            ) && post.cell(post.slot_position(i)) is Some && post.cell(post.slot_position(i))->0
                == i by {
                if i == id {
                    assert(post.slot_position(i) == to);
                } else {
                    assert(pre.tracked_slot(i));
                    let p = pre.slot_position(i);
                    assert(pre.cell(p) is Some && pre.cell(p)->0 == i);
                    if p.y == from.y && p.x == from.x {
                        assert(pre.cell(p) == pre.cell(from));
                        assert(false);
                    }
                    if p.y == to.y && p.x == to.x {
                        assert(pre.cell(to) is None || to == from);
                        assert(false);
                    }
                }
            }
            assert forall|r: int, c: int|
                post.valid_rc(r, c) && (#[trigger] post.cells()[r][c]) is Some
                    && post.tracked_slot(post.cells()[r][c]->0 as int) implies {
                let p = post.slot_position(post.cells()[r][c]->0 as int);
                r == p.y && c == p.x
            } by {
                let m = post.cells()[r][c]->0 as int;
                if r == to.y && c == to.x {
                    assert(m == id);
                } else if r == from.y && c == from.x {
                    assert(false);
                } else {
                    assert(pre.cells()[r][c] == post.cells()[r][c]);
                    if m == id {
                        assert(pre.tracked_slot(id as int));
                        assert(r == from.y && c == from.x);
                    } else {
                        assert(pre.tracked_slot(m));
                        assert(post.slot_position(m) == pre.slot_position(m));
                    }
                }
            }
            assert(post.wf());
        }
    }

    /// Write the entity in slot `id` into an in-bounds cell, untracking a
    /// mobile occupant that the write evicts, and track the slot at that
    /// cell unless the entity is static.
    fn place(&mut self, id: usize, position: Position, is_static: bool)
        requires
            old(self).wf(),
            id < old(self).mobile@.len(),
            old(self).mobile@[id as int] is None,
            old(self).absent(id as int),
            in_bounds(old(self).size, position.x as int, position.y as int),
            !is_static ==> forall|i: int|
                #[trigger] old(self).tracked_slot(i) ==> old(self).entities@[i].name@ != old(
                    self,
                ).entities@[id as int].name@,
        ensures
            final(self).wf(),
            final(self).name == old(self).name,
            final(self).size == old(self).size,
            final(self).entities@ == old(self).entities@,
            final(self).cells() == cell_set(old(self).cells(), position, Some(id)),
            ({
                let occ = old(self).cell(position);
                let m1 = if occ is Some && old(self).tracked_slot(occ->0 as int) {
                    old(self).mobile@.update(occ->0 as int, None)
                } else {
                    old(self).mobile@
                };
                final(self).mobile@ == (if is_static {
                    m1
                } else {
                    m1.update(id as int, Some(position))
                })
            }),
    {
        let ghost pre = *old(self);
        let occ = self.cell_at(position);
        match occ {
            Some(j) => {
                proof {
                    assert(pre.valid_rc(position.y as int, position.x as int));
                    assert(j < pre.entities@.len());
                }
                if self.mobile[j].is_some() {
                    self.mobile[j] = None;
                }
            },
            None => {},
        }
        grid_set(&mut self.grid, position.y, position.x, Some(id));
        if !is_static {
            self.mobile[id] = Some(position);
        }
        proof {
            let post = *self;
            assert(pre.valid_rc(position.y as int, position.x as int));
            assert forall|r: int, c: int| post.valid_rc(r, c) implies #[trigger] post.cells()[r][c]
                == (if r == position.y && c == position.x {
                Some(id)
            } else {
                pre.cells()[r][c]
            }) by {}
            assert(post.cells().len() == pre.cells().len());
            assert forall|r: int| 0 <= r < post.cells().len() implies (#[trigger] post.cells()[r]).len()
                == pre.cells()[r].len() by {}
            assert forall|k: int| #[trigger] post.tracked_slot(k) && k != id implies
                pre.tracked_slot(k) && post.slot_position(k) == pre.slot_position(k) && !(
            pre.cell(position) is Some && pre.cell(position)->0 == k) by {}
            assert forall|k: int| #[trigger] post.tracked_slot(k) implies in_bounds(
                post.size,
                post.slot_position(k).x as int,
                post.slot_position(k).y as int,
            ) && post.cell(post.slot_position(k)) is Some && post.cell(post.slot_position(k))->0
                == k by {
                if k == id {
                    assert(!is_static);
                    assert(post.slot_position(k) == position);
                } else {
                    let p = pre.slot_position(k);
                    assert(pre.cell(p) is Some && pre.cell(p)->0 == k);
                    if p.y == position.y && p.x == position.x {
                        assert(pre.cell(p) == pre.cell(position));
                        assert(false);
                    }
                }
            }
            assert forall|r: int, c: int|
                post.valid_rc(r, c) && (#[trigger] post.cells()[r][c]) is Some
                    && post.tracked_slot(post.cells()[r][c]->0 as int) implies {
                let p = post.slot_position(post.cells()[r][c]->0 as int);
                r == p.y && c == p.x
            } by {
                let m = post.cells()[r][c]->0 as int;
                if r == position.y && c == position.x {
                    assert(m == id);
                } else {
                    assert(pre.cells()[r][c] == post.cells()[r][c]);
                    assert(m != id);
                    assert(pre.tracked_slot(m));
                    assert(post.slot_position(m) == pre.slot_position(m));
                }
            }
            assert(post.wf());
        }
    }

    /// Place an entity at a position. Fails with `OutOfBounds`, mutating
    /// nothing, exactly when the position lies outside the grid; otherwise
    /// the placement is authoritative: the target cell is overwritten, and
    /// the entity is tracked by the mobile-position index exactly when
    /// `is_static` is false.
    pub fn add_entity(&mut self, entity: &Entity, position: Position, is_static: bool) -> (r:
        Result<(), MapError>)
        requires
            old(self).wf(),
        ensures
            final(self).wf(),
            !in_bounds(old(self).size, position.x as int, position.y as int) ==> r == Err::<
                (),
                MapError,
            >(MapError::OutOfBounds) && *final(self) == *old(self),
            in_bounds(old(self).size, position.x as int, position.y as int) ==> r == Ok::<
                (),
                MapError,
            >(()) && add_outcome(*old(self), *final(self), *entity, position, is_static),
    {
        if !(position.x < self.size.width && position.y < self.size.height) {
            return Err(MapError::OutOfBounds);
        }
        let ghost pre = *self;
        let ghost nm = entity.name@;
        let id: usize;
        let ghost reuse: bool;
        if is_static {
            proof {
                reuse = false;
            }
            id = self.entities.len();
            self.entities.push(clone_entity(entity));
            self.mobile.push(None);
        } else {
            match self.find_mobile(&entity.name) {
                Some(i) => {
                    proof {
                        reuse = true;
                        assert(pre.is_mobile(nm));
                        assert(pre.tracked_slot(pre.mobile_id(nm)) && pre.entities@[pre.mobile_id(
                            nm,
                        )].name@ == nm);
                        assert(pre.mobile_id(nm) == i as int);
                    }
                    id = i;
                    let q = self.mobile[i].unwrap();
                    grid_set(&mut self.grid, q.y, q.x, None);
                    self.mobile[i] = None;
                    proof {
                        let mid = *self;
                        assert(pre.cell(q) is Some && pre.cell(q)->0 == i);
                        assert(pre.valid_rc(q.y as int, q.x as int));
                        assert forall|r: int, c: int| mid.valid_rc(r, c) implies #[trigger] mid.cells()[r][c]
                            == (if r == q.y && c == q.x {
                            None
                        } else {
                            pre.cells()[r][c]
                        }) by {}
                        assert(mid.cells().len() == pre.cells().len());
                        assert forall|r: int| 0 <= r < mid.cells().len() implies (
                        #[trigger] mid.cells()[r]).len() == pre.cells()[r].len() by {}
                        assert forall|k: int| #[trigger] mid.tracked_slot(k) implies
                            pre.tracked_slot(k) && k != i && mid.slot_position(k)
                            == pre.slot_position(k) by {}
                        assert forall|k: int| #[trigger] mid.tracked_slot(k) implies in_bounds(
                            mid.size,
                            mid.slot_position(k).x as int,
                            mid.slot_position(k).y as int,
                        ) && mid.cell(mid.slot_position(k)) is Some && mid.cell(
                            mid.slot_position(k),
                        )->0 == k by {
                            let p = pre.slot_position(k);
                            assert(pre.cell(p) is Some && pre.cell(p)->0 == k);
                            if p.y == q.y && p.x == q.x {
                                assert(pre.cell(p) == pre.cell(q));
                                assert(false);
                            }
                        }
                        assert forall|r: int, c: int|
                            mid.valid_rc(r, c) && (#[trigger] mid.cells()[r][c]) is Some
                                && mid.tracked_slot(mid.cells()[r][c]->0 as int) implies {
                            let p = mid.slot_position(mid.cells()[r][c]->0 as int);
                            r == p.y && c == p.x
                        } by {
                            let m = mid.cells()[r][c]->0 as int;
                            assert(!(r == q.y && c == q.x));
                            assert(pre.cells()[r][c] == mid.cells()[r][c]);
                            assert(pre.tracked_slot(m));
                            assert(mid.slot_position(m) == pre.slot_position(m));
                        }
                        assert(mid.wf());
                        assert forall|r: int, c: int|
                            mid.valid_rc(r, c) && (#[trigger] mid.cells()[r][c]) is Some implies
                            mid.cells()[r][c]->0 != i by {
                            if mid.cells()[r][c]->0 == i {
                                assert(pre.cells()[r][c] is Some && pre.cells()[r][c]->0 == i);
                                assert(pre.tracked_slot(i as int));
                                assert(r == q.y && c == q.x);
                            }
                        }
                        assert(mid.absent(id as int));
                    }
                },
                None => {
                    proof {
                        reuse = false;
                        assert(!pre.is_mobile(nm));
                    }
                    id = self.entities.len();
                    self.entities.push(clone_entity(entity));
                    self.mobile.push(None);
                },
            }
        }
        proof {
            let mid = *self;
            if !reuse {
                assert(mid.cells() == pre.cells());
                assert(mid.entities@ == pre.entities@.push(*entity));
                assert(mid.mobile@ == pre.mobile@.push(None));
                assert forall|k: int| #[trigger] mid.tracked_slot(k) implies pre.tracked_slot(k)
                    && mid.slot_position(k) == pre.slot_position(k) && mid.entities@[k]
                    == pre.entities@[k] by {}
                assert forall|r: int, c: int|
                    mid.valid_rc(r, c) && (#[trigger] mid.cells()[r][c]) is Some implies
                    mid.cells()[r][c]->0 != id as int && mid.cells()[r][c]->0
                    < mid.entities@.len() by {
                    assert(pre.cells()[r][c]->0 < pre.entities@.len());
                }
                assert(mid.wf());
                assert(mid.absent(id as int));
            }
        }
        self.place(id, position, is_static);
        proof {
            assert(add_outcome(pre, *self, *entity, position, is_static));
        }
        Ok(())
    }

    /// Resolve a movement request for a mobile entity. Fails with
    /// `OutOfBounds`, mutating nothing, when the entity is not tracked as
    /// mobile or when already the first tile of the path leaves the grid.
    /// Otherwise the entity slides along the path as far as the tiles are
    /// free and in bounds, its grid cell and recorded position move to
    /// that resting tile, and the result reports how the walk ended:
    /// `Success` at the full distance, `Failure` when the path left the
    /// grid, or `Collision` carrying the mover and the occupant that
    /// blocked it.
    pub fn move_entity(&mut self, entity: &Entity, movement: Movement) -> (r: Result<
        MoveResult,
        MapError,
    >)
        requires
            old(self).wf(),
        ensures
            final(self).wf(),
            !old(self).is_mobile(entity.name@) ==> r == Err::<MoveResult, MapError>(
                MapError::OutOfBounds,
            ) && *final(self) == *old(self),
            ({
                let pre = *old(self);
                let name = entity.name@;
                let id = pre.mobile_id(name);
                let start = pre.recorded_position(name);
                let d = movement.direction;
                let n = movement.distance as nat;
                let k = pre.free_len(start, d, n);
                pre.is_mobile(name) ==> {
                    &&& (n > 0 && !in_bounds(pre.size, step_x(start, d, 1), step_y(start, d, 1))
                        ==> r == Err::<MoveResult, MapError>(MapError::OutOfBounds) && *final(self)
                        == pre)
                    &&& ((n == 0 || in_bounds(pre.size, step_x(start, d, 1), step_y(start, d, 1)))
                        ==> {
                        let stop = Position {
                            x: step_x(start, d, k as int) as usize,
                            y: step_y(start, d, k as int) as usize,
                        };
                        &&& final(self).name == pre.name
                        &&& final(self).size == pre.size
                        &&& final(self).entities@ == pre.entities@
                        &&& final(self).mobile@ == pre.mobile@.update(id, Some(stop))
                        &&& final(self).cells() == cells_after_move(
                            pre.cells(),
                            start,
                            stop,
                            id as usize,
                        )
                        &&& (k == n ==> r == Ok::<MoveResult, MapError>(MoveResult::Success))
                        &&& (k < n && !in_bounds(
                            pre.size,
                            step_x(start, d, k as int + 1),
                            step_y(start, d, k as int + 1),
                        ) ==> r == Ok::<MoveResult, MapError>(MoveResult::Failure))
                        &&& (k < n && in_bounds(
                            pre.size,
                            step_x(start, d, k as int + 1),
                            step_y(start, d, k as int + 1),
                        ) ==> {
                            let blocker = pre.cells()[step_y(start, d, k as int + 1)][step_x(
                                start,
                                d,
                                k as int + 1,
                            )];
                            &&& blocker is Some
                            &&& (r matches Ok(MoveResult::Collision(v)) && v@.len() == 2 && v@[0]
                                == *entity && v@[1] == pre.entities@[blocker->0 as int])
                        })
                    })
                }
            }),
    {
        let ghost pre = *self;
        let ghost nm = entity.name@;
        let id: usize;
        match self.find_mobile(&entity.name) {
            Some(i) => {
                id = i;
            },
            None => {
                proof {
                    assert(!pre.is_mobile(nm));
                }
                return Err(MapError::OutOfBounds);
            },
        }
        proof {
            assert(pre.is_mobile(nm));
            assert(pre.tracked_slot(pre.mobile_id(nm)) && pre.entities@[pre.mobile_id(nm)].name@
                == nm);
            assert(pre.mobile_id(nm) == id as int);
        }
        let start = self.mobile[id].unwrap();
        let n = movement.distance;
        let d = movement.direction;
        let mut resolved = start;
        let mut i: usize = 1;
        while i <= n
            invariant
                pre == *old(self),
                *self == pre,
                pre.wf(),
                pre.tracked_slot(id as int),
                pre.slot_position(id as int) == start,
                pre.mobile_id(nm) == id as int,
                pre.is_mobile(nm),
                nm == entity.name@,
                n == movement.distance,
                d == movement.direction,
                1 <= i,
                i <= n + 1,
                pre.free_prefix(start, d, i - 1),
                resolved.x == step_x(start, d, i - 1),
                resolved.y == step_y(start, d, i - 1),
                in_bounds(pre.size, resolved.x as int, resolved.y as int),
            decreases n + 1 - i,
        {
            let tile = step_tile(self.size, start, d, i);
            match tile {
                None => {
                    if i == 1 {
                        return Err(MapError::OutOfBounds);
                    }
                    proof {
                        pre.lemma_blocked_slide(start, d, n as nat, (i - 1) as nat);
                        assert(pre.step_free(start, d, i - 1));
                    }
                    self.swap(id, start, resolved);
                    return Ok(MoveResult::Failure);
                },
                Some(t) => {
                    let cell = self.cell_at(t);
                    match cell {
                        Some(j) => {
                            proof {
                                assert(!pre.step_free(start, d, i as int));
                                pre.lemma_blocked_slide(start, d, n as nat, (i - 1) as nat);
                                assert(pre.valid_rc(t.y as int, t.x as int));
                                assert(j < pre.entities@.len());
                                if i > 1 {
                                    assert(pre.step_free(start, d, i - 1));
                                }
                            }
                            let mover = clone_entity(entity);
                            let blocker = clone_entity(&self.entities[j]);
                            self.swap(id, start, resolved);
                            return Ok(MoveResult::Collision(vec![mover, blocker]));
                        },
                        None => {
                            proof {
                                assert(pre.step_free(start, d, i as int));
                                assert(pre.free_prefix(start, d, i as int));
                            }
                            resolved = t;
                            i = i + 1;
                        },
                    }
                },
            }
        }
        proof {
            pre.lemma_unobstructed_slide(start, d, n as nat);
            if n > 0 {
                assert(pre.step_free(start, d, n as int));
            }
        }
        self.swap(id, start, resolved);
        Ok(MoveResult::Success)
    }

    /// The recorded position of an entity, when the mobile-position index
    /// tracks it.
    pub fn position_of(&self, entity: &Entity) -> (p: Option<Position>)
        requires
            self.wf(),
        ensures
            self.is_mobile(entity.name@) ==> p == Some(self.recorded_position(entity.name@)),
            !self.is_mobile(entity.name@) ==> p is None,
    {
        match self.find_mobile(&entity.name) {
            Some(i) => {
                proof {
                    assert(self.is_mobile(entity.name@));
                    assert(self.tracked_slot(self.mobile_id(entity.name@)) && self.entities@[self.mobile_id(
                        entity.name@,
                    )].name@ == entity.name@);
                    assert(self.mobile_id(entity.name@) == i as int);
                }
                self.mobile[i]
            },
            None => None,
        }
    }

    /// The entity occupying the cell under a position: Some exactly when
    /// the position lies inside the grid and the cell is occupied.
    pub fn entity_at(&self, position: Position) -> (e: Option<Entity>)
        requires
            self.wf(),
        ensures
            in_bounds(self.size, position.x as int, position.y as int) && self.cell(
                position,
            ) is Some ==> e is Some && e->0 == self.entities@[self.cell(position)->0 as int],
            !(in_bounds(self.size, position.x as int, position.y as int) && self.cell(
                position,
            ) is Some) ==> e is None,
    {
        if position.x < self.size.width && position.y < self.size.height {
            match self.cell_at(position) {
                Some(j) => {
                    proof {
                        assert(self.valid_rc(position.y as int, position.x as int));
                        assert(j < self.entities@.len());
                    }
                    Some(clone_entity(&self.entities[j]))
                },
                None => None,
            }
        } else {
            None
        }
    }

    /// Index consistency and single occupancy: for every entity that the
    /// mobile-position index tracks, the grid cell at its recorded
    /// position holds exactly that entity, and no other cell holds it.
    pub proof fn lemma_index_consistent(self, i: int)
        requires
            self.wf(),
            self.tracked_slot(i),
        ensures
            in_bounds(self.size, self.slot_position(i).x as int, self.slot_position(i).y as int),
            self.cell(self.slot_position(i)) is Some && self.cell(self.slot_position(i))->0 == i,
            forall|r: int, c: int|
                self.valid_rc(r, c) && (#[trigger] self.cells()[r][c]) is Some
                    && self.cells()[r][c]->0 == i ==> r == self.slot_position(i).y && c
                    == self.slot_position(i).x,
    {
        assert forall|r: int, c: int|
            self.valid_rc(r, c) && (#[trigger] self.cells()[r][c]) is Some
                && self.cells()[r][c]->0 == i implies r == self.slot_position(i).y && c
            == self.slot_position(i).x by {
            assert(self.tracked_slot(self.cells()[r][c]->0 as int));
        }
    }
}

} // verus!
