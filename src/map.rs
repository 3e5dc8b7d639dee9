use vstd::prelude::*;

use crate::Entity;
use crate::world::{EntityRecord, World};

verus! {

/// What a cell of the map is made of.
#[derive(Clone, Copy, Debug, PartialEq, Eq, Structural)]
pub enum TileType {
    Wall,
    Floor,
}

/// The index of cell (x, y) in a grid `width` cells wide.
pub open spec fn cell(width: int, x: int, y: int) -> int {
    y * width + x
}

/// Whether (x, y) lies on a `width` by `height` grid.
pub open spec fn on_grid(width: int, height: int, x: int, y: int) -> bool {
    0 <= x < width && 0 <= y < height
}

/// The entity that occupies cell `c`: the last one created that carries
/// the `TileBlocker` tag and stands on that cell.
pub open spec fn occupant(records: Seq<EntityRecord>, width: int, height: int, c: int) -> Option<
    Entity,
>
    decreases records.len(),
{
    if records.len() == 0 {
        None
    } else {
        let r = records.last();
        if r.tile_blocker is Some && r.position is Some && on_grid(
            width,
            height,
            r.position->0.x as int,
            r.position->0.y as int,
        ) && cell(width, r.position->0.x as int, r.position->0.y as int) == c {
            Some(Entity { id: (records.len() - 1) as u64 })
        } else {
            occupant(records.drop_last(), width, height, c)
        }
    }
}

/// `v` moved by `d` and clamped to 0 ..= size - 1.
pub open spec fn clamped(v: int, d: int, size: int) -> int {
    if v + d < 0 {
        0
    } else if v + d > size - 1 {
        size - 1
    } else {
        v + d
    }
}

proof fn lemma_cell_bounds(width: int, height: int, x: int, y: int)
    requires
        on_grid(width, height, x, y),
    ensures
        0 <= cell(width, x, y) < width * height,
{
    assert(0 <= y * width) by (nonlinear_arith)
        requires
            0 <= y,
            0 <= width,
    ;
    assert(y * width + x < width * height) by (nonlinear_arith)
        requires
            0 <= x < width,
            0 <= y < height,
    ;
}

/// A grid of tiles, with a blocked flag and the occupant of each cell.
pub struct GridMap {
    width: u8,
    height: u8,
    tiles: Vec<TileType>,
    blocked: Vec<bool>,
    tile_content: Vec<Option<Entity>>,
}

impl GridMap {
    pub closed spec fn width(&self) -> int {
        self.width as int
    }

    pub closed spec fn height(&self) -> int {
        self.height as int
    }

    pub closed spec fn tiles(&self) -> Seq<TileType> {
        self.tiles@
    }

    pub closed spec fn blocked(&self) -> Seq<bool> {
        self.blocked@
    }

    pub closed spec fn contents(&self) -> Seq<Option<Entity>> {
        self.tile_content@
    }

    pub open spec fn wf(&self) -> bool {
        &&& 0 < self.width() <= 255
        &&& 0 < self.height() <= 255
        &&& self.tiles().len() == self.width() * self.height()
        &&& self.blocked().len() == self.width() * self.height()
        &&& self.contents().len() == self.width() * self.height()
    }

    /// A map of floor only, with nothing blocked or occupied.
    pub fn new(width: u8, height: u8) -> (r: Self)
        requires
            width > 0,
            height > 0,
        ensures
            r.wf(),
            r.width() == width,
            r.height() == height,
            forall|c: int| 0 <= c < r.tiles().len() ==> #[trigger] r.tiles()[c] == TileType::Floor,
            forall|c: int| 0 <= c < r.blocked().len() ==> !#[trigger] r.blocked()[c],
            forall|c: int| 0 <= c < r.contents().len() ==> #[trigger] r.contents()[c] is None,
    {
        assert(width as int * height as int <= 255 * 255) by (nonlinear_arith)
            requires
                width <= 255,
                height <= 255,
        ;
        let n: usize = width as usize * height as usize;
        let mut tiles: Vec<TileType> = Vec::new();
        let mut blocked: Vec<bool> = Vec::new();
        let mut tile_content: Vec<Option<Entity>> = Vec::new();
        let mut i: usize = 0;
        while i < n
            invariant
                i <= n,
                tiles@.len() == i,
                blocked@.len() == i,
                tile_content@.len() == i,
                forall|c: int| 0 <= c < i ==> #[trigger] tiles@[c] == TileType::Floor,
                forall|c: int| 0 <= c < i ==> !#[trigger] blocked@[c],
                forall|c: int| 0 <= c < i ==> #[trigger] tile_content@[c] is None,
            decreases n - i,
        {
            tiles.push(TileType::Floor);
            blocked.push(false);
            tile_content.push(None);
            i = i + 1;
        }
        GridMap { width, height, tiles, blocked, tile_content }
    }

    pub fn get_width(&self) -> (r: u8)
        ensures
            r == self.width(),
    {
        self.width
    }

    pub fn get_height(&self) -> (r: u8)
        ensures
            r == self.height(),
    {
        self.height
    }

    fn index(&self, x: u8, y: u8) -> (r: usize)
        requires
            self.wf(),
            on_grid(self.width(), self.height(), x as int, y as int),
        ensures
            r == cell(self.width(), x as int, y as int),
            r < self.width() * self.height(),
    {
        proof {
            lemma_cell_bounds(self.width(), self.height(), x as int, y as int);
            assert(y as int * self.width() <= 255 * 255) by (nonlinear_arith)
                requires
                    y <= 255,
                    self.width() <= 255,
            ;
        }
        y as usize * self.width as usize + x as usize
    }

    /// The tile at (x, y).
    pub fn get_tile(&self, x: u8, y: u8) -> (r: TileType)
        requires
            self.wf(),
            on_grid(self.width(), self.height(), x as int, y as int),
        ensures
            r == self.tiles()[cell(self.width(), x as int, y as int)],
    {
        let i = self.index(x, y);
        self.tiles[i]
    }

    /// Sets the tile at (x, y).
    pub fn set_tile(&mut self, x: u8, y: u8, tile: TileType)
        requires
            old(self).wf(),
            on_grid(old(self).width(), old(self).height(), x as int, y as int),
        ensures
            final(self).wf(),
            final(self).width() == old(self).width(),
            final(self).height() == old(self).height(),
            final(self).tiles() == old(self).tiles().update(
                cell(old(self).width(), x as int, y as int),
                tile,
            ),
            final(self).blocked() == old(self).blocked(),
            final(self).contents() == old(self).contents(),
    {
        let i = self.index(x, y);
        self.tiles.set(i, tile);
    }

    /// Marks exactly the walls as blocked.
    pub fn refresh_blocked(&mut self)
        requires
            old(self).wf(),
        ensures
            final(self).wf(),
            final(self).width() == old(self).width(),
            final(self).height() == old(self).height(),
            final(self).tiles() == old(self).tiles(),
            final(self).contents() == old(self).contents(),
            forall|c: int|
                0 <= c < final(self).blocked().len() ==> #[trigger] final(self).blocked()[c] == (
                old(self).tiles()[c] == TileType::Wall),
    {
        let mut i: usize = 0;
        while i < self.tiles.len()
            invariant
                self.wf(),
                self.width() == old(self).width(),
                self.height() == old(self).height(),
                self.tiles() == old(self).tiles(),
                self.contents() == old(self).contents(),
                i <= self.tiles().len(),
                forall|c: int|
                    0 <= c < i ==> #[trigger] self.blocked()[c] == (self.tiles()[c]
                        == TileType::Wall),
            decreases self.tiles().len() - i,
        {
            let wall = match self.tiles[i] {
                TileType::Wall => true,
                TileType::Floor => false,
            };
            self.blocked.set(i, wall);
            i = i + 1;
        }
    }

    /// Records in each cell the entity that occupies it.
    pub fn refresh_index(&mut self, world: &World)
        requires
            old(self).wf(),
        ensures
            final(self).wf(),
            final(self).width() == old(self).width(),
            final(self).height() == old(self).height(),
            final(self).tiles() == old(self).tiles(),
            final(self).blocked() == old(self).blocked(),
            forall|c: int|
                0 <= c < final(self).contents().len() ==> #[trigger] final(self).contents()[c]
                    == occupant(world.records(), old(self).width(), old(self).height(), c),
    {
        let n = self.tile_content.len();
        let mut c: usize = 0;
        while c < n
            invariant
                self.wf(),
                self.width() == old(self).width(),
                self.height() == old(self).height(),
                self.tiles() == old(self).tiles(),
                self.blocked() == old(self).blocked(),
                n == self.contents().len(),
                c <= n,
                forall|k: int| 0 <= k < c ==> #[trigger] self.contents()[k] is None,
            decreases n - c,
        {
            self.tile_content.set(c, None);
            c = c + 1;
        }
        let records = world.len();
        let mut i: usize = 0;
        while i < records
            invariant
                self.wf(),
                self.width() == old(self).width(),
                self.height() == old(self).height(),
                self.tiles() == old(self).tiles(),
                self.blocked() == old(self).blocked(),
                records == world.records().len(),
                i <= records,
                forall|k: int|
                    0 <= k < self.contents().len() ==> #[trigger] self.contents()[k] == occupant(
                        world.records().subrange(0, i as int),
                        self.width(),
                        self.height(),
                        k,
                    ),
            decreases records - i,
        {
            let ghost prefix = world.records().subrange(0, i as int + 1);
            assert(prefix.drop_last() =~= world.records().subrange(0, i as int));
            let e = Entity { id: i as u64 };
            if world.is_tile_blocker(e) {
                if let Some(p) = world.get_position(e) {
                    if 0 <= p.x && p.x < self.width as i32 && 0 <= p.y && p.y < self.height as i32 {
                        let k = self.index(p.x as u8, p.y as u8);
                        self.tile_content.set(k, Some(e));
                    }
                }
            }
            i = i + 1;
        }
        assert(world.records().subrange(0, records as int) =~= world.records());
    }

    /// Whether (x, y) is neither blocked nor occupied.
    pub fn is_free(&self, x: u8, y: u8) -> (r: bool)
        requires
            self.wf(),
            on_grid(self.width(), self.height(), x as int, y as int),
        ensures
            r == (self.contents()[cell(self.width(), x as int, y as int)] is None
                && !self.blocked()[cell(self.width(), x as int, y as int)]),
    {
        let i = self.index(x, y);
        self.tile_content[i].is_none() && !self.blocked[i]
    }

    /// Moves (x, y) by (dx, dy), clamped to the map.
    pub fn clamp_move(&self, x: i32, y: i32, dx: i32, dy: i32) -> (r: (u8, u8))
        requires
            self.wf(),
        ensures
            r.0 == clamped(x as int, dx as int, self.width()),
            r.1 == clamped(y as int, dy as int, self.height()),
            on_grid(self.width(), self.height(), r.0 as int, r.1 as int),
    {
        (clamp_axis(x, dx, self.width), clamp_axis(y, dy, self.height))
    }
}

fn clamp_axis(v: i32, d: i32, size: u8) -> (r: u8)
    requires
        size > 0,
    ensures
        r == clamped(v as int, d as int, size as int),
{
    let moved: i64 = v as i64 + d as i64;
    if moved < 0 {
        0
    } else if moved > size as i64 - 1 {
        size - 1
    } else {
        moved as u8
    }
}

} // verus!
