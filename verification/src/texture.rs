//! Texture atlas building and color maps.
//!
//! An [`AtlasBuilder`] packs tiles of one unit size into a raster that grows
//! as needed. Decoding image files and uploading the finished atlas are the
//! caller's business: the builder takes decoded rasters and hands out bytes.

use crate::placement::{cell_origin, lemma_cell_in_ring, lemma_cursor_of_count};
use crate::placement::{lemma_advance, lemma_placements_apart, lemma_ring_bounds, tiles_overlap};
use crate::placement::{Cursor, CursorView};
use crate::raster::{lemma_from_fn_wf, Raster, RasterView};
use std::collections::HashMap;
use vstd::arithmetic::power2::*;
use vstd::prelude::*;
use vstd::string::*;

verus! {

broadcast use vstd::std_specs::hash::group_hash_axioms;

/// A query rectangle as (x, y, width, height), in pixels.
pub type Rect = (u32, u32, u32, u32);

/// The key under which the alpha cache files a rectangle: its four numbers
/// as the four 32-bit digits of one 128-bit number.
pub open spec fn rect_key(r: Rect) -> u128 {
    (((r.0 * 0x1_0000_0000 + r.1) * 0x1_0000_0000 + r.2) * 0x1_0000_0000 + r.3) as u128
}

/// Different rectangles have different keys.
pub proof fn lemma_rect_key_injective(a: Rect, b: Rect)
    requires
        rect_key(a) == rect_key(b),
    ensures
        a == b,
{
}

/// What an atlas builder is, mathematically.
pub struct AtlasView {
    /// Directory that tile files are looked up in.
    pub base_path: Seq<char>,
    /// Width of every tile, in pixels.
    pub unit_width: nat,
    /// Height of every tile, in pixels.
    pub unit_height: nat,
    /// The atlas raster.
    pub raster: RasterView,
    /// The placement cursor.
    pub cursor: CursorView,
    /// Name and pixel origin of every tile placed, in order of placement.
    pub tiles: Seq<(Seq<char>, (u32, u32))>,
    /// The remembered minimum alpha of every rectangle asked about.
    pub alphas: Map<Rect, u8>,
    /// How often the raster has been doubled.
    pub doublings: nat,
}

impl AtlasView {
    /// Side of the raster, in tiles.
    pub open spec fn grid(self) -> nat {
        4 * pow2(self.doublings)
    }

    /// The invariant of an atlas builder.
    pub open spec fn wf(self) -> bool {
        &&& self.unit_width > 0
        &&& self.unit_height > 0
        &&& self.raster.wf()
        &&& self.raster.width == self.unit_width * self.grid()
        &&& self.raster.height == self.unit_height * self.grid()
        &&& self.raster.width <= u32::MAX
        &&& self.raster.height <= u32::MAX
        &&& self.cursor.wf()
        &&& self.cursor.placed() == self.tiles.len()
        &&& self.cursor.ring <= self.grid()
        &&& self.cursor.slot > 0 ==> self.cursor.ring < self.grid()
        &&& forall|i: int, j: int|
            0 <= i < j < self.tiles.len() ==> (#[trigger] self.tiles[i]).0 != (
            #[trigger] self.tiles[j]).0
        &&& forall|i: int|
            0 <= i < self.tiles.len() ==> origin_as_ints((#[trigger] self.tiles[i]).1)
                == cell_origin(
                CursorView::after(i as nat).cell(),
                self.unit_width,
                self.unit_height,
            )
    }

    /// The builder right after construction.
    pub open spec fn initial(base_path: Seq<char>, unit_width: nat, unit_height: nat) -> Self {
        AtlasView {
            base_path,
            unit_width,
            unit_height,
            raster: RasterView::blank(4 * unit_width, 4 * unit_height),
            cursor: CursorView::start(),
            tiles: Seq::empty(),
            alphas: Map::empty(),
            doublings: 0,
        }
    }

    /// A tile of that name has been placed.
    pub open spec fn has_tile(self, name: Seq<char>) -> bool {
        exists|i: int| 0 <= i < self.tiles.len() && (#[trigger] self.tiles[i]).0 == name
    }

    /// The place of the tile of that name in the order of placement.
    pub open spec fn tile_index(self, name: Seq<char>) -> int {
        choose|i: int| 0 <= i < self.tiles.len() && (#[trigger] self.tiles[i]).0 == name
    }

    /// The pixel origin of the tile of that name, if one has been placed.
    pub open spec fn position_of(self, name: Seq<char>) -> Option<(u32, u32)> {
        if self.has_tile(name) {
            Some(self.tiles[self.tile_index(name)].1)
        } else {
            None
        }
    }

    /// The path of the image file of a tile: `{base_path}/{name}.png`.
    pub open spec fn tile_path(self, name: Seq<char>) -> Seq<char> {
        self.base_path + seq!['/'] + name + seq!['.', 'p', 'n', 'g']
    }

    /// A decoded tile image fits this atlas: it is exactly one unit wide and
    /// a positive whole number of units high.
    pub open spec fn accepts(self, tile: RasterView) -> bool {
        &&& tile.width == self.unit_width
        &&& tile.height >= self.unit_height
        &&& tile.height % self.unit_height == 0
    }

    /// The next placement starts a ring that the raster has no room for.
    pub open spec fn needs_growth(self) -> bool {
        self.cursor.slot == 0 && (self.unit_width * self.cursor.ring >= self.raster.width
            || self.unit_height * self.cursor.ring >= self.raster.height)
    }

    /// If the raster has to be doubled for the next placement, the doubled
    /// raster can be addressed and allocated.
    pub open spec fn has_room(self) -> bool {
        self.needs_growth() ==> 2 * self.raster.width <= u32::MAX && 2 * self.raster.height
            <= u32::MAX && 16 * self.raster.width * self.raster.height <= isize::MAX
    }

    /// The pixel origin that the next new tile gets.
    pub open spec fn next_origin(self) -> (u32, u32) {
        (
            (self.cursor.cell().0 * self.unit_width) as u32,
            (self.cursor.cell().1 * self.unit_height) as u32,
        )
    }

    /// The pixel origin that loading `name` returns.
    pub open spec fn load_origin(self, name: Seq<char>) -> (u32, u32) {
        match self.position_of(name) {
            Some(origin) => origin,
            None => self.next_origin(),
        }
    }

    /// The builder after loading `name` with the decoded image `tile`.
    ///
    /// A name already placed changes nothing. A new name doubles the raster
    /// if the next ring needs it, copies the first unit of the tile image to
    /// the next free cell, and records the name with that cell's origin.
    pub open spec fn load(self, name: Seq<char>, tile: RasterView) -> Self {
        if self.has_tile(name) {
            self
        } else {
            let grown = if self.needs_growth() {
                self.raster.doubled()
            } else {
                self.raster
            };
            let origin = self.next_origin();
            AtlasView {
                raster: grown.blit(
                    tile,
                    origin.0 as int,
                    origin.1 as int,
                    self.unit_width as int,
                    self.unit_height as int,
                ),
                cursor: self.cursor.advance(),
                tiles: self.tiles.push((name, origin)),
                doublings: if self.needs_growth() {
                    self.doublings + 1
                } else {
                    self.doublings
                },
                ..self
            }
        }
    }

    /// The builder after loading the names in order, each with its image.
    pub open spec fn load_all(self, names: Seq<Seq<char>>, tiles: Seq<RasterView>) -> Self
        decreases names.len(),
    {
        if names.len() == 0 {
            self
        } else {
            self.load_all(names.drop_last(), tiles.drop_last()).load(names.last(), tiles.last())
        }
    }

    /// The builder before the load of `names[k]`, when the names are loaded
    /// in order.
    pub open spec fn before_load(self, names: Seq<Seq<char>>, tiles: Seq<RasterView>, k: int) -> Self {
        self.load_all(names.take(k), tiles.take(k))
    }

    /// The origin that the load of `names[k]` returns, when the names are
    /// loaded in order.
    pub open spec fn origin_in(self, names: Seq<Seq<char>>, tiles: Seq<RasterView>, k: int) -> (
        u32,
        u32,
    ) {
        self.before_load(names, tiles, k).load_origin(names[k])
    }

    /// The minimum alpha that a query for `r` returns: the remembered one if
    /// there is one, else the least alpha that the raster holds there now.
    pub open spec fn alpha_of(self, r: Rect) -> u8 {
        if self.alphas.contains_key(r) {
            self.alphas[r]
        } else {
            self.raster.min_alpha(r.0 as int, r.1 as int, r.2 as int, r.3 as int)
        }
    }

    /// The builder after a query for `r`: the answer is remembered.
    pub open spec fn remember_alpha(self, r: Rect) -> Self {
        AtlasView { alphas: self.alphas.insert(r, self.alpha_of(r)), ..self }
    }
}

/// A pixel origin as a pair of integers.
pub open spec fn origin_as_ints(origin: (u32, u32)) -> (int, int) {
    (origin.0 as int, origin.1 as int)
}

/// The view of the tile list: names by their characters.
pub open spec fn tiles_view(tiles: Seq<(String, (u32, u32))>) -> Seq<(Seq<char>, (u32, u32))> {
    Seq::new(tiles.len(), |i: int| (tiles[i].0@, tiles[i].1))
}

/// The view of the alpha cache: rectangles by their keys.
pub open spec fn alphas_view(cache: Map<u128, u8>) -> Map<Rect, u8> {
    Map::new(|r: Rect| cache.contains_key(rect_key(r)), |r: Rect| cache[rect_key(r)])
}

/// A freshly made atlas is well formed.
pub proof fn lemma_initial_wf(base_path: Seq<char>, unit_width: nat, unit_height: nat)
    requires
        unit_width > 0,
        unit_height > 0,
        4 * unit_width <= u32::MAX,
        4 * unit_height <= u32::MAX,
    ensures
        AtlasView::initial(base_path, unit_width, unit_height).wf(),
{
    let v = AtlasView::initial(base_path, unit_width, unit_height);
    lemma2_to64();
    lemma_from_fn_wf(4 * unit_width, 4 * unit_height, |x: int, y: int, c: int| 0u8);
    assert(v.cursor.placed() == 0) by (nonlinear_arith)
        requires
            v.cursor == CursorView::start(),
    ;
    assert(unit_width * v.grid() == 4 * unit_width && unit_height * v.grid() == 4 * unit_height)
        by (nonlinear_arith)
        requires
            v.grid() == 4,
    ;
    assert(v.tiles.len() == 0);
}

/// A raster side of `4 * 2^k` tiles that fits a `u32` has at most `2^31`
/// tiles.
proof fn lemma_grid_bound(k: nat)
    requires
        4 * pow2(k) <= u32::MAX,
    ensures
        4 * pow2(k) <= 0x8000_0000,
{
    lemma2_to64();
    if k > 30 {
        lemma_pow2_strictly_increases(30, k);
    } else if k < 29 {
        lemma_pow2_strictly_increases(k, 29);
    }
}

/// In a well-formed atlas the raster has to grow exactly when the occupied
/// square fills it, and growth makes room for the ring to come.
pub proof fn lemma_growth(v: AtlasView)
    requires
        v.wf(),
    ensures
        v.needs_growth() <==> v.cursor.slot == 0 && v.cursor.ring == v.grid(),
        v.unit_width * v.cursor.ring <= v.raster.width,
        v.unit_height * v.cursor.ring <= v.raster.height,
        v.grid() > 0,
        4 * pow2(v.doublings + 1) == 2 * v.grid(),
{
    let uw = v.unit_width as int;
    let uh = v.unit_height as int;
    let r = v.cursor.ring as int;
    let g = v.grid() as int;
    lemma_pow2_pos(v.doublings);
    lemma_pow2_unfold(v.doublings + 1);
    assert(uw * r <= uw * g && (r < g ==> uw * r < uw * g)) by (nonlinear_arith)
        requires
            0 <= r <= g,
            uw > 0,
    ;
    assert(uh * r <= uh * g && (r < g ==> uh * r < uh * g)) by (nonlinear_arith)
        requires
            0 <= r <= g,
            uh > 0,
    ;
}

/// Loading keeps the atlas well formed, and a new tile lies inside the
/// raster at an origin that fits a `u32`.
pub proof fn lemma_load_wf(v: AtlasView, name: Seq<char>, tile: RasterView)
    requires
        v.wf(),
        v.has_tile(name) || v.has_room(),
    ensures
        v.load(name, tile).wf(),
        !v.has_tile(name) ==> origin_as_ints(v.next_origin()) == cell_origin(
            v.cursor.cell(),
            v.unit_width,
            v.unit_height,
        ) && v.load(name, tile).raster.contains_rect(
            v.next_origin().0 as int,
            v.next_origin().1 as int,
            v.unit_width as int,
            v.unit_height as int,
        ),
{
    if !v.has_tile(name) {
        let w = v.load(name, tile);
        let uw = v.unit_width as int;
        let uh = v.unit_height as int;
        let r = v.cursor.ring as int;
        let g = v.grid() as int;
        let g2 = w.grid() as int;
        let cell = v.cursor.cell();
        let cx = cell.0 as int;
        let cy = cell.1 as int;
        let n = v.tiles.len();
        lemma_growth(v);
        lemma_advance(v.cursor);
        lemma_cell_in_ring(v.cursor);
        lemma_ring_bounds(v.cursor);
        lemma_cursor_of_count(v.cursor, v.cursor.ring);
        let grown = if v.needs_growth() {
            v.raster.doubled()
        } else {
            v.raster
        };
        let f = |x: int, y: int, c: int|
            if x < v.raster.width && y < v.raster.height {
                v.raster.sample(x, y, c)
            } else {
                0u8
            };
        lemma_from_fn_wf(2 * v.raster.width, 2 * v.raster.height, f);
        assert(grown.wf());
        assert(r < g2);
        assert(grown.width == uw * g2 && grown.height == uh * g2) by (nonlinear_arith)
            requires
                v.raster.width == uw * g,
                v.raster.height == uh * g,
                grown.width == (if g2 == g {
                    v.raster.width
                } else {
                    2 * v.raster.width
                }),
                grown.height == (if g2 == g {
                    v.raster.height
                } else {
                    2 * v.raster.height
                }),
                g2 == g || g2 == 2 * g,
        ;
        assert(0 <= cx * uw && cx * uw + uw <= uw * g2) by (nonlinear_arith)
            requires
                0 <= cx <= r,
                r < g2,
                uw > 0,
        ;
        assert(0 <= cy * uh && cy * uh + uh <= uh * g2) by (nonlinear_arith)
            requires
                0 <= cy <= r,
                r < g2,
                uh > 0,
        ;
        let origin = v.next_origin();
        let g_fn = |x: int, y: int, c: int|
            if origin.0 as int <= x < origin.0 as int + uw && origin.1 as int <= y < origin.1 as int
                + uh {
                tile.sample(x - origin.0 as int, y - origin.1 as int, c)
            } else {
                grown.sample(x, y, c)
            };
        lemma_from_fn_wf(grown.width, grown.height, g_fn);
        assert(w.raster == RasterView::from_fn(grown.width, grown.height, g_fn));
        assert forall|i: int, j: int| 0 <= i < j < w.tiles.len() implies (#[trigger] w.tiles[i]).0 != (
        #[trigger] w.tiles[j]).0 by {
            if j == n {
                assert(v.tiles[i].0 != name);
            } else {
                assert(v.tiles[i].0 != v.tiles[j].0);
            }
        }
        assert forall|i: int| 0 <= i < w.tiles.len() implies origin_as_ints(
            (#[trigger] w.tiles[i]).1,
        ) == cell_origin(CursorView::after(i as nat).cell(), w.unit_width, w.unit_height) by {
            if i < n {
                assert(w.tiles[i] == v.tiles[i]);
            }
        }
    }
}

/// The rectangle that the four numbers of a query stand for.
pub open spec fn rect_of(rect: [u32; 4]) -> Rect {
    (rect[0], rect[1], rect[2], rect[3])
}

/// Inserting under a rectangle's key is inserting under the rectangle.
proof fn lemma_alphas_insert(cache: Map<u128, u8>, r: Rect, alpha: u8)
    ensures
        alphas_view(cache.insert(rect_key(r), alpha)) == alphas_view(cache).insert(r, alpha),
{
    assert forall|q: Rect| q != r implies rect_key(q) != rect_key(r) by {
        if rect_key(q) == rect_key(r) {
            lemma_rect_key_injective(q, r);
        }
    }
    assert(alphas_view(cache.insert(rect_key(r), alpha)) =~= alphas_view(cache).insert(r, alpha));
}

/// No two tiles of an atlas share a pixel: tiles placed under different
/// names lie at origins whose `unit_width * unit_height` rectangles are
/// disjoint.
pub proof fn lemma_tiles_disjoint(v: AtlasView, a: Seq<char>, b: Seq<char>)
    requires
        v.wf(),
        v.has_tile(a),
        v.has_tile(b),
        a != b,
    ensures
        !tiles_overlap(
            origin_as_ints(v.position_of(a).unwrap()),
            origin_as_ints(v.position_of(b).unwrap()),
            v.unit_width as int,
            v.unit_height as int,
        ),
{
    let i = v.tile_index(a);
    let j = v.tile_index(b);
    assert(v.tiles[i].0 == a && v.tiles[j].0 == b);
    lemma_placements_apart(i as nat, j as nat, v.unit_width, v.unit_height);
}

/// Loading a name again returns the origin of the first load and changes
/// nothing, whatever image comes with it; and once a name is placed its
/// origin stays whatever is loaded afterwards.
pub proof fn lemma_reload(
    v: AtlasView,
    name: Seq<char>,
    tile: RasterView,
    other: Seq<char>,
    later: RasterView,
    again: RasterView,
)
    requires
        v.wf(),
        v.has_tile(name) || v.has_room(),
    ensures
        v.load(name, tile).position_of(name) == Some(v.load_origin(name)),
        v.load(name, tile).load_origin(name) == v.load_origin(name),
        v.load(name, tile).load(name, again) == v.load(name, tile),
        v.load(name, tile).load(other, later).load_origin(name) == v.load_origin(name),
{
    let w = v.load(name, tile);
    lemma_load_wf(v, name, tile);
    lemma_position_after_load(v, name, tile);
    let u = w.load(other, later);
    if other != name && !w.has_tile(other) {
        let k = w.tile_index(name);
        assert(u.tiles[k] == w.tiles[k]);
        assert(u.has_tile(name));
        let m = u.tile_index(name);
        assert(u.tiles[m].0 == name);
        if m != k {
            assert(m == w.tiles.len());
        }
    }
}

/// A tile that is placed keeps its origin when another name is loaded.
pub proof fn lemma_load_keeps_position(
    v: AtlasView,
    name: Seq<char>,
    other: Seq<char>,
    tile: RasterView,
)
    requires
        v.wf(),
        v.has_tile(name),
        v.has_tile(other) || v.has_room(),
    ensures
        v.load(other, tile).has_tile(name),
        v.load(other, tile).position_of(name) == v.position_of(name),
{
    let w = v.load(other, tile);
    lemma_load_wf(v, other, tile);
    if !v.has_tile(other) {
        let k = v.tile_index(name);
        assert(w.tiles[k] == v.tiles[k]);
        let m = w.tile_index(name);
        assert(w.tiles[m].0 == name);
        if m != k {
            assert(m == v.tiles.len());
        }
    }
}

/// Loading names in order, from a well-formed atlas that has room at every
/// step, leaves a well-formed atlas in which every name loaded so far is
/// placed at the origin that its load returned.
pub proof fn lemma_load_all(
    v: AtlasView,
    names: Seq<Seq<char>>,
    tiles: Seq<RasterView>,
    m: int,
    k: int,
)
    requires
        v.wf(),
        names.len() == tiles.len(),
        0 <= k < m <= names.len(),
        forall|i: int|
            0 <= i < names.len() ==> v.before_load(names, tiles, i).has_tile(names[i]) || (
            #[trigger] v.before_load(names, tiles, i)).has_room(),
    ensures
        v.before_load(names, tiles, m).wf(),
        v.before_load(names, tiles, m).position_of(names[k]) == Some(v.origin_in(names, tiles, k)),
    decreases m,
{
    let prev = v.before_load(names, tiles, m - 1);
    assert(names.take(m).drop_last() =~= names.take(m - 1));
    assert(tiles.take(m).drop_last() =~= tiles.take(m - 1));
    assert(v.before_load(names, tiles, m) == prev.load(names[m - 1], tiles[m - 1]));
    assert(prev.has_tile(names[m - 1]) || prev.has_room());
    if m - 1 == 0 {
        assert(names.take(0).len() == 0);
        assert(prev == v);
    } else {
        lemma_load_all(v, names, tiles, m - 1, 0);
    }
    lemma_load_wf(prev, names[m - 1], tiles[m - 1]);
    if k == m - 1 {
        lemma_position_after_load(prev, names[k], tiles[k]);
    } else {
        lemma_load_all(v, names, tiles, m - 1, k);
        lemma_load_keeps_position(prev, names[k], names[m - 1], tiles[m - 1]);
    }
}

/// For any names loaded in order, the origins returned for two different
/// names are the origins of tiles that share no pixel.
pub proof fn lemma_loads_disjoint(
    v: AtlasView,
    names: Seq<Seq<char>>,
    tiles: Seq<RasterView>,
    i: int,
    j: int,
)
    requires
        v.wf(),
        names.len() == tiles.len(),
        0 <= i < names.len(),
        0 <= j < names.len(),
        names[i] != names[j],
        forall|k: int|
            0 <= k < names.len() ==> v.before_load(names, tiles, k).has_tile(names[k]) || (
            #[trigger] v.before_load(names, tiles, k)).has_room(),
    ensures
        !tiles_overlap(
            origin_as_ints(v.origin_in(names, tiles, i)),
            origin_as_ints(v.origin_in(names, tiles, j)),
            v.unit_width as int,
            v.unit_height as int,
        ),
{
    let n = names.len() as int;
    let w = v.before_load(names, tiles, n);
    lemma_load_all(v, names, tiles, n, i);
    lemma_load_all(v, names, tiles, n, j);
    lemma_load_all_keeps_units(v, names, tiles, n);
    lemma_tiles_disjoint(w, names[i], names[j]);
}

/// Loading changes neither the unit size nor the base path.
proof fn lemma_load_all_keeps_units(
    v: AtlasView,
    names: Seq<Seq<char>>,
    tiles: Seq<RasterView>,
    m: int,
)
    requires
        names.len() == tiles.len(),
        0 <= m <= names.len(),
    ensures
        v.before_load(names, tiles, m).unit_width == v.unit_width,
        v.before_load(names, tiles, m).unit_height == v.unit_height,
        v.before_load(names, tiles, m).base_path == v.base_path,
    decreases m,
{
    if m > 0 {
        assert(names.take(m).drop_last() =~= names.take(m - 1));
        assert(tiles.take(m).drop_last() =~= tiles.take(m - 1));
        lemma_load_all_keeps_units(v, names, tiles, m - 1);
    } else {
        assert(names.take(0).len() == 0);
    }
}

/// After a load the name is placed at the origin that the load returned.
pub proof fn lemma_position_after_load(v: AtlasView, name: Seq<char>, tile: RasterView)
    requires
        v.wf(),
        v.has_tile(name) || v.has_room(),
    ensures
        v.load(name, tile).has_tile(name),
        v.load(name, tile).position_of(name) == Some(v.load_origin(name)),
{
    let w = v.load(name, tile);
    lemma_load_wf(v, name, tile);
    if !v.has_tile(name) {
        let n = v.tiles.len() as int;
        assert(w.tiles[n].0 == name);
        let k = w.tile_index(name);
        assert(w.tiles[k].0 == name);
        if k != n {
            assert(w.tiles[k] == v.tiles[k]);
        }
    }
}

/// The side of the occupied square is the integer square root of the number
/// of tiles placed: it is the one `s` with `s * s <= n < (s + 1) * (s + 1)`.
pub proof fn lemma_completed_size(v: AtlasView, s: nat)
    requires
        v.wf(),
    ensures
        v.cursor.ring * v.cursor.ring <= v.tiles.len() < (v.cursor.ring + 1) * (v.cursor.ring + 1),
        s * s <= v.tiles.len() < (s + 1) * (s + 1) ==> v.cursor.ring == s,
{
    lemma_ring_bounds(v.cursor);
    if s * s <= v.tiles.len() < (s + 1) * (s + 1) {
        lemma_cursor_of_count(v.cursor, s);
    }
}

/// The raster always spans the occupied square, and its size is the initial
/// four by four tiles times a power of two.
pub proof fn lemma_raster_size(v: AtlasView)
    requires
        v.wf(),
    ensures
        v.raster.width >= v.unit_width * v.cursor.ring,
        v.raster.height >= v.unit_height * v.cursor.ring,
        v.raster.width == (4 * v.unit_width) * pow2(v.doublings),
        v.raster.height == (4 * v.unit_height) * pow2(v.doublings),
{
    lemma_growth(v);
    let p = pow2(v.doublings) as int;
    assert(v.unit_width * (4 * p) == (4 * v.unit_width) * p) by (nonlinear_arith);
    assert(v.unit_height * (4 * p) == (4 * v.unit_height) * p) by (nonlinear_arith);
}

/// A query that is repeated returns what it returned first, even if tiles
/// have been loaded in between: the remembered answer is never dropped.
pub proof fn lemma_alpha_repeat(v: AtlasView, r: Rect, name: Seq<char>, tile: RasterView)
    ensures
        v.remember_alpha(r).alpha_of(r) == v.alpha_of(r),
        v.remember_alpha(r).remember_alpha(r) == v.remember_alpha(r),
        v.remember_alpha(r).load(name, tile).alpha_of(r) == v.alpha_of(r),
{
    let w = v.remember_alpha(r);
    assert(w.alphas.insert(r, w.alpha_of(r)) =~= w.alphas);
}

/// The finished atlas, ready for upload as an 8-bit RGBA texture.
pub struct AtlasImage {
    /// Width in pixels.
    pub width: u32,
    /// Height in pixels.
    pub height: u32,
    /// Bytes from one row of pixels to the next: four per pixel.
    pub bytes_per_row: u32,
    /// The samples, row by row: red, green, blue, alpha of each pixel.
    pub texels: Vec<u8>,
}

/// Builds an atlas of textures.
pub struct AtlasBuilder {
    image: Raster,
    // Base path for loading tiles.
    path: String,
    // Size of an individual tile.
    unit_width: u32,
    unit_height: u32,
    // Size of the entirely occupied square, and position in the current strip.
    cursor: Cursor,
    // Position cache for loaded tiles (in pixels), in order of placement.
    tile_positions: Vec<(String, (u32, u32))>,
    // Lowest-alpha cache for rectangles in the atlas.
    min_alpha_cache: HashMap<u128, u8>,
    // How often the image has been doubled.
    doublings: Ghost<nat>,
}

impl View for AtlasBuilder {
    type V = AtlasView;

    closed spec fn view(&self) -> AtlasView {
        AtlasView {
            base_path: self.path@,
            unit_width: self.unit_width as nat,
            unit_height: self.unit_height as nat,
            raster: self.image@,
            cursor: self.cursor@,
            tiles: tiles_view(self.tile_positions@),
            alphas: alphas_view(self.min_alpha_cache@),
            doublings: self.doublings@,
        }
    }
}

impl AtlasBuilder {
    /// The builder's invariant. Every builder made by `new` and changed only
    /// through its methods satisfies it.
    pub open spec fn wf(&self) -> bool {
        self@.wf()
    }

    /// Creates a new `AtlasBuilder` for tiles of the given size, with a
    /// transparent raster of four by four tiles.
    pub fn new(path: String, unit_width: u32, unit_height: u32) -> (builder: Self)
        requires
            unit_width > 0,
            unit_height > 0,
            4 * unit_width <= u32::MAX,
            4 * unit_height <= u32::MAX,
            64 * unit_width * unit_height <= isize::MAX,
        ensures
            builder.wf(),
            builder@ == AtlasView::initial(path@, unit_width as nat, unit_height as nat),
    {
        assert(4 * (4 * unit_width) * (4 * unit_height) == 64 * unit_width * unit_height)
            by (nonlinear_arith);
        let builder = AtlasBuilder {
            image: Raster::new(unit_width * 4, unit_height * 4),
            path,
            unit_width,
            unit_height,
            cursor: Cursor::new(),
            tile_positions: Vec::new(),
            min_alpha_cache: HashMap::new(),
            doublings: Ghost(0),
        };
        proof {
            lemma2_to64();
            lemma_from_fn_wf(
                (4 * unit_width) as nat,
                (4 * unit_height) as nat,
                |x: int, y: int, c: int| 0u8,
            );
            assert(builder@.tiles =~= Seq::empty());
            assert(builder@.alphas =~= Map::empty());
            assert(builder@.cursor.placed() == 0) by (nonlinear_arith)
                requires
                    builder@.cursor == CursorView::start(),
            ;
        }
        builder
    }

    /// Returns the _current_ atlas size, as (width, height) in pixels.
    /// Subject to change during every call to `load`!
    pub fn get_size(&self) -> (size: (u32, u32))
        ensures
            size.0 == self@.raster.width,
            size.1 == self@.raster.height,
    {
        self.image.dimensions()
    }

    /// Size of the entirely occupied square, in tiles.
    pub fn completed_tiles_size(&self) -> (size: u32)
        ensures
            size == self@.cursor.ring,
    {
        self.cursor.ring
    }

    /// Number of tiles placed in the ring around the occupied square.
    pub fn position(&self) -> (slot: u32)
        ensures
            slot == self@.cursor.slot,
    {
        self.cursor.slot
    }

    /// Number of tiles placed so far.
    pub fn tile_count(&self) -> (n: usize)
        ensures
            n == self@.tiles.len(),
    {
        self.tile_positions.len()
    }

    /// The decoded tile image fits this atlas: it is exactly one unit wide
    /// and a positive whole number of units high.
    pub fn accepts(&self, tile: &Raster) -> (ok: bool)
        requires
            self.wf(),
        ensures
            ok == self@.accepts(tile@),
    {
        let (iw, ih) = tile.dimensions();
        iw == self.unit_width && ih >= self.unit_height && ih % self.unit_height == 0
    }

    /// How many frames of the tile image lie below the first one. `load`
    /// ignores them.
    pub fn extra_frames(&self, tile: &Raster) -> (n: u32)
        requires
            self.wf(),
            self@.accepts(tile@),
        ensures
            n == tile@.height / self@.unit_height - 1,
    {
        let (_, ih) = tile.dimensions();
        proof {
            vstd::arithmetic::div_mod::lemma_div_non_zero(ih as int, self.unit_height as int);
        }
        ih / self.unit_height - 1
    }

    /// The next new tile starts a ring that the raster has no room for, so
    /// that `load` will double the raster.
    pub fn needs_growth(&self) -> (b: bool)
        requires
            self.wf(),
        ensures
            b == self@.needs_growth(),
    {
        proof {
            lemma_growth(self@);
        }
        let (w, h) = self.image.dimensions();
        let size = self.cursor.ring;
        self.cursor.slot == 0 && (self.unit_width * size >= w || self.unit_height * size >= h)
    }

    /// If the raster has to be doubled for the next new tile, the doubled
    /// raster can be addressed and allocated.
    pub fn has_room(&self) -> (b: bool)
        requires
            self.wf(),
        ensures
            b == self@.has_room(),
    {
        if !self.needs_growth() {
            return true;
        }
        let (w, h) = self.image.dimensions();
        assert(16 * (w as int) * (h as int) <= 16 * 0xffff_ffff * 0xffff_ffff) by (nonlinear_arith)
            requires
                0 <= w <= 0xffff_ffff,
                0 <= h <= 0xffff_ffff,
        ;
        let area: u128 = 16 * (w as u128) * (h as u128);
        w <= u32::MAX / 2 && h <= u32::MAX / 2 && area <= isize::MAX as u128
    }

    /// Loads a decoded tile image into the texture atlas under the given
    /// name and returns the tile's position within the atlas, in pixels.
    ///
    /// A name that has been loaded before returns the position it got then;
    /// the image is not looked at and nothing changes. A new name gets the
    /// next free cell of the growing square, after the raster has been
    /// doubled if the cell starts a ring that does not fit. Only the first
    /// unit of the image is copied; frames below it are ignored.
    pub fn load(&mut self, name: &str, tile: &Raster) -> (origin: (u32, u32))
        requires
            old(self).wf(),
            !old(self)@.has_tile(name@) ==> old(self)@.accepts(tile@) && old(self)@.has_room(),
        ensures
            final(self).wf(),
            final(self)@ == old(self)@.load(name@, tile@),
            origin == old(self)@.load_origin(name@),
    {
        if let Some(pos) = self.lookup(name) {
            return pos;
        }
        let ghost before = self@;
        proof {
            lemma_growth(before);
            lemma_load_wf(before, name@, tile@);
            lemma_cell_in_ring(before.cursor);
        }
        let uw = self.unit_width;
        let uh = self.unit_height;
        if self.needs_growth() {
            let bigger = self.image.doubled();
            self.image = bigger;
            self.doublings = Ghost((before.doublings + 1) as nat);
        }
        proof {
            assert(before.cursor.ring < self@.grid());
            assert(self@.raster.width == self@.unit_width * self@.grid()) by (nonlinear_arith)
                requires
                    before.raster.width == before.unit_width * before.grid(),
                    self@.unit_width == before.unit_width,
                    (self@.grid() == before.grid() && self@.raster.width == before.raster.width)
                        || (self@.grid() == 2 * before.grid() && self@.raster.width == 2
                        * before.raster.width),
            ;
            assert(self@.grid() <= self@.raster.width) by (nonlinear_arith)
                requires
                    self@.raster.width == self@.unit_width * self@.grid(),
                    self@.unit_width > 0,
            ;
            lemma_grid_bound(self@.doublings);
        }
        let (x, y) = self.cursor.advance();
        assert(x * uw == before.next_origin().0 && y * uh == before.next_origin().1);
        let origin = (x * uw, y * uh);
        self.image.blit(tile, origin.0, origin.1, uw, uh);
        self.tile_positions.push((String::from_str(name), origin));
        proof {
            assert(self@.tiles =~= before.tiles.push((name@, origin)));
            assert(self@ == before.load(name@, tile@));
        }
        origin
    }

    /// The path of the image file for a tile name: `{base_path}/{name}.png`.
    pub fn tile_path(&self, name: &str) -> (path: String)
        ensures
            path@ == self@.tile_path(name@),
    {
        proof {
            reveal_strlit("/");
            reveal_strlit(".png");
        }
        let mut path = self.path.clone();
        path.append("/");
        path.append(name);
        path.append(".png");
        assert(path@ =~= self@.tile_path(name@));
        path
    }

    /// The minimum alpha remembered for the rectangle, if it has been asked
    /// about.
    pub fn cached_alpha(&self, rect: [u32; 4]) -> (alpha: Option<u8>)
        ensures
            alpha == (if self@.alphas.contains_key(rect_of(rect)) {
                Some(self@.alphas[rect_of(rect)])
            } else {
                None
            }),
    {
        let key = Self::key_of(rect);
        match self.min_alpha_cache.get(&key) {
            Some(alpha) => Some(*alpha),
            None => None,
        }
    }

    /// Finds the minimum alpha value in a given sub texture of the image,
    /// given as `[x, y, width, height]`, and remembers it. A rectangle that
    /// has been asked about before gets the answer it got then; an empty
    /// rectangle gets 0.
    pub fn min_alpha(&mut self, rect: [u32; 4]) -> (alpha: u8)
        requires
            old(self).wf(),
            !old(self)@.alphas.contains_key(rect_of(rect)) ==> old(self)@.raster.contains_rect(
                rect[0] as int,
                rect[1] as int,
                rect[2] as int,
                rect[3] as int,
            ),
        ensures
            final(self).wf(),
            alpha == old(self)@.alpha_of(rect_of(rect)),
            final(self)@ == old(self)@.remember_alpha(rect_of(rect)),
    {
        let ghost before = self@;
        if let Some(alpha) = self.cached_alpha(rect) {
            assert(before.alphas.insert(rect_of(rect), alpha) =~= before.alphas);
            return alpha;
        }
        let alpha = self.image.min_alpha(rect[0], rect[1], rect[2], rect[3]);
        let key = Self::key_of(rect);
        self.min_alpha_cache.insert(key, alpha);
        proof {
            lemma_alphas_insert(old(self).min_alpha_cache@, rect_of(rect), alpha);
        }
        alpha
    }

    /// Returns the complete texture atlas: its size and its samples as
    /// 8-bit RGBA, row by row, as a texture upload takes them.
    pub fn complete(self) -> (atlas: AtlasImage)
        requires
            self.wf(),
            4 * self@.raster.width <= u32::MAX,
        ensures
            atlas.width == self@.raster.width,
            atlas.height == self@.raster.height,
            atlas.bytes_per_row == 4 * atlas.width,
            atlas.texels@ == self@.raster.bytes,
            atlas.texels@.len() == atlas.bytes_per_row * atlas.height,
    {
        let (width, height) = self.image.dimensions();
        assert(4 * width * height == (4 * width) * height) by (nonlinear_arith);
        AtlasImage { width, height, bytes_per_row: 4 * width, texels: self.image.into_raw() }
    }

    fn key_of(rect: [u32; 4]) -> (key: u128)
        ensures
            key == rect_key(rect_of(rect)),
    {
        let a: u128 = rect[0] as u128;
        let b: u128 = rect[1] as u128;
        let c: u128 = rect[2] as u128;
        let d: u128 = rect[3] as u128;
        ((a * 0x1_0000_0000 + b) * 0x1_0000_0000 + c) * 0x1_0000_0000 + d
    }

    /// The pixel origin of the tile of that name, if it has been loaded.
    pub fn lookup(&self, name: &str) -> (pos: Option<(u32, u32)>)
        requires
            self.wf(),
        ensures
            pos == self@.position_of(name@),
    {
        let key = String::from_str(name);
        let mut i: usize = 0;
        while i < self.tile_positions.len()
            invariant
                i <= self.tile_positions.len(),
                key@ == name@,
                self.wf(),
                forall|j: int| 0 <= j < i ==> (#[trigger] self@.tiles[j]).0 != name@,
            decreases self.tile_positions.len() - i,
        {
            if self.tile_positions[i].0 == key {
                proof {
                    assert(self@.tiles[i as int].0 == name@);
                    assert(self@.has_tile(name@));
                    let k = self@.tile_index(name@);
                    assert(self@.tiles[k].0 == name@);
                    assert(k == i);
                }
                return Some(self.tile_positions[i].1);
            }
            i = i + 1;
        }
        None
    }
}

/// The error type of the `image` crate. Verus does not look inside.
#[verifier::external_type_specification]
#[verifier::external_body]
pub struct ExImageError(image::ImageError);

/// `Debug` of `image::ImageError`: the error as text. What the text says is
/// up to the `image` crate.
#[verifier::external_body]
fn image_error_text(err: &image::ImageError) -> (text: String) {
    format!("{:?}", err)
}

/// The decimal digit `d` as a character.
pub open spec fn digit_char(d: nat) -> char {
    seq!['0', '1', '2', '3', '4', '5', '6', '7', '8', '9'][d as int]
}

/// The decimal numeral of `n`, without leading zeros.
pub open spec fn decimal(n: nat) -> Seq<char>
    decreases n,
{
    if n < 10 {
        seq![digit_char(n)]
    } else {
        decimal(n / 10).push(digit_char(n % 10))
    }
}

/// What a size error says: the size expected, the size found and the file.
pub open spec fn size_message(width: u32, height: u32, path: Seq<char>) -> Seq<char> {
    "ColorMap expected 256x256, found "@ + decimal(width as nat) + seq!['x'] + decimal(
        height as nat,
    ) + " in '"@ + path + seq!['\'']
}

/// The decimal numeral of `n`.
pub fn decimal_string(n: u32) -> (text: String)
    ensures
        text@ == decimal(n as nat),
    decreases n,
{
    proof {
        reveal_strlit("0123456789");
    }
    let digits = "0123456789";
    if n < 10 {
        let digit = digits.substring_ascii(n as usize, n as usize + 1);
        assert(digit@ =~= seq![digit_char(n as nat)]);
        String::from_str(digit)
    } else {
        let mut text = decimal_string(n / 10);
        let last = n % 10;
        let digit = digits.substring_ascii(last as usize, last as usize + 1);
        text.append(digit);
        assert(text@ =~= decimal((n / 10) as nat).push(digit_char((n % 10) as nat)));
        text
    }
}

/// An enumeration of ColorMap errors.
pub enum ColorMapError {
    /// The image opening error.
    Img(image::ImageError),
    /// The image size error: the width and height found, and the file.
    Size(u32, u32, String),
}

impl ColorMapError {
    /// The error as text. A size error names the size expected, the size
    /// found and the file; an image error reads as the `image` crate puts it.
    pub fn message(&self) -> (text: String)
        ensures
            *self matches ColorMapError::Size(w, h, path) ==> text@ == size_message(w, h, path@),
    {
        match self {
            ColorMapError::Img(err) => image_error_text(err),
            ColorMapError::Size(w, h, path) => {
                let mut text = String::from_str("ColorMap expected 256x256, found ");
                let width = decimal_string(*w);
                text.append(width.as_str());
                text.append("x");
                let height = decimal_string(*h);
                text.append(height.as_str());
                text.append(" in '");
                text.append(path.as_str());
                text.append("'");
                proof {
                    reveal_strlit("x");
                    reveal_strlit("'");
                    assert(text@ =~= size_message(*w, *h, path@));
                }
                text
            },
        }
    }
}

/// A 256x256 image that stores colors.
pub struct ColorMap {
    image: Raster,
}

impl View for ColorMap {
    type V = RasterView;

    closed spec fn view(&self) -> RasterView {
        self.image@
    }
}

impl ColorMap {
    /// The invariant of a color map: it is 256 pixels wide and high.
    pub open spec fn wf(&self) -> bool {
        self@.width == 256 && self@.height == 256
    }

    /// Creates a new `ColorMap` from what decoding the file at `path` gave.
    /// A decoding error is passed on; an image that is not 256 by 256
    /// pixels is refused with its size and the path.
    pub fn from_path(path: &str, decoded: Result<Raster, image::ImageError>) -> (r: Result<
        Self,
        ColorMapError,
    >)
        ensures
            match decoded {
                Err(err) => r == Err::<Self, ColorMapError>(ColorMapError::Img(err)),
                Ok(img) => if img@.width == 256 && img@.height == 256 {
                    r matches Ok(map) && map@ == img@ && map.wf()
                } else {
                    r matches Err(ColorMapError::Size(w, h, p)) && w == img@.width && h
                        == img@.height && p@ == path@
                },
            },
    {
        match decoded {
            Err(err) => Err(ColorMapError::Img(err)),
            Ok(img) => {
                let (w, h) = img.dimensions();
                if w == 256 && h == 256 {
                    Ok(ColorMap { image: img })
                } else {
                    Err(ColorMapError::Size(w, h, String::from_str(path)))
                }
            },
        }
    }

    /// Gets the RGB color of the pixel in column `x` and row `y`.
    pub fn rgb_at(&self, x: u8, y: u8) -> (rgb: [u8; 3])
        requires
            self.wf(),
        ensures
            rgb@ == self@.pixel(x as int, y as int).take(3),
    {
        let col = self.image.get_pixel(x as u32, y as u32);
        let rgb = [col[0], col[1], col[2]];
        assert(rgb@ =~= self@.pixel(x as int, y as int).take(3));
        rgb
    }
}

} // verus!
