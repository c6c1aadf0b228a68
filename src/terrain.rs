//! Terrain streaming: a window of equally wide hill tiles, laid end to end,
//! that is grown ahead of the camera and trimmed behind it.
use vstd::prelude::*;

verus! {

/// Largest distance from the origin that a camera position may have.
pub const MAX_COORD: i64 = 1099511627776;

/// Largest tile width and viewport width.
pub const MAX_SPAN: i64 = 1048576;

/// Every tile edge of a streamed window stays within this distance of the origin.
pub const EDGE_BOUND: i64 = MAX_COORD + 4 * MAX_SPAN;

/// Width of one hill tile in world units.
pub const HILL_TILE_WIDTH: i64 = 256;

/// One instantiated terrain tile, given by its horizontal extent.
#[derive(Clone, Copy, Debug, PartialEq, Eq)]
pub struct Segment {
    pub left_edge_x: i64,
    pub right_edge_x: i64,
}

impl View for Segment {
    type V = (int, int);

    open spec fn view(&self) -> (int, int) {
        (self.left_edge_x as int, self.right_edge_x as int)
    }
}

/// The extents of a sequence of segments.
pub open spec fn extents(v: Seq<Segment>) -> Seq<(int, int)> {
    v.map_values(|s: Segment| s@)
}

proof fn lemma_extents_push(v: Seq<Segment>, s: Segment)
    ensures
        extents(v.push(s)) == extents(v).push(s@),
{
    assert(extents(v.push(s)) =~= extents(v).push(s@));
}

/// Each tile is `tile` wide and starts where the one before it ends.
pub open spec fn contiguous(segs: Seq<(int, int)>, tile: int) -> bool {
    &&& forall|i: int| 0 <= i < segs.len() ==> #[trigger] segs[i].1 == segs[i].0 + tile
    &&& forall|i: int| 0 < i < segs.len() ==> #[trigger] segs[i].0 == segs[i - 1].1
}

/// Every edge lies within `EDGE_BOUND` of the origin.
pub open spec fn within_bounds(segs: Seq<(int, int)>) -> bool {
    forall|i: int|
        0 <= i < segs.len() ==> -EDGE_BOUND <= #[trigger] segs[i].0 && segs[i].1 <= EDGE_BOUND
}

/// The camera position and viewport width that a streaming step accepts.
pub open spec fn valid_view(camera_x: int, viewport_width: int) -> bool {
    &&& -MAX_COORD <= camera_x <= MAX_COORD
    &&& 0 <= viewport_width <= MAX_SPAN
}

/// How many tiles cover twice the viewport width.
pub open spec fn bootstrap_count(viewport_width: int, tile: int) -> int {
    (2 * viewport_width + tile - 1) / tile
}

/// The first window: tiles from one viewport width behind the camera, enough
/// of them to cover twice the viewport width.
pub open spec fn bootstrap_window(camera_x: int, viewport_width: int, tile: int) -> Seq<(int, int)> {
    Seq::new(
        bootstrap_count(viewport_width, tile) as nat,
        |i: int|
            (camera_x - viewport_width + i * tile, camera_x - viewport_width + (i + 1) * tile),
    )
}

/// The camera has come within a viewport width of the window's right end.
pub open spec fn spawn_due(segs: Seq<(int, int)>, camera_x: int, viewport_width: int) -> bool {
    camera_x > segs.last().1 - viewport_width
}

/// The camera has passed the right edge of the leftmost tile by more than a
/// viewport width.
pub open spec fn despawn_due(segs: Seq<(int, int)>, camera_x: int, viewport_width: int) -> bool {
    camera_x > segs[0].1 + viewport_width
}

/// The tiles that one streaming step adds, in order.
pub open spec fn spawned(
    segs: Seq<(int, int)>,
    camera_x: int,
    viewport_width: int,
    tile: int,
) -> Seq<(int, int)> {
    if segs.len() == 0 {
        bootstrap_window(camera_x, viewport_width, tile)
    } else if spawn_due(segs, camera_x, viewport_width) {
        seq![(segs.last().1, segs.last().1 + tile)]
    } else {
        Seq::empty()
    }
}

/// The tile that one streaming step removes, if any.
pub open spec fn despawned(segs: Seq<(int, int)>, camera_x: int, viewport_width: int) -> Option<
    (int, int),
> {
    if segs.len() > 0 && despawn_due(segs, camera_x, viewport_width) {
        Some(segs[0])
    } else {
        None
    }
}

/// The window after one streaming step: the added tiles appended on the
/// right, then the removed one taken from the left.
pub open spec fn stream(
    segs: Seq<(int, int)>,
    camera_x: int,
    viewport_width: int,
    tile: int,
) -> Seq<(int, int)> {
    let grown = segs + spawned(segs, camera_x, viewport_width, tile);
    if despawned(segs, camera_x, viewport_width) is Some {
        grown.drop_first()
    } else {
        grown
    }
}

proof fn lemma_bootstrap_count_bound(viewport_width: int, tile: int)
    requires
        0 <= viewport_width,
        0 < tile,
    ensures
        0 <= bootstrap_count(viewport_width, tile),
        bootstrap_count(viewport_width, tile) * tile <= 2 * viewport_width + tile - 1,
{
    let a = 2 * viewport_width + tile - 1;
    vstd::arithmetic::div_mod::lemma_fundamental_div_mod(a, tile);
    vstd::arithmetic::div_mod::lemma_mod_pos_bound(a, tile);
    vstd::arithmetic::div_mod::lemma_div_pos_is_pos(a, tile);
    assert(tile * (a / tile) == (a / tile) * tile) by (nonlinear_arith);
}

proof fn lemma_bootstrap_window_valid(camera_x: int, viewport_width: int, tile: int)
    requires
        valid_view(camera_x, viewport_width),
        0 < tile <= MAX_SPAN,
    ensures
        contiguous(bootstrap_window(camera_x, viewport_width, tile), tile),
        within_bounds(bootstrap_window(camera_x, viewport_width, tile)),
{
    let n = bootstrap_count(viewport_width, tile);
    let win = bootstrap_window(camera_x, viewport_width, tile);
    lemma_bootstrap_count_bound(viewport_width, tile);
    assert forall|i: int| 0 <= i < win.len() implies -EDGE_BOUND <= #[trigger] win[i].0 && win[i].1
        <= EDGE_BOUND by {
        assert(0 <= i * tile) by (nonlinear_arith)
            requires
                0 <= i,
                0 < tile,
        ;
        assert((i + 1) * tile <= n * tile) by (nonlinear_arith)
            requires
                i + 1 <= n,
                0 < tile,
        ;
    }
    assert forall|i: int| 0 <= i < win.len() implies #[trigger] win[i].1 == win[i].0 + tile by {
        assert((i + 1) * tile == i * tile + tile) by (nonlinear_arith);
    }
    assert forall|i: int| 0 < i < win.len() implies #[trigger] win[i].0 == win[i - 1].1 by {
        assert((i - 1 + 1) * tile == i * tile);
    }
}

/// Streaming keeps the window contiguous and within bounds, whatever the
/// camera does between frames.
pub proof fn lemma_stream_keeps_window(
    segs: Seq<(int, int)>,
    camera_x: int,
    viewport_width: int,
    tile: int,
)
    requires
        0 < tile <= MAX_SPAN,
        contiguous(segs, tile),
        within_bounds(segs),
        valid_view(camera_x, viewport_width),
    ensures
        contiguous(stream(segs, camera_x, viewport_width, tile), tile),
        within_bounds(stream(segs, camera_x, viewport_width, tile)),
{
    if segs.len() == 0 {
        lemma_bootstrap_window_valid(camera_x, viewport_width, tile);
        assert(stream(segs, camera_x, viewport_width, tile) =~= bootstrap_window(
            camera_x,
            viewport_width,
            tile,
        ));
    } else {
        let grown = segs + spawned(segs, camera_x, viewport_width, tile);
        assert(contiguous(grown, tile) && within_bounds(grown)) by {
            if spawn_due(segs, camera_x, viewport_width) {
                assert(grown =~= segs.push((segs.last().1, segs.last().1 + tile)));
                assert(segs[segs.len() - 1].1 <= EDGE_BOUND);
            } else {
                assert(grown =~= segs);
            }
        }
        if despawned(segs, camera_x, viewport_width) is Some {
            let shrunk = grown.drop_first();
            assert forall|i: int| 0 < i < shrunk.len() implies #[trigger] shrunk[i].0 == shrunk[i
                - 1].1 by {
                assert(shrunk[i] == grown[i + 1]);
                assert(grown[i + 1].0 == grown[i + 1 - 1].1);
            }
            assert forall|i: int| 0 <= i < shrunk.len() implies #[trigger] shrunk[i].1
                == shrunk[i].0 + tile by {
                assert(shrunk[i] == grown[i + 1]);
            }
            assert forall|i: int| 0 <= i < shrunk.len() implies -EDGE_BOUND <= #[trigger] shrunk[i].0
                && shrunk[i].1 <= EDGE_BOUND by {
                assert(shrunk[i] == grown[i + 1]);
            }
        }
    }
}

proof fn lemma_left_edges(segs: Seq<(int, int)>, tile: int, i: int, k: int)
    requires
        contiguous(segs, tile),
        0 <= i <= k < segs.len(),
    ensures
        segs[k].0 == segs[i].0 + (k - i) * tile,
    decreases k - i,
{
    if k == i {
        assert((k - i) * tile == 0);
    } else {
        lemma_left_edges(segs, tile, i, k - 1);
        assert(segs[k].0 == segs[k - 1].1);
        assert(segs[k - 1].1 == segs[k - 1].0 + tile);
        assert((k - 1 - i) * tile + tile == (k - i) * tile) by (nonlinear_arith);
    }
}

/// Tiles of a contiguous window never overlap, and a tile ends exactly where
/// the next one begins: of two tiles, the one further left ends no later
/// than the other starts, with no gap between them exactly when they are
/// neighbours.
pub proof fn lemma_segments_abut(segs: Seq<(int, int)>, tile: int, i: int, j: int)
    requires
        0 < tile,
        contiguous(segs, tile),
        0 <= i < j < segs.len(),
    ensures
        segs[i].0 < segs[i].1 <= segs[j].0 < segs[j].1,
        segs[i].1 == segs[j].0 <==> j == i + 1,
{
    lemma_left_edges(segs, tile, i, j);
    assert(segs[i].1 == segs[i].0 + tile);
    assert(segs[j].1 == segs[j].0 + tile);
    assert((j - i) * tile >= tile) by (nonlinear_arith)
        requires
            j - i >= 1,
            0 < tile,
    ;
    if j != i + 1 {
        assert((j - i) * tile >= 2 * tile) by (nonlinear_arith)
            requires
                j - i >= 2,
                0 < tile,
        ;
    }
}

/// Once the window holds a tile, a streaming step adds at most one tile and
/// removes at most one, however far the camera has moved since the last step.
pub proof fn lemma_one_change_per_step(
    segs: Seq<(int, int)>,
    camera_x: int,
    viewport_width: int,
    tile: int,
)
    requires
        segs.len() > 0,
    ensures
        spawned(segs, camera_x, viewport_width, tile).len() <= 1,
        segs.len() - 1 <= stream(segs, camera_x, viewport_width, tile).len() <= segs.len() + 1,
{
}

/// The window does not fall behind a camera that moves right by at most one
/// tile per step: if its right end is no more than one tile short of a
/// viewport width ahead of the camera, the same holds after the step, and
/// the window is still not empty.
pub proof fn lemma_window_stays_ahead(
    segs: Seq<(int, int)>,
    camera_x: int,
    next_camera_x: int,
    viewport_width: int,
    tile: int,
)
    requires
        0 < tile,
        0 <= viewport_width,
        contiguous(segs, tile),
        segs.len() > 0,
        segs.last().1 >= camera_x + viewport_width - tile,
        next_camera_x <= camera_x + tile,
    ensures
        stream(segs, next_camera_x, viewport_width, tile).len() > 0,
        stream(segs, next_camera_x, viewport_width, tile).last().1 >= next_camera_x
            + viewport_width - tile,
{
    let grown = segs + spawned(segs, next_camera_x, viewport_width, tile);
    if segs.len() > 1 {
        lemma_segments_abut(segs, tile, 0, segs.len() - 1);
    }
    assert(segs[0].1 <= segs.last().1);
    assert(grown.last() == stream(segs, next_camera_x, viewport_width, tile).last());
}

/// What one streaming step did, for the caller to mirror in the scene.
#[derive(Clone, Debug, PartialEq, Eq)]
pub struct StreamStep {
    /// Tiles added at the right end of the window, left to right.
    pub spawned: Vec<Segment>,
    /// The tile removed from the left end of the window.
    pub despawned: Option<Segment>,
}

/// The extent of an optional segment.
pub open spec fn opt_extent(o: Option<Segment>) -> Option<(int, int)> {
    match o {
        Some(s) => Some(s@),
        None => None,
    }
}

/// The streamed window of terrain tiles, ordered from left to right.
pub struct Terrain {
    tile_width: i64,
    segments: Vec<Segment>,
}

impl View for Terrain {
    type V = Seq<(int, int)>;

    closed spec fn view(&self) -> Seq<(int, int)> {
        extents(self.segments@)
    }
}

impl Terrain {
    /// Width of each tile.
    pub closed spec fn tile(&self) -> int {
        self.tile_width as int
    }

    /// Tiles are between one unit and `MAX_SPAN` wide, laid end to end and
    /// within `EDGE_BOUND`.
    pub open spec fn wf(&self) -> bool {
        &&& 0 < self.tile() <= MAX_SPAN
        &&& contiguous(self@, self.tile())
        &&& within_bounds(self@)
    }

    /// An empty window of tiles `tile_width` wide; the first streaming step
    /// fills it.
    pub fn new(tile_width: i64) -> (r: Terrain)
        requires
            0 < tile_width <= MAX_SPAN,
        ensures
            r.wf(),
            r.tile() == tile_width,
            r@ == Seq::<(int, int)>::empty(),
    {
        let r = Terrain { tile_width, segments: Vec::new() };
        assert(r@ =~= Seq::<(int, int)>::empty());
        r
    }

    /// Width of each tile.
    pub fn tile_width(&self) -> (r: i64)
        ensures
            r == self.tile(),
    {
        self.tile_width
    }

    /// The tiles of the window, from left to right.
    pub fn segments(&self) -> (r: Vec<Segment>)
        ensures
            extents(r@) == self@,
    {
        self.segments.clone()
    }

    /// One frame of streaming. An empty window is filled with enough tiles to
    /// cover twice the viewport width, starting one viewport width behind the
    /// camera. Otherwise at most one tile is added, abutting the rightmost
    /// one, when the camera comes within a viewport width of the window's
    /// right end; and at most one is removed, the leftmost, when the camera
    /// is more than a viewport width past its right edge.
    pub fn stream_step(&mut self, camera_x: i64, viewport_width: i64) -> (r: StreamStep)
        requires
            old(self).wf(),
            valid_view(camera_x as int, viewport_width as int),
        ensures
            final(self).wf(),
            final(self).tile() == old(self).tile(),
            final(self)@ == stream(old(self)@, camera_x as int, viewport_width as int, old(self).tile()),
            extents(r.spawned@) == spawned(
                old(self)@,
                camera_x as int,
                viewport_width as int,
                old(self).tile(),
            ),
            opt_extent(r.despawned) == despawned(old(self)@, camera_x as int, viewport_width as int),
    {
        let ghost old_segs = self@;
        let ghost cam = camera_x as int;
        let ghost w = viewport_width as int;
        let tile = self.tile_width;
        proof {
            lemma_stream_keeps_window(old_segs, cam, w, tile as int);
        }
        let mut spawned_segs: Vec<Segment> = Vec::new();
        if self.segments.len() == 0 {
            proof {
                lemma_bootstrap_count_bound(w, tile as int);
            }
            let count: i64 = (2 * viewport_width + tile - 1) / tile;
            let start: i64 = camera_x - viewport_width;
            let ghost win = bootstrap_window(cam, w, tile as int);
            let mut i: i64 = 0;
            while i < count
                invariant
                    0 <= i <= count,
                    count == bootstrap_count(w, tile as int),
                    count * tile <= 2 * w + tile - 1,
                    start == cam - w,
                    0 < tile <= MAX_SPAN,
                    valid_view(cam, w),
                    win == bootstrap_window(cam, w, tile as int),
                    self.tile_width == tile,
                    extents(spawned_segs@) == win.take(i as int),
                    extents(self.segments@) == win.take(i as int),
                decreases count - i,
            {
                assert((i + 1) * tile <= count * tile) by (nonlinear_arith)
                    requires
                        i + 1 <= count,
                        0 < tile,
                ;
                assert(0 <= i * tile && i * tile + tile == (i + 1) * tile) by (nonlinear_arith)
                    requires
                        0 <= i,
                        0 < tile,
                ;
                let left: i64 = start + i * tile;
                let seg = Segment { left_edge_x: left, right_edge_x: left + tile };
                assert(seg@ == win[i as int]) by {
                    assert((i + 1) * tile == i * tile + tile) by (nonlinear_arith);
                }
                proof {
                    lemma_extents_push(spawned_segs@, seg);
                    lemma_extents_push(self.segments@, seg);
                    assert(win.take(i + 1) =~= win.take(i as int).push(win[i as int]));
                }
                spawned_segs.push(seg);
                self.segments.push(seg);
                i = i + 1;
            }
            assert(win.take(count as int) =~= win);
            assert(self@ =~= old_segs + win);
            return StreamStep { spawned: spawned_segs, despawned: None };
        }
        let n = self.segments.len();
        let first = self.segments[0];
        let last = self.segments[n - 1];
        assert(old_segs[0] == first@ && old_segs.last() == last@);
        assert(-EDGE_BOUND <= old_segs[0].0 && old_segs[0].1 <= EDGE_BOUND);
        assert(-EDGE_BOUND <= old_segs[n - 1].0 && old_segs[n - 1].1 <= EDGE_BOUND);
        let spawn = camera_x > last.right_edge_x - viewport_width;
        let despawn = camera_x > first.right_edge_x + viewport_width;
        if spawn {
            let seg = Segment { left_edge_x: last.right_edge_x, right_edge_x: last.right_edge_x + tile };
            proof {
                lemma_extents_push(spawned_segs@, seg);
                lemma_extents_push(self.segments@, seg);
            }
            self.segments.push(seg);
            spawned_segs.push(seg);
            assert(extents(spawned_segs@) =~= seq![seg@]);
        } else {
            assert(extents(spawned_segs@) =~= Seq::<(int, int)>::empty());
        }
        let ghost grown = self@;
        assert(grown =~= old_segs + spawned(old_segs, cam, w, tile as int));
        let despawned_seg = if despawn {
            let s = self.segments.remove(0);
            assert(self@ =~= grown.drop_first());
            Some(s)
        } else {
            None
        };
        StreamStep { spawned: spawned_segs, despawned: despawned_seg }
    }
}

} // verus!
