//! Triangle list of the hill tile. The tile's vertices come in pairs, one
//! pair per step along the tile: vertex `2 * i` on the base line and vertex
//! `2 * i + 1` on the hill's crest above it. Each strip between two pairs is
//! drawn as two triangles.
use vstd::prelude::*;

verus! {

/// Number of strips in the hill tile.
pub const HILL_STEPS: u32 = 75;

/// Largest number of strips that a triangle list can be built for.
pub const MAX_STEPS: u32 = 100000000;

/// Vertex index of corner `c` (0 to 5) of the two triangles of strip `i`:
/// first the triangle (base `i`, crest `i + 1`, crest `i`), then the triangle
/// (base `i`, base `i + 1`, crest `i + 1`).
pub open spec fn strip_corner(i: int, c: int) -> int {
    if c == 0 || c == 3 {
        2 * i
    } else if c == 1 || c == 5 {
        2 * i + 3
    } else if c == 2 {
        2 * i + 1
    } else {
        2 * i + 2
    }
}

/// Number of vertices of a tile of `steps` strips.
pub open spec fn vertex_count(steps: int) -> int {
    2 * (steps + 1)
}

/// Number of vertices of a hill tile of `steps` strips.
pub fn hill_vertex_count(steps: u32) -> (r: u32)
    requires
        steps <= MAX_STEPS,
    ensures
        r == vertex_count(steps as int),
{
    2 * (steps + 1)
}

fn push_strip(v: &mut Vec<u32>, i: u32)
    requires
        i < MAX_STEPS,
    ensures
        final(v)@.len() == old(v)@.len() + 6,
        forall|j: int| 0 <= j < old(v)@.len() ==> #[trigger] final(v)@[j] == old(v)@[j],
        forall|c: int|
            0 <= c < 6 ==> #[trigger] final(v)@[old(v)@.len() + c] as int == strip_corner(i as int, c),
{
    let x: u32 = 2 * i;
    v.push(x);
    v.push(x + 3);
    v.push(x + 1);
    v.push(x);
    v.push(x + 2);
    v.push(x + 3);
}

/// The triangle list of a hill tile of `steps` strips: six indices per strip,
/// strip by strip from left to right, each naming a vertex of the tile.
pub fn hill_mesh_indices(steps: u32) -> (r: Vec<u32>)
    requires
        steps <= MAX_STEPS,
    ensures
        r@.len() == 6 * steps,
        forall|j: int| 0 <= j < r@.len() ==> #[trigger] r@[j] as int == strip_corner(j / 6, j % 6),
        forall|j: int| 0 <= j < r@.len() ==> #[trigger] r@[j] < vertex_count(steps as int),
{
    let mut r: Vec<u32> = Vec::new();
    let mut i: u32 = 0;
    while i < steps
        invariant
            i <= steps <= MAX_STEPS,
            r@.len() == 6 * i,
            forall|j: int| 0 <= j < r@.len() ==> #[trigger] r@[j] as int == strip_corner(j / 6, j % 6),
        decreases steps - i,
    {
        let ghost before = r@;
        push_strip(&mut r, i);
        assert forall|j: int| 0 <= j < r@.len() implies #[trigger] r@[j] as int == strip_corner(
            j / 6,
            j % 6,
        ) by {
            if j >= 6 * i {
                let c = j - 6 * i;
                assert(r@[before.len() + c] as int == strip_corner(i as int, c));
                vstd::arithmetic::div_mod::lemma_fundamental_div_mod_converse(j, 6, i as int, c);
            } else {
                assert(r@[j] == before[j]);
            }
        }
        i = i + 1;
    }
    assert forall|j: int| 0 <= j < r@.len() implies #[trigger] r@[j] < vertex_count(steps as int) by {
        assert(r@[j] as int == strip_corner(j / 6, j % 6));
        vstd::arithmetic::div_mod::lemma_fundamental_div_mod(j, 6);
        vstd::arithmetic::div_mod::lemma_mod_pos_bound(j, 6);
        assert(j / 6 < steps) by (nonlinear_arith)
            requires
                j == 6 * (j / 6) + j % 6,
                0 <= j % 6,
                j < 6 * steps,
        ;
    }
    r
}

} // verus!
