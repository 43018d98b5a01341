use vstd::prelude::*;

verus! {

/// The errors that can arise when queueing glyphs into the glyph cache.
#[derive(Debug, Clone, Copy, PartialEq, Eq, Structural)]
pub enum TextRenderError {
    /// At least one of the queued glyphs is too big to fit into the cache, even if all other
    /// glyphs are removed.
    GlyphTooLarge,
    /// Not all of the requested glyphs can fit into the cache, even if the cache is completely
    /// cleared before the attempt.
    NoRoomForWholeQueue,
}

/// The `j`-th index (`j < 6`) of the two triangles that cover the `k`-th textured rectangle,
/// whose four corners are the vertices `4k` to `4k + 3`.
pub open spec fn quad_index(k: int, j: int) -> int {
    let s = 4 * k;
    if j == 0 {
        s
    } else if j == 1 {
        s + 1
    } else if j == 2 || j == 3 {
        s + 2
    } else if j == 4 {
        s + 3
    } else {
        s
    }
}

/// Returns the vertex indices of `quads` textured rectangles of four vertices each, two
/// triangles per rectangle: `4k, 4k+1, 4k+2` and `4k+2, 4k+3, 4k` for the `k`-th one.
pub fn quad_indices(quads: u16) -> (r: Vec<u16>)
    requires
        quads <= 16384,
    ensures
        r@.len() == 6 * quads,
        forall|k: int, j: int| 0 <= k < quads && 0 <= j < 6 ==> r@[6 * k + j] == quad_index(k, j),
{
    let mut indices: Vec<u16> = Vec::new();
    let mut quad_counter: u16 = 0;
    while quad_counter < quads
        invariant
            quad_counter <= quads <= 16384,
            indices@.len() == 6 * quad_counter,
            forall|k: int, j: int|
                0 <= k < quad_counter && 0 <= j < 6 ==> indices@[6 * k + j] == quad_index(k, j),
        decreases quads - quad_counter,
    {
        let stride = quad_counter * 4;
        let ghost before = indices@;
        indices.push(stride);
        indices.push(stride + 1);
        indices.push(stride + 2);
        indices.push(stride + 2);
        indices.push(stride + 3);
        indices.push(stride);
        proof {
            let q = quad_counter as int;
            assert(indices@ == before + seq![
                stride,
                (stride + 1) as u16,
                (stride + 2) as u16,
                (stride + 2) as u16,
                (stride + 3) as u16,
                stride,
            ]);
            assert forall|k: int, j: int| 0 <= k < q + 1 && 0 <= j < 6 implies indices@[6 * k + j]
                == quad_index(k, j) by {
                if k < q {
                    assert(6 * k + j < 6 * q) by (nonlinear_arith)
                        requires
                            0 <= k < q,
                            0 <= j < 6,
                    ;
                    assert(indices@[6 * k + j] == before[6 * k + j]);
                } else {
                    assert(indices@[6 * k + j] == indices@[6 * q + j]);
                }
            }
        }
        quad_counter = quad_counter + 1;
    }
    indices
}

} // verus!
