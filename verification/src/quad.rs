//! The quad that every frame draws: a square over the whole clip space, held
//! on the device as a vertex buffer.

use vstd::prelude::*;
use crate::scalar::Scalar;
use crate::scalar::MINUS_ONE_BITS;
use crate::scalar::ONE_BITS;

verus! {

/// How many coordinates make one vertex, and one element position.
pub const COMPONENTS_PER_VERTEX: i32 = 2;

/// How many vertices the quad has.
pub const QUAD_VERTEX_COUNT: i32 = 4;

/// The corners of the square that covers the whole clip space, as (x, y) pairs
/// in the order of a triangle strip: (-1,-1), (-1,1), (1,-1), (1,1).
pub open spec fn quad_corners() -> Seq<Scalar> {
    seq![
        Scalar { bits: MINUS_ONE_BITS },
        Scalar { bits: MINUS_ONE_BITS },
        Scalar { bits: MINUS_ONE_BITS },
        Scalar { bits: ONE_BITS },
        Scalar { bits: ONE_BITS },
        Scalar { bits: MINUS_ONE_BITS },
        Scalar { bits: ONE_BITS },
        Scalar { bits: ONE_BITS },
    ]
}

/// The coordinates of the quad's corners.
pub fn quad_vertices() -> (corners: Vec<Scalar>)
    ensures
        corners@ == quad_corners(),
{
    let low = Scalar::from_bits(MINUS_ONE_BITS);
    let high = Scalar::from_bits(ONE_BITS);
    let mut corners: Vec<Scalar> = Vec::new();
    corners.push(low);
    corners.push(low);
    corners.push(low);
    corners.push(high);
    corners.push(high);
    corners.push(low);
    corners.push(high);
    corners.push(high);
    assert(corners@ =~= quad_corners());
    corners
}

/// The bytes of a sequence of scalars as a vertex buffer holds them: four per
/// scalar, least significant first, in the order of the scalars.
pub open spec fn packed(values: Seq<Scalar>) -> Seq<u8> {
    Seq::new(4 * values.len(), |k: int| Scalar::le_byte_of(values[k / 4].bits, k % 4))
}

/// Encodes scalars for upload into a vertex buffer.
pub fn pack(values: &Vec<Scalar>) -> (bytes: Vec<u8>)
    ensures
        bytes@ == packed(values@),
{
    let mut bytes: Vec<u8> = Vec::new();
    let mut i: usize = 0;
    while i < values.len()
        invariant
            i <= values.len(),
            bytes@ == packed(values@.subrange(0, i as int)),
        decreases values.len() - i,
    {
        let ghost before = bytes@;
        values[i].push_le_bytes(&mut bytes);
        proof {
            let head = values@.subrange(0, i as int);
            let next = values@.subrange(0, i + 1);
            assert(bytes@ == before + values@[i as int].le_bytes());
            assert(bytes@ =~= packed(next)) by {
                assert(bytes@.len() == 4 * (i + 1));
                assert forall|k: int| 0 <= k < 4 * (i + 1) implies bytes@[k] == packed(next)[k] by {
                    if k < 4 * i {
                        assert(next[k / 4] == head[k / 4]);
                        assert(bytes@[k] == before[k]);
                    } else {
                        assert(k / 4 == i);
                        assert(bytes@[k] == values@[i as int].le_bytes()[k - 4 * i]);
                    }
                }
            }
        }
        i = i + 1;
    }
    assert(values@.subrange(0, i as int) =~= values@);
    bytes
}

/// The quad's coordinates are those of four vertices, and fill 32 bytes.
pub proof fn lemma_quad_size()
    ensures
        quad_corners().len() == QUAD_VERTEX_COUNT * COMPONENTS_PER_VERTEX,
        packed(quad_corners()).len() == 32,
{
}

} // verus!
