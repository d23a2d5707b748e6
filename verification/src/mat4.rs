//! 4x4 matrices in column-major order.

use vstd::prelude::*;

use crate::single;
use crate::single::Single;

verus! {

/// A column-major matrix of single-precision numbers.
pub type Mat4 = [Single; 16];

/// Ones on the diagonal, zeros elsewhere.
pub open spec fn is_identity(m: Seq<Single>) -> bool {
    &&& m.len() == 16
    &&& forall|i: int|
        0 <= i < 16 ==> (#[trigger] m[i]).bits == if i % 5 == 0 {
            single::ONE_BITS
        } else {
            single::ZERO_BITS
        }
}

/// Element `(row, column)` swapped with `(column, row)`.
pub open spec fn transposed<T>(m: Seq<T>) -> Seq<T> {
    Seq::new(16, |i: int| m[(i % 4) * 4 + i / 4])
}

/// The identity matrix.
pub fn identity() -> (r: Mat4)
    ensures
        is_identity(r@),
{
    let z = Single { bits: single::ZERO_BITS };
    let o = Single { bits: single::ONE_BITS };
    [o, z, z, z, z, o, z, z, z, z, o, z, z, z, z, o]
}

/// A translation: the identity with the offset in the last column.
pub fn translate(x: Single, y: Single, z: Single) -> (r: Mat4)
    ensures
        r@[12] == x,
        r@[13] == y,
        r@[14] == z,
        is_identity(
            r@.update(12, (Single { bits: single::ZERO_BITS })).update(
                13,
                (Single { bits: single::ZERO_BITS }),
            ).update(14, (Single { bits: single::ZERO_BITS })),
        ),
{
    let n = Single { bits: single::ZERO_BITS };
    let o = Single { bits: single::ONE_BITS };
    [o, n, n, n, n, o, n, n, n, n, o, n, x, y, z, o]
}

/// Rows become columns.
pub fn transpose<T: Copy>(m: &[T; 16]) -> (r: [T; 16])
    ensures
        r@ == transposed(m@),
{
    let r = [
        m[0],
        m[4],
        m[8],
        m[12],
        m[1],
        m[5],
        m[9],
        m[13],
        m[2],
        m[6],
        m[10],
        m[14],
        m[3],
        m[7],
        m[11],
        m[15],
    ];
    assert(r@ =~= transposed(m@));
    r
}

/// Transposing twice gives the matrix back.
pub proof fn transpose_is_an_involution<T>(m: Seq<T>)
    requires
        m.len() == 16,
    ensures
        transposed(transposed(m)) == m,
{
    assert(transposed(transposed(m)) =~= m);
}

/// The identity is its own transpose.
pub proof fn identity_is_symmetric(m: Seq<Single>)
    requires
        is_identity(m),
    ensures
        transposed(m) == m,
{
    assert forall|i: int| 0 <= i < 16 implies transposed(m)[i] == m[i] by {
        let j = (i % 4) * 4 + i / 4;
        assert(m[j].bits == if j % 5 == 0 {
            single::ONE_BITS
        } else {
            single::ZERO_BITS
        });
        assert(m[i].bits == if i % 5 == 0 {
            single::ONE_BITS
        } else {
            single::ZERO_BITS
        });
    }
    assert(transposed(m) =~= m);
}

} // verus!
