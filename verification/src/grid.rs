//! The symmetric grid: the first `size / 2` bits of each conceptual bit row
//! are copied into the row and mirrored onto its far end, so every row of the
//! resulting `size`-by-`size` map is horizontally symmetric. The middle column
//! of an odd-sized grid is never written and stays empty.

use vstd::prelude::*;
use vstd::arithmetic::div_mod::lemma_fundamental_div_mod_converse;
use vstd::arithmetic::mul::lemma_mul_inequality;

use crate::errors::IdenticonError;

verus! {

/// The value of the grid cell at row `r`, column `c`: a copied bit on the
/// left half, its mirror on the right half, and zero in the middle column of
/// an odd-sized grid.
pub open spec fn grid_cell(bits: Seq<u16>, size: int, r: int, c: int) -> u16 {
    if c < size / 2 {
        bits[r * size + c]
    } else if size - size / 2 <= c {
        bits[r * size + (size - 1 - c)]
    } else {
        0
    }
}

/// The whole grid in row-major order: entry `i` sits at row `i / size`,
/// column `i % size`.
pub open spec fn grid_map(bits: Seq<u16>, size: int) -> Seq<u16> {
    Seq::new((size * size) as nat, |i: int| grid_cell(bits, size, i / size, i % size))
}

/// How many leading entries of the bit sequence the fill loop reads: nothing
/// for a grid without a left half, else one past the highest index read,
/// which is `(size - 1) * size + size / 2 - 1`.
pub open spec fn bits_needed(size: int) -> int {
    if size / 2 == 0 {
        0
    } else {
        (size - 1) * size + size / 2
    }
}

/// Every produced grid is horizontally symmetric: in each row, the cell in
/// column `c` of the left half equals the cell mirrored into column
/// `size - 1 - c`.
pub proof fn lemma_grid_symmetry(bits: Seq<u16>, size: int, r: int, c: int)
    requires
        0 < size,
        0 <= r < size,
        0 <= c < size / 2,
    ensures
        grid_map(bits, size)[r * size + c] == grid_map(bits, size)[r * size + (size - 1 - c)],
{
    let i1 = r * size + c;
    let i2 = r * size + (size - 1 - c);
    assert(r * size + size == (r + 1) * size) by (nonlinear_arith);
    assert((r + 1) * size <= size * size) by (nonlinear_arith)
        requires
            0 <= r < size,
    ;
    lemma_fundamental_div_mod_converse(i1, size, r, c);
    lemma_fundamental_div_mod_converse(i2, size, r, size - 1 - c);
    assert(grid_map(bits, size)[i1] == grid_cell(bits, size, r, c));
    assert(grid_map(bits, size)[i2] == grid_cell(bits, size, r, size - 1 - c));
    assert(size - size / 2 <= size - 1 - c);
    assert(grid_cell(bits, size, r, size - 1 - c) == bits[r * size + c]);
}

/// Folds the bit sequence into the row-major symmetric map. Rejects the bit
/// sequence exactly when it is shorter than what the fill loop reads for the
/// requested side length.
pub fn build_grid(bits: &Vec<u16>, size: u16) -> (r: Result<Vec<u16>, IdenticonError>)
    ensures
        match r {
            Ok(map) => bits@.len() >= bits_needed(size as int) && map@ == grid_map(
                bits@,
                size as int,
            ),
            Err(e) => e == IdenticonError::InsufficientBitData && bits@.len() < bits_needed(
                size as int,
            ),
        },
{
    let size_us = size as usize;
    proof {
        assert(size_us * size_us <= 0xffff_0001 && (size_us >= 1 ==> (size_us - 1) * size_us
            + size_us / 2 <= 0xffff_0001)) by (nonlinear_arith)
            requires
                0 <= size_us && size_us <= 0xffff,
        ;
    }
    let needed: usize = if size_us / 2 == 0 {
        0
    } else {
        (size_us - 1) * size_us + size_us / 2
    };
    assert(needed == bits_needed(size as int)) by (nonlinear_arith)
        requires
            size_us == size as int,
            needed == if size_us / 2 == 0 {
                0int
            } else {
                (size_us - 1) * size_us + size_us / 2
            },
    ;
    if bits.len() < needed {
        return Err(IdenticonError::InsufficientBitData);
    }
    let total = size_us * size_us;
    let mut map: Vec<u16> = Vec::new();
    let mut z: usize = 0;
    while z < total
        invariant
            z <= total,
            map@.len() == z,
            forall|j: int| 0 <= j < z ==> map@[j] == 0,
        decreases total - z,
    {
        map.push(0);
        z += 1;
    }
    let s = Ghost(size as int);
    proof {
        assert(total == s@ * s@) by (nonlinear_arith)
            requires
                size_us == s@,
                total == size_us * size_us,
        ;
    }
    let mut i: usize = 0;
    while i < size_us
        invariant
            size_us == s@,
            total == s@ * s@,
            bits@.len() >= bits_needed(s@),
            map@.len() == total,
            i <= size_us,
            forall|j: int|
                0 <= j < total ==> map@[j] == (if j < i * s@ {
                    grid_map(bits@, s@)[j]
                } else {
                    0u16
                }),
        decreases size_us - i,
    {
        let mut c: usize = 0;
        proof {
            assert(i * s@ + s@ == (i + 1) * s@) by (nonlinear_arith);
            assert forall|j: int| 0 <= j < total implies map@[j] == (if j < i * s@ {
                grid_map(bits@, s@)[j]
            } else if i * s@ <= j < (i + 1) * s@ && (j - i * s@ < 0 || s@ - 1 - (j - i * s@)
                < 0) {
                grid_map(bits@, s@)[j]
            } else {
                0u16
            }) by {}
        }
        while c < size_us / 2
            invariant
                size_us == s@,
                total == s@ * s@,
                bits@.len() >= bits_needed(s@),
                map@.len() == total,
                i < size_us,
                c <= size_us / 2,
                forall|j: int|
                    0 <= j < total ==> map@[j] == (if j < i * s@ {
                        grid_map(bits@, s@)[j]
                    } else if i * s@ <= j < (i + 1) * s@ && (j - i * s@ < c || s@ - 1 - (j - i
                        * s@) < c) {
                        grid_map(bits@, s@)[j]
                    } else {
                        0u16
                    }),
            decreases size_us / 2 - c,
        {
            proof {
                assert(i * s@ + s@ == (i + 1) * s@) by (nonlinear_arith);
                assert((i + 1) * s@ <= s@ * s@) by (nonlinear_arith)
                    requires
                        0 <= i as int && (i as int) < s@,
                ;
                lemma_mul_inequality(i as int, s@ - 1, s@);
                assert(i * s@ + c < bits_needed(s@));
            }
            let lo = i * size_us + c;
            let hi = (i + 1) * size_us - (c + 1);
            let b = bits[lo];
            map.set(lo, b);
            map.set(hi, b);
            proof {
                let sz = s@;
                lemma_fundamental_div_mod_converse(lo as int, sz, i as int, c as int);
                lemma_fundamental_div_mod_converse(hi as int, sz, i as int, sz - 1 - c);
                assert(grid_cell(bits@, sz, i as int, c as int) == b);
                assert(sz - sz / 2 <= sz - 1 - c);
                assert(grid_cell(bits@, sz, i as int, sz - 1 - c) == bits@[i * sz + (sz - 1 - (sz
                    - 1 - c))]);
                assert(grid_map(bits@, sz)[lo as int] == b);
                assert(grid_map(bits@, sz)[hi as int] == b);
            }
            c += 1;
        }
        proof {
            let sz = s@;
            assert forall|j: int|
                0 <= j < total implies map@[j] == (if j < (i + 1) * sz {
                grid_map(bits@, sz)[j]
            } else {
                0u16
            }) by {
                assert(i * sz + sz == (i + 1) * sz) by (nonlinear_arith);
                if i * sz <= j < (i + 1) * sz {
                    let cc = j - i * sz;
                    lemma_fundamental_div_mod_converse(j, sz, i as int, cc);
                    if !(cc < sz / 2 || sz - 1 - cc < sz / 2) {
                        assert(grid_cell(bits@, sz, i as int, cc) == 0);
                    }
                }
            }
        }
        i += 1;
    }
    proof {
        assert(i * s@ == s@ * s@) by (nonlinear_arith)
            requires
                i as int == s@,
        ;
        assert(map@ =~= grid_map(bits@, s@));
    }
    Ok(map)
}

} // verus!
