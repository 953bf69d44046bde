//! Where the windows of a tile tree lie.
//!
//! The first level of detail covers a face with one tile, and every further level doubles the number
//! of tiles in each direction. The window of a level is centered under the viewer, as far as the face
//! allows it.

use vstd::prelude::*;
use vstd::arithmetic::power2::{
    lemma2_to64, lemma_pow2_adds, lemma_pow2_pos, lemma_pow2_strictly_increases, pow2,
};
use crate::demand::wraps_evenly;

verus! {

/// The integer that is stored for a position which may be out of range.
pub open spec fn saturated(position: int) -> i32 {
    if position < i32::MIN {
        i32::MIN
    } else if position > i32::MAX {
        i32::MAX
    } else {
        position as i32
    }
}

/// The first column or row of a window: that of the centered window, moved onto the face. A window
/// that is wider than the face ends where the face ends.
pub open spec fn origin_of(centered: int, lod: nat, size: nat) -> i32 {
    let first = if centered < 0 {
        0
    } else {
        centered
    };
    let last = pow2(lod) - size;
    saturated(
        if first > last {
            last
        } else {
            first
        },
    )
}

/// The first column or row of the window of a level of detail, given that of the window that is
/// centered under the viewer.
pub fn window_origin(centered: i64, lod: u32, tree_size: u32) -> (origin: i32)
    ensures
        origin == origin_of(centered as int, lod as nat, tree_size as nat),
{
    let first: i64 = if centered < 0 {
        0
    } else {
        centered
    };
    if lod > 32 {
        proof {
            lemma2_to64();
            lemma_pow2_adds(32, 1);
            if lod > 33 {
                lemma_pow2_strictly_increases(33, lod as nat);
            }
        }
        return if first > i32::MAX as i64 {
            i32::MAX
        } else {
            first as i32
        };
    }
    let mut tiles: i64 = 1;
    let mut level: u32 = 0;
    proof {
        lemma2_to64();
    }
    while level < lod
        invariant
            level <= lod <= 32,
            tiles == pow2(level as nat),
            1 <= tiles <= 0x1_0000_0000,
        decreases lod - level,
    {
        proof {
            lemma2_to64();
            lemma_pow2_adds(level as nat, 1);
            if level + 1 < 32 {
                lemma_pow2_strictly_increases((level + 1) as nat, 32);
            }
        }
        tiles *= 2;
        level += 1;
    }
    let last: i64 = tiles - tree_size as i64;
    let origin: i64 = if first > last {
        last
    } else {
        first
    };
    if origin < i32::MIN as i64 {
        i32::MIN
    } else if origin > i32::MAX as i64 {
        i32::MAX
    } else {
        origin as i32
    }
}

/// The window of a level of detail whose tiles have 32 bit positions never leaves a face that is wide
/// enough for it.
pub proof fn windows_stay_on_the_face(centered: int, lod: nat, size: nat)
    requires
        lod <= 31,
        size <= pow2(lod),
    ensures
        0 <= origin_of(centered, lod, size),
        origin_of(centered, lod, size) + size <= pow2(lod),
{
    positions_fit(lod);
}

/// A window that is wider than the face contains all of it.
pub proof fn wide_windows_contain_the_face(centered: int, lod: nat, size: nat)
    requires
        lod <= 31,
        pow2(lod) <= size <= i32::MAX,
    ensures
        origin_of(centered, lod, size) <= 0,
        origin_of(centered, lod, size) + size == pow2(lod),
{
    positions_fit(lod);
    lemma_pow2_pos(lod);
}

/// The window is centered under the viewer, unless it would leave the face.
pub proof fn windows_are_centered(centered: int, lod: nat, size: nat)
    requires
        lod <= 31,
        0 < size,
        0 <= centered,
        centered + size <= pow2(lod),
    ensures
        origin_of(centered, lod, size) == centered,
{
    positions_fit(lod);
}

/// The tiles of a window have different places in a tile tree: if the face is wide enough, or if the
/// size of the tree is a power of two.
pub proof fn windows_wrap_evenly(centered: int, lod: nat, size: nat)
    requires
        0 < size,
        size <= pow2(lod) || exists|exponent: nat| exponent <= 32 && size == #[trigger] pow2(exponent),
    ensures
        wraps_evenly(origin_of(centered, lod, size), size),
{
    if size > pow2(lod) {
        let exponent = choose|exponent: nat| exponent <= 32 && size == #[trigger] pow2(exponent);
        words_wrap_evenly(exponent);
    }
}

/// The positions of the tiles of a face fit into 32 bits, up to the given level.
proof fn positions_fit(lod: nat)
    requires
        lod <= 31,
    ensures
        pow2(lod) <= i32::MAX + 1,
{
    lemma2_to64();
    if lod < 31 {
        lemma_pow2_strictly_increases(lod, 31);
    }
}

/// The range of a machine word is a multiple of every power of two up to 32 bits.
proof fn words_wrap_evenly(exponent: nat)
    requires
        exponent <= 32,
    ensures
        (usize::MAX + 1) % pow2(exponent) as int == 0,
{
    lemma2_to64();
    lemma_pow2_pos(exponent);
    let bits: nat = if usize::MAX == 0xffff_ffff {
        32
    } else {
        64
    };
    assert(usize::MAX + 1 == pow2(bits));
    lemma_pow2_adds(exponent, (bits - exponent) as nat);
    assert(usize::MAX + 1 == pow2((bits - exponent) as nat) * pow2(exponent)) by (nonlinear_arith)
        requires
            usize::MAX + 1 == pow2(exponent) * pow2((bits - exponent) as nat),
    ;
    vstd::arithmetic::div_mod::lemma_mod_multiples_basic(
        pow2((bits - exponent) as nat) as int,
        pow2(exponent) as int,
    );
}

/// A window is moved no further than it takes to bring it onto the face: no other position of the
/// window on the face is nearer to the centered one.
pub proof fn windows_move_least(centered: int, lod: nat, size: nat, other: int)
    requires
        lod <= 31,
        0 < size <= pow2(lod),
        0 <= other,
        other + size <= pow2(lod),
    ensures
        ({
            let origin = origin_of(centered, lod, size) as int;
            let moved = if origin >= centered {
                origin - centered
            } else {
                centered - origin
            };
            moved <= if other >= centered {
                other - centered
            } else {
                centered - other
            }
        }),
{
    positions_fit(lod);
}

/// On every level of detail, however fine, a window that fits onto the face is where it is centered, or
/// else at the side of the face beyond which it would lie. Positions beyond those that can be stored
/// are kept as the last one that can.
pub proof fn windows_end_at_the_face(centered: int, lod: nat, size: nat)
    requires
        0 < size <= pow2(lod),
    ensures
        ({
            let origin = origin_of(centered, lod, size);
            &&& centered <= 0 ==> origin == 0
            &&& 0 <= centered <= i32::MAX && centered + size <= pow2(lod) ==> origin == centered
            &&& centered >= i32::MAX && i32::MAX + size <= pow2(lod) ==> origin == i32::MAX
            &&& centered >= 0 && centered + size >= pow2(lod) && pow2(lod) - size <= i32::MAX
                ==> origin + size == pow2(lod)
        }),
{
}

/// A window that is wider than the face ends where the face ends, wherever it is centered, or begins at
/// the first position that can be stored.
pub proof fn wide_windows_end_at_the_face(centered: int, lod: nat, size: nat)
    requires
        size > pow2(lod),
    ensures
        ({
            let origin = origin_of(centered, lod, size);
            if pow2(lod) - size >= i32::MIN {
                origin + size == pow2(lod)
            } else {
                origin == i32::MIN
            }
        }),
{
}

} // verus!
