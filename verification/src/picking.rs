//! What the picking shader reports.

use vstd::prelude::*;
use crate::byte_cast::{read_words, word32, words32, ByteOrder};

verus! {

/// The number of bytes of a report.
pub const PICKING_DATA_SIZE: usize = 96;

/// A report of the picking shader. Floating point numbers are kept as their bit patterns.
pub struct PickingRecord {
    /// The position of the cursor.
    pub cursor_coords: [u32; 2],
    /// The depth under the cursor.
    pub depth: u32,
    pub stencil: u32,
    /// The columns of the matrix from clip space to world space.
    pub world_from_clip: [u32; 16],
    /// The cell of the view, each number in two's complement.
    pub cell: [u32; 3],
}

impl PickingRecord {
    /// The words of the report, in the order in which the shader writes them.
    pub open spec fn words(self) -> Seq<u32> {
        self.cursor_coords@ + seq![self.depth, self.stencil] + self.world_from_clip@ + self.cell@
    }

    /// Whether this is the report that `data` begins with. A last word is left out: it only fills up
    /// the report.
    pub open spec fn is_read_from(self, data: Seq<u8>, order: ByteOrder) -> bool {
        self.words() == words32(data.take(PICKING_DATA_SIZE as int), order).take(23)
    }

    /// Whether the terrain is under the cursor: the depth, as a number, is greater than zero.
    pub open spec fn is_hit(self) -> bool {
        0 < self.depth <= 0x7f80_0000
    }

    /// Whether the terrain is under the cursor. The depth is zero where nothing was drawn.
    pub fn hits_terrain(&self) -> (hit: bool)
        ensures
            hit == self.is_hit(),
    {
        0 < self.depth && self.depth <= 0x7f80_0000
    }
}

/// The fields of a report stand one after the other in its bytes, four bytes each: the position of the
/// cursor, the depth, the stencil, the matrix column by column, and the cell.
pub proof fn reports_are_read_field_by_field(record: PickingRecord, data: Seq<u8>, order: ByteOrder)
    requires
        data.len() >= 96,
        record.is_read_from(data, order),
    ensures
        forall|k: int|
            0 <= k < 2 ==> #[trigger] record.cursor_coords@[k] == word32(
                data[4 * k],
                data[4 * k + 1],
                data[4 * k + 2],
                data[4 * k + 3],
                order,
            ),
        record.depth == word32(data[8], data[9], data[10], data[11], order),
        record.stencil == word32(data[12], data[13], data[14], data[15], order),
        forall|k: int|
            0 <= k < 16 ==> #[trigger] record.world_from_clip@[k] == word32(
                data[16 + 4 * k],
                data[17 + 4 * k],
                data[18 + 4 * k],
                data[19 + 4 * k],
                order,
            ),
        forall|k: int|
            0 <= k < 3 ==> #[trigger] record.cell@[k] == word32(
                data[80 + 4 * k],
                data[81 + 4 * k],
                data[82 + 4 * k],
                data[83 + 4 * k],
                order,
            ),
{
    let words = record.words();
    let head = words32(data.take(96), order).take(23);
    assert(words == head);
    assert forall|k: int| 0 <= k < 2 implies #[trigger] record.cursor_coords@[k] == head[k] by {
        assert(words[k] == record.cursor_coords@[k]);
    }
    assert(words[2] == record.depth);
    assert(words[3] == record.stencil);
    assert forall|k: int| 0 <= k < 16 implies #[trigger] record.world_from_clip@[k] == head[4
        + k] by {
        assert(words[4 + k] == record.world_from_clip@[k]);
    }
    assert forall|k: int| 0 <= k < 3 implies #[trigger] record.cell@[k] == head[20 + k] by {
        assert(words[20 + k] == record.cell@[k]);
    }
}

/// The terrain is under the cursor where the depth, as a single precision number, is positive: its
/// sign bit is clear, it is not zero, and it is not one of the bit patterns that are not a number.
pub proof fn hits_have_a_positive_depth(record: PickingRecord)
    ensures
        record.is_hit() <==> record.depth & 0x8000_0000 == 0 && record.depth != 0 && !(record.depth
            & 0x7f80_0000 == 0x7f80_0000 && record.depth & 0x007f_ffff != 0),
{
    let depth = record.depth;
    assert((0 < depth && depth <= 0x7f80_0000) <==> (depth & 0x8000_0000 == 0 && depth != 0 && !(
    depth & 0x7f80_0000 == 0x7f80_0000 && depth & 0x007f_ffff != 0))) by (bit_vector);
}

/// Reads the report that `data` begins with.
pub fn picking_readback(data: &[u8]) -> (record: PickingRecord)
    requires
        data@.len() >= PICKING_DATA_SIZE,
    ensures
        record.is_read_from(data@, ByteOrder::Little) || record.is_read_from(
            data@,
            ByteOrder::Big,
        ),
{
    let head = vstd::slice::slice_subrange(data, 0, PICKING_DATA_SIZE);
    let words = read_words(head);
    let record = PickingRecord {
        cursor_coords: [words[0], words[1]],
        depth: words[2],
        stencil: words[3],
        world_from_clip: [
            words[4],
            words[5],
            words[6],
            words[7],
            words[8],
            words[9],
            words[10],
            words[11],
            words[12],
            words[13],
            words[14],
            words[15],
            words[16],
            words[17],
            words[18],
            words[19],
        ],
        cell: [words[20], words[21], words[22]],
    };
    assert(head@ =~= data@.take(PICKING_DATA_SIZE as int));
    assert(record.words() =~= words@.take(23));
    record
}

} // verus!
