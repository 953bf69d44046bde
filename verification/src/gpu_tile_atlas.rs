//! The textures of a tile atlas.
//!
//! Every attachment is an array texture with one layer per slot of the atlas. Once per frame the
//! attachments that the atlas has staged are written to their layers, and the mip levels of those
//! layers are generated anew.

use vstd::prelude::*;
use bevy::platform::collections::HashMap;
use crate::attachment::{
    pixels_keep_their_bytes, AttachmentData, AttachmentFormat, AttachmentLabel,
    AttachmentTileWithData, LabelView,
};
use crate::byte_cast::ByteOrder;
use crate::collections::{
    get_gpu_attachment, gpu_attachment_map, insert_gpu_attachment, key_labels,
    keys_of_gpu_attachments, new_gpu_attachment_map, remove_gpu_attachment, LabelKey,
};
use crate::tile_atlas::{AtlasView, TileAtlas};

verus! {

/// The layout of an attachment in GPU memory.
#[derive(Clone, Copy, Debug, PartialEq, Eq, Structural)]
pub struct AttachmentBufferInfo {
    /// The number of rows, and of pixels per row.
    pub texture_size: u32,
    pub mip_level_count: u32,
    /// The bytes of a row.
    pub actual_side_size: u32,
    /// The bytes of a row with the padding that copies from a texture need.
    pub aligned_side_size: u32,
    /// The bytes of a tile.
    pub actual_tile_size: u32,
    pub format: AttachmentFormat,
}

/// What happens to an attachment when mip levels are generated.
#[derive(Clone, Copy, Debug, PartialEq, Eq, Structural)]
pub enum MipStep {
    /// The attachment has no mip levels, or none that are queued.
    Skip,
    /// The pipeline is not there yet: neither this attachment nor those that follow are processed.
    Stop,
    /// The given number of work groups is started along each side, for every layer.
    Dispatch(u32),
}

impl AttachmentBufferInfo {
    /// Whether the attachment has mip levels to generate.
    pub open spec fn has_mips(self) -> bool {
        self.mip_level_count > 1
    }

    /// Whether the attachment has mip levels to generate. Only then a pipeline is needed.
    pub fn needs_mips(&self) -> (needed: bool)
        ensures
            needed == self.has_mips(),
    {
        self.mip_level_count > 1
    }

    /// The next step of the mip generation.
    pub open spec fn next_step(self, pipeline_ready: bool, queued: bool) -> MipStep {
        if !self.has_mips() {
            MipStep::Skip
        } else if !pipeline_ready {
            MipStep::Stop
        } else if !queued {
            MipStep::Skip
        } else {
            MipStep::Dispatch((self.texture_size / 8) as u32)
        }
    }

    /// The next step of the mip generation for this attachment, given whether its pipeline is there
    /// and whether layers are queued. A layer is processed in groups of eight by eight pixels, so its
    /// size has to be a multiple of eight.
    pub fn mip_step(&self, pipeline_ready: bool, queued: bool) -> (step: MipStep)
        requires
            self.has_mips() && pipeline_ready && queued ==> self.texture_size % 8 == 0,
        ensures
            step == self.next_step(pipeline_ready, queued),
            step == if !self.has_mips() {
                MipStep::Skip
            } else if !pipeline_ready {
                MipStep::Stop
            } else if !queued {
                MipStep::Skip
            } else {
                MipStep::Dispatch((self.texture_size / 8) as u32)
            },
    {
        if !self.needs_mips() {
            MipStep::Skip
        } else if !pipeline_ready {
            MipStep::Stop
        } else if !queued {
            MipStep::Skip
        } else {
            MipStep::Dispatch(self.texture_size / 8)
        }
    }

    /// Whether the rows of downloaded data can be moved together. A single row stays where it is.
    pub open spec fn can_compact(self, length: nat) -> bool {
        length != self.actual_tile_size && self.texture_size > 1 ==> {
            &&& self.actual_side_size <= self.aligned_side_size
            &&& self.texture_size * self.aligned_side_size <= length
        }
    }

    /// The byte of padded data that comes to the given position when the rows are moved together.
    pub open spec fn compacted_byte(self, data: Seq<u8>, position: int) -> u8 {
        let last = self.texture_size - 1;
        if self.texture_size <= 1 || position >= last * self.actual_side_size
            + self.aligned_side_size {
            data[position]
        } else {
            let row = if self.actual_side_size == 0 || position / self.actual_side_size as int
                >= last {
                last
            } else {
                position / self.actual_side_size as int
            };
            data[row * self.aligned_side_size + (position - row * self.actual_side_size)]
        }
    }

    /// Downloaded data without the padding of its rows.
    pub open spec fn compacted(self, data: Seq<u8>) -> Seq<u8> {
        if data.len() == self.actual_tile_size {
            data
        } else {
            Seq::new(
                if self.actual_tile_size < data.len() {
                    self.actual_tile_size as nat
                } else {
                    data.len()
                },
                |position: int| self.compacted_byte(data, position),
            )
        }
    }
}

/// The mip levels of an attachment are generated exactly if it has any, layers are queued and the
/// pipeline is there; the groups of eight by eight pixels then cover a layer without rest. A missing
/// pipeline stops the generation only where an attachment has mip levels.
pub proof fn mips_are_generated_where_possible(
    info: AttachmentBufferInfo,
    pipeline_ready: bool,
    queued: bool,
)
    requires
        info.texture_size % 8 == 0,
    ensures
        info.next_step(pipeline_ready, queued) is Dispatch <==> info.mip_level_count >= 2
            && pipeline_ready && queued,
        info.next_step(pipeline_ready, queued) is Stop <==> info.mip_level_count >= 2
            && !pipeline_ready,
        info.next_step(pipeline_ready, queued) is Dispatch ==> 8 * info.next_step(
            pipeline_ready,
            queued,
        )->Dispatch_0 == info.texture_size,
{
}

/// The bytes after the first `rows` rows have been moved together.
spec fn moved(info: AttachmentBufferInfo, data: Seq<u8>, rows: int, position: int) -> u8 {
    info_with_rows(info, rows).compacted_byte(data, position)
}

/// The same layout with another number of rows.
spec fn info_with_rows(info: AttachmentBufferInfo, rows: int) -> AttachmentBufferInfo {
    AttachmentBufferInfo { texture_size: rows as u32, ..info }
}

/// Moving one more row only changes the bytes that it covers, and reads bytes that have not been
/// moved yet.
proof fn row_step(info: AttachmentBufferInfo, data: Seq<u8>, rows: int, position: int)
    requires
        1 <= rows < info.texture_size,
        info.actual_side_size <= info.aligned_side_size,
        0 <= position,
    ensures
        ({
            let place = rows * info.actual_side_size;
            let take = rows * info.aligned_side_size;
            &&& place <= position < place + info.aligned_side_size ==> moved(
                info,
                data,
                rows + 1,
                position,
            ) == data[take + (position - place)]
            &&& position < place ==> moved(info, data, rows + 1, position) == moved(
                info,
                data,
                rows,
                position,
            )
            &&& position >= place + info.aligned_side_size ==> moved(info, data, rows + 1, position)
                == moved(info, data, rows, position)
            &&& position >= take ==> moved(info, data, rows, position) == data[position]
        }),
{
    let side = info.actual_side_size as int;
    let padded = info.aligned_side_size as int;
    let place = rows * side;
    let take = rows * padded;
    assert((rows - 1) * side == place - side) by (nonlinear_arith)
        requires
            place == rows * side,
    ;
    assert((rows - 1) * side + padded <= take) by (nonlinear_arith)
        requires
            take == rows * padded,
            side <= padded,
            rows >= 1,
    ;
    let more = info_with_rows(info, rows + 1);
    let same = info_with_rows(info, rows);
    assert(more.texture_size == rows + 1 && same.texture_size == rows);
    assert(rows * more.actual_side_size == place);
    if side == 0 {
        assert(place == 0) by (nonlinear_arith)
            requires
                place == rows * side,
                side == 0,
        ;
    } else {
        let row = position / side;
        vstd::arithmetic::div_mod::lemma_fundamental_div_mod(position, side);
        vstd::arithmetic::div_mod::lemma_mod_bound(position, side);
        assert(side * row == row * side) by (nonlinear_arith);
        assert(position >= place <==> row >= rows) by (nonlinear_arith)
            requires
                place == rows * side,
                row * side <= position < row * side + side,
                side > 0,
        ;
        assert(position >= place - side <==> row >= rows - 1) by (nonlinear_arith)
            requires
                place == rows * side,
                row * side <= position < row * side + side,
                side > 0,
        ;
        if place <= position < place + padded {
            assert(moved(info, data, rows + 1, position) == data[take + (position - place)]);
        }
        if position < place {
            assert(row <= rows - 1);
            if rows == 1 {
                assert(row == 0);
            }
            assert(moved(info, data, rows + 1, position) == data[row * padded + (position - row
                * side)]);
            if row == rows - 1 {
                assert(row * padded == (rows - 1) * padded);
            }
            assert(moved(info, data, rows, position) == data[row * padded + (position - row * side)]);
        }
    }
}

/// Moves the rows of downloaded data together, if they are padded.
pub fn compact_rows(data: Vec<u8>, info: &AttachmentBufferInfo) -> (compact: Vec<u8>)
    requires
        info.can_compact(data@.len()),
    ensures
        compact@ == info.compacted(data@),
{
    if data.len() == info.actual_tile_size as usize {
        return data;
    }
    let ghost start = data@;
    let mut data = data;
    let side: usize = info.actual_side_size as usize;
    let padded: usize = info.aligned_side_size as usize;
    let mut row: u32 = 1;
    let mut take: usize = padded;
    let mut place: usize = side;
    assert forall|position: int| 0 <= position < start.len() implies #[trigger] data@[position]
        == moved(*info, start, 1, position) by {}
    while row < info.texture_size
        invariant
            row >= 1,
            info.texture_size >= 1 ==> row <= info.texture_size,
            info.texture_size == 0 ==> row == 1,
            side == info.actual_side_size,
            padded == info.aligned_side_size,
            start.len() <= usize::MAX,
            info.texture_size > 1 ==> side <= padded && info.texture_size * padded <= start.len(),
            row < info.texture_size ==> take == row * padded && place == row * side,
            data@.len() == start.len(),
            forall|position: int|
                0 <= position < start.len() ==> #[trigger] data@[position] == moved(
                    *info,
                    start,
                    row as int,
                    position,
                ),
        decreases info.texture_size - row,
    {
        let ghost before = data@;
        proof {
            assert(row * padded + padded <= start.len()) by (nonlinear_arith)
                requires
                    row < info.texture_size,
                    info.texture_size * padded <= start.len(),
            ;
            assert(row * side <= row * padded) by (nonlinear_arith)
                requires
                    side <= padded,
            ;
        }
        let mut i: usize = 0;
        while i < padded
            invariant
                i <= padded,
                1 <= row < info.texture_size,
                side <= padded,
                side == info.actual_side_size,
                padded == info.aligned_side_size,
                take == row * padded,
                place == row * side,
                place <= take,
                take + padded <= start.len(),
                start.len() <= usize::MAX,
                before.len() == start.len(),
                data@.len() == start.len(),
                forall|position: int|
                    0 <= position < start.len() ==> #[trigger] before[position] == moved(
                        *info,
                        start,
                        row as int,
                        position,
                    ),
                forall|position: int|
                    0 <= position < start.len() ==> #[trigger] data@[position] == if place
                        <= position < place + i {
                        start[take + (position - place)]
                    } else {
                        before[position]
                    },
            decreases padded - i,
        {
            proof {
                row_step(*info, start, row as int, take + i);
            }
            let byte: u8 = data[take + i];
            assert(byte == start[take + i]);
            data.set(place + i, byte);
            i += 1;
        }
        proof {
            assert forall|position: int| 0 <= position < start.len() implies #[trigger]
                data@[position] == moved(*info, start, row + 1, position) by {
                row_step(*info, start, row as int, position);
            }
            assert((row + 1) * padded == take + padded) by (nonlinear_arith)
                requires
                    take == row * padded,
            ;
            assert((row + 1) * side == place + side) by (nonlinear_arith)
                requires
                    place == row * side,
            ;
            if row + 1 < info.texture_size {
                assert((row + 1) * padded + padded <= start.len()) by (nonlinear_arith)
                    requires
                        row + 1 < info.texture_size,
                        info.texture_size * padded <= start.len(),
                ;
            }
        }
        row += 1;
        if row < info.texture_size {
            take += padded;
            place += side;
        }
    }
    if (info.actual_tile_size as usize) < data.len() {
        data.truncate(info.actual_tile_size as usize);
    }
    proof {
        assert forall|position: int| 0 <= position < data@.len() implies #[trigger] data@[position]
            == info.compacted_byte(start, position) by {
            if info.texture_size >= 1 {
                assert(info_with_rows(*info, row as int) == *info);
            }
        }
        assert(data@ =~= info.compacted(start));
    }
    data
}

/// The slots whose mip levels are queued, level by level.
pub open spec fn level_views(levels: Seq<Vec<u32>>) -> Seq<Seq<u32>> {
    levels.map_values(|level: Vec<u32>| level@)
}

/// An attachment of a GPU tile atlas.
pub struct GpuAttachment {
    pub buffer_info: AttachmentBufferInfo,
    /// The slots whose mip levels have to be generated, for every level.
    pub mips_to_generate: Vec<Vec<u32>>,
}

/// What a GPU attachment stands for.
#[verifier::ext_equal]
pub struct GpuAttachmentView {
    pub buffer_info: AttachmentBufferInfo,
    pub mips_to_generate: Seq<Seq<u32>>,
}

impl View for GpuAttachment {
    type V = GpuAttachmentView;

    open spec fn view(&self) -> GpuAttachmentView {
        GpuAttachmentView {
            buffer_info: self.buffer_info,
            mips_to_generate: level_views(self.mips_to_generate@),
        }
    }
}

/// Whether `data` holds the rows of `pixels` with padding behind each of them.
pub open spec fn padded_rows(info: AttachmentBufferInfo, pixels: Seq<u8>, data: Seq<u8>) -> bool {
    &&& data.len() == info.texture_size * info.aligned_side_size
    &&& forall|row: int, offset: int|
        0 <= row < info.texture_size && 0 <= offset < info.actual_side_size
            ==> #[trigger] data[row * info.aligned_side_size + offset] == pixels[row
            * info.actual_side_size + offset]
}

/// Data that was padded for a copy from a texture comes back without a change.
pub proof fn downloads_restore_the_rows(
    info: AttachmentBufferInfo,
    pixels: Seq<u8>,
    data: Seq<u8>,
)
    requires
        info.actual_side_size <= info.aligned_side_size,
        info.actual_tile_size == info.texture_size * info.actual_side_size,
        pixels.len() == info.actual_tile_size,
        padded_rows(info, pixels, data),
    ensures
        info.can_compact(data.len()),
        info.compacted(data) == pixels,
{
    let side = info.actual_side_size as int;
    let padded = info.aligned_side_size as int;
    let rows = info.texture_size as int;
    assert(rows * side <= rows * padded) by (nonlinear_arith)
        requires
            side <= padded,
            rows >= 0,
    ;
    assert forall|position: int| 0 <= position < pixels.len() implies #[trigger] info.compacted(
        data,
    )[position] == pixels[position] by {
        assert(side > 0) by (nonlinear_arith)
            requires
                0 <= position < rows * side,
                side >= 0,
        ;
        let row = position / side;
        let offset = position % side;
        vstd::arithmetic::div_mod::lemma_fundamental_div_mod(position, side);
        vstd::arithmetic::div_mod::lemma_mod_bound(position, side);
        assert(side * row == row * side) by (nonlinear_arith);
        assert(0 <= row < rows) by (nonlinear_arith)
            requires
                0 <= position < rows * side,
                row * side <= position < row * side + side,
                side > 0,
        ;
        assert(data[row * padded + offset] == pixels[row * side + offset]);
        if data.len() == info.actual_tile_size {
            assert(rows * side == rows * padded);
            assert(side == padded) by (nonlinear_arith)
                requires
                    rows * side == rows * padded,
                    rows > 0,
            ;
            assert(row * padded == row * side) by (nonlinear_arith)
                requires
                    side == padded,
            ;
            assert(info.compacted(data)[position] == data[position]);
        } else if rows == 1 {
            assert(row == 0);
            assert(row * padded == 0 && row * side == 0) by (nonlinear_arith)
                requires
                    row == 0,
            ;
            assert(info.compacted(data)[position] == data[position]);
        } else {
            let last = rows - 1;
            assert(last * side == rows * side - side) by (nonlinear_arith)
                requires
                    last == rows - 1,
            ;
            assert(position < last * side + padded);
            assert(row <= last);
            assert(info.compacted_byte(data, position) == data[row * padded + (position - row
                * side)]);
            assert(info.compacted(data)[position] == data[row * padded + offset]);
        }
    }
    assert(info.compacted(data) =~= pixels);
}

/// Whether an attachment is what was downloaded from the given slot of the texture of a label.
pub open spec fn is_downloaded(
    tile: AttachmentTileWithData,
    data: Seq<u8>,
    info: AttachmentBufferInfo,
    atlas_index: u32,
    label: AttachmentLabel,
    order: ByteOrder,
) -> bool {
    &&& tile.atlas_index == atlas_index
    &&& tile.label == label
    &&& tile.data.holds(info.compacted(data), info.format, order)
}

/// The tile that was downloaded into a slot: the rows are moved together and read as pixels.
pub fn downloaded_tile(
    data: Vec<u8>,
    info: &AttachmentBufferInfo,
    atlas_index: u32,
    label: AttachmentLabel,
) -> (tile: AttachmentTileWithData)
    requires
        info.can_compact(data@.len()),
        info.compacted(data@).len() % (info.format.source_pixel_size() as nat) == 0,
    ensures
        is_downloaded(tile, data@, *info, atlas_index, label, ByteOrder::Little) || is_downloaded(
            tile,
            data@,
            *info,
            atlas_index,
            label,
            ByteOrder::Big,
        ),
        tile.atlas_index == atlas_index,
        tile.label == label,
        tile.data.holds(info.compacted(data@), info.format, ByteOrder::Little)
            || tile.data.holds(info.compacted(data@), info.format, ByteOrder::Big),
{
    let compact = compact_rows(data, info);
    AttachmentTileWithData {
        atlas_index,
        label,
        data: AttachmentData::from_bytes(compact.as_slice(), info.format),
    }
}

/// A write to a layer of an array texture.
pub struct TextureUpload {
    /// The attachment whose texture is written.
    pub label: AttachmentLabel,
    /// The layer that is written.
    pub atlas_index: u32,
    pub data: AttachmentData,
    pub bytes_per_row: u32,
    pub rows_per_image: u32,
}

/// The state of a GPU tile atlas.
pub struct GpuAtlasView {
    pub attachments: Map<LabelView, GpuAttachmentView>,
    /// The attachments that are to be written to the textures.
    pub upload_tiles: Seq<AttachmentTileWithData>,
    pub is_spherical: bool,
}

/// The slots of the attachments with the given label.
pub open spec fn slots_with_label(
    tiles: Seq<AttachmentTileWithData>,
    label: LabelView,
) -> Seq<u32>
    decreases tiles.len(),
{
    if tiles.len() == 0 {
        Seq::empty()
    } else if tiles.last().label@ == label {
        slots_with_label(tiles.drop_last(), label).push(tiles.last().atlas_index)
    } else {
        slots_with_label(tiles.drop_last(), label)
    }
}

/// The mip levels of an attachment that the given uploads call for: all but the first, of every slot
/// that is written.
pub open spec fn mips_called_for(
    info: AttachmentBufferInfo,
    tiles: Seq<AttachmentTileWithData>,
    label: LabelView,
) -> Seq<Seq<u32>> {
    Seq::new(
        info.mip_level_count as nat,
        |level: int|
            if level == 0 {
                Seq::empty()
            } else {
                slots_with_label(tiles, label)
            },
    )
}

impl GpuAtlasView {
    /// What holds of every GPU tile atlas: there is a queue for every mip level.
    pub open spec fn wf(self) -> bool {
        forall|label: LabelView| #[trigger]
            self.attachments.contains_key(label)
                ==> self.attachments[label].mips_to_generate.len()
                == self.attachments[label].buffer_info.mip_level_count
    }

    /// Whether the attachments are those of the atlas.
    pub open spec fn knows(self, tiles: Seq<AttachmentTileWithData>) -> bool {
        forall|i: int|
            0 <= i < tiles.len() ==> self.attachments.contains_key((#[trigger] tiles[i]).label@)
    }

    /// The atlas with the given uploads, and the mip levels that they call for.
    pub open spec fn extracted(self, tiles: Seq<AttachmentTileWithData>) -> GpuAtlasView {
        GpuAtlasView {
            attachments: self.attachments.map_entries(
                |label: LabelView, attachment: GpuAttachmentView|
                    GpuAttachmentView {
                        buffer_info: attachment.buffer_info,
                        mips_to_generate: mips_called_for(attachment.buffer_info, tiles, label),
                    },
            ),
            upload_tiles: tiles,
            ..self
        }
    }
}

/// The textures of a tile atlas, and what has to be done to bring them up to date.
pub struct GpuTileAtlas {
    attachments: HashMap<LabelKey, GpuAttachment>,
    upload_tiles: Vec<AttachmentTileWithData>,
    is_spherical: bool,
}

impl View for GpuTileAtlas {
    type V = GpuAtlasView;

    closed spec fn view(&self) -> GpuAtlasView {
        GpuAtlasView {
            attachments: gpu_attachment_map(self.attachments),
            upload_tiles: self.upload_tiles@,
            is_spherical: self.is_spherical,
        }
    }
}

impl GpuAttachment {
    /// An attachment without queued mip levels.
    pub fn new(buffer_info: AttachmentBufferInfo) -> (attachment: Self)
        ensures
            attachment@ == fresh_attachment(buffer_info),
            attachment@ == (GpuAttachmentView {
                buffer_info,
                mips_to_generate: Seq::new(
                    buffer_info.mip_level_count as nat,
                    |level: int| Seq::<u32>::empty(),
                ),
            }),
    {
        let mut mips_to_generate: Vec<Vec<u32>> = Vec::new();
        let mut level: u32 = 0;
        while level < buffer_info.mip_level_count
            invariant
                level <= buffer_info.mip_level_count,
                level_views(mips_to_generate@) == Seq::new(
                    level as nat,
                    |level: int| Seq::<u32>::empty(),
                ),
            decreases buffer_info.mip_level_count - level,
        {
            let ghost before = mips_to_generate@;
            let fresh: Vec<u32> = Vec::new();
            mips_to_generate.push(fresh);
            level += 1;
            assert(level_views(mips_to_generate@) =~= level_views(before).push(
                Seq::<u32>::empty(),
            ));
            assert(level_views(mips_to_generate@) =~= Seq::new(
                level as nat,
                |level: int| Seq::<u32>::empty(),
            ));
        }
        assert(mips_to_generate@.len() == level_views(mips_to_generate@).len());
        GpuAttachment { buffer_info, mips_to_generate }
    }

    /// Queues all mip levels but the first of a slot.
    fn queue_mips(&mut self, atlas_index: u32)
        requires
            old(self)@.mips_to_generate.len() == old(self)@.buffer_info.mip_level_count,
        ensures
            final(self)@ == (GpuAttachmentView {
                buffer_info: old(self)@.buffer_info,
                mips_to_generate: Seq::new(
                    old(self)@.mips_to_generate.len(),
                    |level: int|
                        if level == 0 {
                            old(self)@.mips_to_generate[level]
                        } else {
                            old(self)@.mips_to_generate[level].push(atlas_index)
                        },
                ),
            }),
    {
        let ghost start = self@.mips_to_generate;
        assert(start.len() == self.mips_to_generate@.len());
        assert forall|level: int| 0 <= level < start.len() implies #[trigger]
            self.mips_to_generate@[level]@ == start[level] by {}
        let count: u32 = self.buffer_info.mip_level_count;
        let mut level: u32 = 1;
        while level < count
            invariant
                level >= 1,
                count >= 1 ==> level <= count,
                count == start.len(),
                self.mips_to_generate@.len() == start.len(),
                self.buffer_info == old(self).buffer_info,
                forall|l: int|
                    0 <= l < start.len() ==> #[trigger] self.mips_to_generate@[l]@ == if 1 <= l
                        < level {
                        start[l].push(atlas_index)
                    } else {
                        start[l]
                    },
            decreases count - level,
        {
            let mut slots: Vec<u32> = Vec::new();
            std::mem::swap(&mut slots, &mut self.mips_to_generate[level as usize]);
            slots.push(atlas_index);
            self.mips_to_generate.set(level as usize, slots);
            level += 1;
        }
        proof {
            let wanted = Seq::new(
                start.len(),
                |level: int|
                    if level == 0 {
                        start[level]
                    } else {
                        start[level].push(atlas_index)
                    },
            );
            assert(self@.mips_to_generate =~= wanted);
        }
    }
}

/// An attachment without queued mip levels.
pub open spec fn fresh_attachment(buffer_info: AttachmentBufferInfo) -> GpuAttachmentView {
    GpuAttachmentView {
        buffer_info,
        mips_to_generate: Seq::new(
            buffer_info.mip_level_count as nat,
            |level: int| Seq::<u32>::empty(),
        ),
    }
}

/// The attachments of a list; of those with the same label, the last one counts.
pub open spec fn collected(
    attachments: Seq<(AttachmentLabel, AttachmentBufferInfo)>,
) -> Map<LabelView, GpuAttachmentView>
    decreases attachments.len(),
{
    if attachments.len() == 0 {
        Map::empty()
    } else {
        collected(attachments.drop_last()).insert(
            attachments.last().0@,
            fresh_attachment(attachments.last().1),
        )
    }
}

/// The attachments of a list have a queue for every mip level.
proof fn collected_is_wf(attachments: Seq<(AttachmentLabel, AttachmentBufferInfo)>)
    ensures
        forall|label: LabelView| #[trigger]
            collected(attachments).contains_key(label) ==> collected(
                attachments,
            )[label].mips_to_generate.len() == collected(
                attachments,
            )[label].buffer_info.mip_level_count,
    decreases attachments.len(),
{
    if attachments.len() > 0 {
        collected_is_wf(attachments.drop_last());
    }
}

impl GpuAtlasView {
    /// Whether this is an atlas with the given attachments, and nothing to upload.
    pub open spec fn is_new(
        self,
        attachments: Seq<(AttachmentLabel, AttachmentBufferInfo)>,
        is_spherical: bool,
    ) -> bool {
        &&& self.attachments == collected(attachments)
        &&& self.upload_tiles.len() == 0
        &&& self.is_spherical == is_spherical
    }
}

impl GpuTileAtlas {
    /// An atlas with the given attachments, and nothing to upload.
    pub fn new(
        attachments: &Vec<(AttachmentLabel, AttachmentBufferInfo)>,
        is_spherical: bool,
    ) -> (atlas: Self)
        ensures
            atlas@.wf(),
            atlas@.is_new(attachments@, is_spherical),
            atlas@.attachments == collected(attachments@),
            atlas@.upload_tiles.len() == 0,
            atlas@.is_spherical == is_spherical,
    {
        let mut map = new_gpu_attachment_map();
        let mut i: usize = 0;
        assert(attachments@.take(0) =~= Seq::<(AttachmentLabel, AttachmentBufferInfo)>::empty());
        assert(gpu_attachment_map(map) =~= Map::<LabelView, GpuAttachmentView>::empty());
        while i < attachments.len()
            invariant
                i <= attachments@.len(),
                gpu_attachment_map(map) == collected(attachments@.take(i as int)),
            decreases attachments@.len() - i,
        {
            let (label, info) = &attachments[i];
            insert_gpu_attachment(&mut map, label.key(), GpuAttachment::new(*info));
            assert(attachments@.take(i + 1).drop_last() =~= attachments@.take(i as int));
            i += 1;
        }
        assert(attachments@.take(i as int) =~= attachments@);
        proof {
            collected_is_wf(attachments@);
        }
        GpuTileAtlas { attachments: map, upload_tiles: Vec::new(), is_spherical }
    }

    /// Whether the terrain is spherical.
    pub fn is_spherical(&self) -> (spherical: bool)
        ensures
            spherical == self@.is_spherical,
    {
        self.is_spherical
    }

    /// The attachment with the given label.
    pub fn attachment(&self, label: &AttachmentLabel) -> (attachment: Option<&GpuAttachment>)
        ensures
            attachment is Some <==> self@.attachments.contains_key(label@),
            attachment is Some ==> attachment->Some_0@ == self@.attachments[label@],
    {
        get_gpu_attachment(&self.attachments, &label.key())
    }

    /// Empties the queues of mip levels.
    fn clear_mips(&mut self)
        requires
            old(self)@.wf(),
        ensures
            final(self)@ == old(self)@.extracted(Seq::empty()).with_uploads(
                old(self)@.upload_tiles,
            ),
    {
        let keys = keys_of_gpu_attachments(&self.attachments);
        let ghost labels = key_labels(keys@);
        let ghost start = self@.attachments;
        let mut i: usize = 0;
        while i < keys.len()
            invariant
                i <= keys@.len(),
                labels == key_labels(keys@),
                labels.no_duplicates(),
                labels.to_set() == start.dom(),
                self@ == (GpuAtlasView { attachments: self@.attachments, ..old(self)@ }),
                start == old(self)@.attachments,
                self@.attachments.dom() == start.dom(),
                forall|j: int|
                    0 <= j < i ==> self@.attachments[#[trigger] labels[j]] == fresh_attachment(
                        start[labels[j]].buffer_info,
                    ),
                forall|j: int|
                    i <= j < labels.len() ==> self@.attachments[#[trigger] labels[j]]
                        == start[labels[j]],
            decreases keys@.len() - i,
        {
            let ghost label = labels[i as int];
            let ghost before = self@.attachments;
            assert(labels.to_set().contains(label));
            assert(start.dom().contains(label));
            if let Some(attachment) = remove_gpu_attachment(&mut self.attachments, &keys[i]) {
                insert_gpu_attachment(
                    &mut self.attachments,
                    AttachmentLabel::from_key(&keys[i]).key(),
                    GpuAttachment::new(attachment.buffer_info),
                );
            }
            assert(self@.attachments == before.remove(label).insert(
                label,
                fresh_attachment(start[label].buffer_info),
            ));
            assert(self@.attachments.dom() =~= start.dom());
            i += 1;
        }
        proof {
            let wanted = old(self)@.extracted(Seq::empty()).attachments;
            assert forall|label: LabelView| #[trigger] self@.attachments.contains_key(
                label,
            ) implies self@.attachments[label] == wanted[label] by {
                assert(self@.attachments.dom().contains(label));
                assert(labels.to_set().contains(label));
                let j = choose|j: int| 0 <= j < labels.len() && labels[j] == label;
                assert(self@.attachments[labels[j]] == fresh_attachment(
                    start[labels[j]].buffer_info,
                ));
                assert(wanted[label].mips_to_generate =~= fresh_attachment(
                    start[label].buffer_info,
                ).mips_to_generate);
            }
            assert(self@.attachments =~= wanted);
        }
    }

    /// Takes over the attachments that a tile atlas has staged, and queues the mip levels of their
    /// slots. The tile atlas gets the ones that have been taken over before, if they are not uploaded.
    pub fn extract(&mut self, tile_atlas: &mut TileAtlas)
        requires
            old(self)@.wf(),
            old(self)@.knows(old(tile_atlas)@.uploading),
        ensures
            final(self)@ == old(self)@.extracted(old(tile_atlas)@.uploading),
            final(self)@.wf(),
            final(tile_atlas)@ == old(tile_atlas)@.staging(old(self)@.upload_tiles),
            final(tile_atlas)@ == (AtlasView {
                uploading: old(self)@.upload_tiles,
                ..old(tile_atlas)@
            }),
            final(tile_atlas).load_order() == old(tile_atlas).load_order(),
            old(tile_atlas)@.wf() ==> final(tile_atlas)@.wf(),
    {
        tile_atlas.swap_uploading_tiles(&mut self.upload_tiles);
        let ghost tiles = self.upload_tiles@;
        let ghost start = old(self)@;
        let ghost infos = start.attachments;
        assert(self@.wf());
        self.clear_mips();
        let mut i: usize = 0;
        assert(tiles.take(0) =~= Seq::<AttachmentTileWithData>::empty());
        assert(self@ == start.extracted(tiles.take(0)).with_uploads(tiles));
        while i < self.upload_tiles.len()
            invariant
                i <= tiles.len(),
                self.upload_tiles@ == tiles,
                start == old(self)@,
                start.wf(),
                start.knows(tiles),
                self@ == start.extracted(tiles.take(i as int)).with_uploads(tiles),
            decreases tiles.len() - i,
        {
            let ghost before = self@.attachments;
            let ghost label = tiles[i as int].label@;
            let ghost done = tiles.take(i as int);
            let ghost next = tiles.take(i + 1);
            assert(next.drop_last() =~= done);
            assert(before.contains_key(label));
            let key = self.upload_tiles[i].label.key();
            let slot: u32 = self.upload_tiles[i].atlas_index;
            if let Some(mut attachment) = remove_gpu_attachment(&mut self.attachments, &key) {
                attachment.queue_mips(slot);
                let ghost queued = attachment@;
                insert_gpu_attachment(&mut self.attachments, key, attachment);
                proof {
                    let info = start.attachments[label].buffer_info;
                    assert(queued.mips_to_generate =~= mips_called_for(info, next, label));
                    let wanted = start.extracted(next).attachments;
                    assert forall|other: LabelView| #[trigger] self@.attachments.contains_key(
                        other,
                    ) implies self@.attachments[other] == wanted[other] by {
                        if other != label {
                            assert(before.contains_key(other));
                            assert(mips_called_for(
                                start.attachments[other].buffer_info,
                                done,
                                other,
                            ) =~= mips_called_for(
                                start.attachments[other].buffer_info,
                                next,
                                other,
                            ));
                        }
                    }
                    assert(self@.attachments =~= wanted);
                }
            }
            i += 1;
        }
        assert(tiles.take(i as int) =~= tiles);
        assert(self@ == start.extracted(tiles));
    }

    /// Hands out the writes that bring the textures up to date.
    pub fn upload_tiles(&mut self) -> (uploads: Vec<TextureUpload>)
        requires
            old(self)@.knows(old(self)@.upload_tiles),
        ensures
            uploads@.len() == old(self)@.upload_tiles.len(),
            forall|i: int|
                0 <= i < uploads@.len() ==> (#[trigger] uploads@[i]).writes(
                    old(self)@.upload_tiles[i],
                    old(self)@.attachments[old(self)@.upload_tiles[i].label@].buffer_info,
                ),
            forall|i: int|
                0 <= i < uploads@.len() ==> {
                    let tile = old(self)@.upload_tiles[i];
                    let info = old(self)@.attachments[tile.label@].buffer_info;
                    &&& (#[trigger] uploads@[i]).label == tile.label
                    &&& uploads@[i].atlas_index == tile.atlas_index
                    &&& uploads@[i].data == tile.data
                    &&& uploads@[i].bytes_per_row == info.actual_side_size
                    &&& uploads@[i].rows_per_image == info.texture_size
                },
            final(self)@ == old(self)@.with_uploads(Seq::empty()),
    {
        let mut tiles: Vec<AttachmentTileWithData> = Vec::new();
        std::mem::swap(&mut tiles, &mut self.upload_tiles);
        let ghost all = tiles@;
        let mut uploads: Vec<TextureUpload> = Vec::new();
        for tile in iter: tiles
            invariant
                iter.seq() == all,
                self@.knows(all),
                self@ == old(self)@.with_uploads(Seq::empty()),
                uploads@.len() == iter.index(),
                forall|i: int|
                    0 <= i < uploads@.len() ==> (#[trigger] uploads@[i]).writes(
                        all[i],
                        self@.attachments[all[i].label@].buffer_info,
                    ),
        {
            assert(tile == all[iter.index()]);
            if let Some(attachment) = get_gpu_attachment(&self.attachments, &tile.label.key()) {
                uploads.push(
                    TextureUpload {
                        label: tile.label,
                        atlas_index: tile.atlas_index,
                        data: tile.data,
                        bytes_per_row: attachment.buffer_info.actual_side_size,
                        rows_per_image: attachment.buffer_info.texture_size,
                    },
                );
            }
        }
        uploads
    }
}

impl TextureUpload {
    /// Whether this writes an attachment to its layer.
    pub open spec fn writes(self, tile: AttachmentTileWithData, info: AttachmentBufferInfo) -> bool {
        &&& self.label == tile.label
        &&& self.atlas_index == tile.atlas_index
        &&& self.data == tile.data
        &&& self.bytes_per_row == info.actual_side_size
        &&& self.rows_per_image == info.texture_size
    }
}

impl GpuAtlasView {
    /// The atlas with other uploads.
    pub open spec fn with_uploads(self, tiles: Seq<AttachmentTileWithData>) -> GpuAtlasView {
        GpuAtlasView { upload_tiles: tiles, ..self }
    }
}

/// A write brings an attachment to the layer of its slot, in the texture of its label, with the rows
/// of that texture. Attachments of different slots never overwrite each other.
pub proof fn uploads_go_to_their_layers(
    upload: TextureUpload,
    tile: AttachmentTileWithData,
    info: AttachmentBufferInfo,
)
    requires
        upload.writes(tile, info),
    ensures
        upload.atlas_index == tile.atlas_index,
        upload.label@ == tile.label@,
        upload.data == tile.data,
        upload.bytes_per_row == info.actual_side_size,
        upload.rows_per_image == info.texture_size,
{
}

/// One more upload calls for all mip levels but the first of its slot, behind those of the uploads
/// before it, and for nothing of the other attachments.
pub proof fn each_upload_calls_for_its_mips(
    atlas: GpuAtlasView,
    tiles: Seq<AttachmentTileWithData>,
    tile: AttachmentTileWithData,
    label: LabelView,
    level: int,
)
    requires
        atlas.attachments.contains_key(label),
        0 <= level < atlas.attachments[label].buffer_info.mip_level_count,
    ensures
        ({
            let before = atlas.extracted(tiles).attachments[label].mips_to_generate;
            let after = atlas.extracted(tiles.push(tile)).attachments[label].mips_to_generate;
            &&& after.len() == atlas.attachments[label].buffer_info.mip_level_count
            &&& after[level] == if level > 0 && tile.label@ == label {
                before[level].push(tile.atlas_index)
            } else {
                before[level]
            }
        }),
{
    assert(tiles.push(tile).drop_last() =~= tiles);
}

/// Without uploads no mip level is generated: what was queued in an earlier frame is forgotten.
pub proof fn nothing_calls_for_no_mips(atlas: GpuAtlasView, label: LabelView, level: int)
    requires
        atlas.attachments.contains_key(label),
        0 <= level < atlas.attachments[label].buffer_info.mip_level_count,
    ensures
        atlas.extracted(Seq::empty()).attachments[label].mips_to_generate[level].len() == 0,
{
}

/// Taking over attachments keeps the textures and hands the attachments on as they are.
pub proof fn extraction_keeps_the_textures(
    atlas: GpuAtlasView,
    tiles: Seq<AttachmentTileWithData>,
    label: LabelView,
)
    ensures
        atlas.extracted(tiles).upload_tiles == tiles,
        atlas.extracted(tiles).is_spherical == atlas.is_spherical,
        atlas.extracted(tiles).attachments.contains_key(label) <==> atlas.attachments.contains_key(
            label,
        ),
        atlas.attachments.contains_key(label) ==> atlas.extracted(
            tiles,
        ).attachments[label].buffer_info == atlas.attachments[label].buffer_info,
{
}

/// Exactly the layers that are written get their mip levels generated anew.
pub proof fn written_layers_get_their_mips(
    atlas: GpuAtlasView,
    tiles: Seq<AttachmentTileWithData>,
    label: LabelView,
    level: int,
    slot: u32,
)
    requires
        atlas.attachments.contains_key(label),
        0 < level < atlas.attachments[label].buffer_info.mip_level_count,
    ensures
        atlas.extracted(tiles).attachments[label].mips_to_generate[level].contains(slot)
            <==> exists|i: int|
            0 <= i < tiles.len() && (#[trigger] tiles[i]).label@ == label && tiles[i].atlas_index
                == slot,
        atlas.extracted(tiles).attachments[label].mips_to_generate[level].len() <= tiles.len(),
    decreases tiles.len(),
{
    if tiles.len() > 0 {
        let front = tiles.drop_last();
        let last = tiles.last();
        assert(front.push(last) =~= tiles);
        written_layers_get_their_mips(atlas, front, label, level, slot);
        each_upload_calls_for_its_mips(atlas, front, last, label, level);
        let before = atlas.extracted(front).attachments[label].mips_to_generate[level];
        let after = atlas.extracted(tiles).attachments[label].mips_to_generate[level];
        if last.label@ == label {
            assert(after == before.push(last.atlas_index));
            assert(after[before.len() as int] == last.atlas_index);
            if before.contains(slot) {
                let k = choose|k: int| 0 <= k < before.len() && before[k] == slot;
                assert(after[k] == slot);
            }
        }
        assert(tiles[tiles.len() - 1] == last);
        if exists|i: int|
            0 <= i < front.len() && (#[trigger] front[i]).label@ == label && front[i].atlas_index
                == slot {
            let i = choose|i: int|
                0 <= i < front.len() && (#[trigger] front[i]).label@ == label
                    && front[i].atlas_index == slot;
            assert(tiles[i] == front[i]);
        }
        if exists|i: int|
            0 <= i < tiles.len() && (#[trigger] tiles[i]).label@ == label && tiles[i].atlas_index
                == slot {
            let i = choose|i: int|
                0 <= i < tiles.len() && (#[trigger] tiles[i]).label@ == label
                    && tiles[i].atlas_index == slot;
            if i < front.len() {
                assert(front[i] == tiles[i]);
            }
        }
    }
}

/// Every row of padded data comes to stand directly behind the one before it. The padding of the last
/// row stays behind that row, and what follows is not touched.
pub proof fn rows_are_moved_together(
    info: AttachmentBufferInfo,
    data: Seq<u8>,
    row: int,
    offset: int,
)
    requires
        info.can_compact(data.len()),
        data.len() != info.actual_tile_size,
        info.texture_size > 1,
        0 <= row < info.texture_size,
        0 <= offset,
        offset < info.actual_side_size || row == info.texture_size - 1,
        row * info.actual_side_size + offset < info.compacted(data).len(),
    ensures
        info.compacted(data)[row * info.actual_side_size + offset] == if offset
            < info.aligned_side_size {
            data[row * info.aligned_side_size + offset]
        } else {
            data[row * info.actual_side_size + offset]
        },
{
    let side = info.actual_side_size as int;
    let last = info.texture_size - 1;
    let position = row * side + offset;
    assert(0 <= row * side) by (nonlinear_arith)
        requires
            0 <= row,
            0 <= side,
    ;
    assert(row * side <= last * side) by (nonlinear_arith)
        requires
            row <= last,
            0 <= side,
    ;
    if side > 0 {
        let place = position / side;
        vstd::arithmetic::div_mod::lemma_fundamental_div_mod(position, side);
        vstd::arithmetic::div_mod::lemma_mod_bound(position, side);
        assert(side * place == place * side) by (nonlinear_arith);
        if row == last {
            assert(place >= last) by (nonlinear_arith)
                requires
                    place * side <= position < place * side + side,
                    position >= last * side,
                    side > 0,
            ;
        } else {
            assert(place == row) by (nonlinear_arith)
                requires
                    place * side <= position < place * side + side,
                    row * side <= position < row * side + side,
                    side > 0,
            ;
            assert(row * side + side <= last * side) by (nonlinear_arith)
                requires
                    row + 1 <= last,
                    0 <= side,
            ;
        }
    } else {
        assert(last * side == 0 && row * side == 0) by (nonlinear_arith)
            requires
                side == 0,
        ;
    }
}

/// Data that is moved together is cut off at the size of a tile, and never grows.
pub proof fn compacted_data_fits_a_tile(info: AttachmentBufferInfo, data: Seq<u8>)
    ensures
        info.compacted(data).len() <= data.len(),
        info.compacted(data).len() <= info.actual_tile_size,
        info.compacted(data).len() == data.len() || info.compacted(data).len()
            == info.actual_tile_size,
        data.len() == info.actual_tile_size ==> info.compacted(data) == data,
        info.texture_size <= 1 ==> info.compacted(data) == data.take(
            info.compacted(data).len() as int,
        ),
{
    if info.texture_size <= 1 {
        assert(info.compacted(data) =~= data.take(info.compacted(data).len() as int));
    }
}

/// An atlas has the attachments of its list: one more entry adds the attachment of its label, or
/// replaces its layout, with nothing to generate on any mip level. The others stay.
pub proof fn each_entry_adds_its_attachment(
    attachments: Seq<(AttachmentLabel, AttachmentBufferInfo)>,
    entry: (AttachmentLabel, AttachmentBufferInfo),
    label: LabelView,
)
    ensures
        !collected(Seq::empty()).contains_key(label),
        ({
            let before = collected(attachments);
            let after = collected(attachments.push(entry));
            if label == entry.0@ {
                &&& after.contains_key(label)
                &&& after[label].buffer_info == entry.1
                &&& after[label].mips_to_generate.len() == entry.1.mip_level_count
                &&& forall|level: int|
                    0 <= level < entry.1.mip_level_count ==> (
                    #[trigger] after[label].mips_to_generate[level]).len() == 0
            } else {
                &&& after.contains_key(label) == before.contains_key(label)
                &&& after.contains_key(label) ==> after[label] == before[label]
            }
        }),
{
    assert(attachments.push(entry).drop_last() =~= attachments);
}

/// A new atlas has nothing to upload, and no mip level of a new attachment is queued.
pub proof fn new_attachments_have_empty_queues(
    atlas: GpuAtlasView,
    attachments: Seq<(AttachmentLabel, AttachmentBufferInfo)>,
    is_spherical: bool,
    info: AttachmentBufferInfo,
    level: int,
)
    ensures
        atlas.is_new(attachments, is_spherical) ==> atlas.upload_tiles.len() == 0
            && atlas.is_spherical == is_spherical && atlas.attachments == collected(attachments),
        fresh_attachment(info).buffer_info == info,
        fresh_attachment(info).mips_to_generate.len() == info.mip_level_count,
        0 <= level < info.mip_level_count ==> fresh_attachment(info).mips_to_generate[level].len()
            == 0,
{
}

/// What is downloaded from a slot of a texture is an attachment of that slot and that label, whose
/// bytes are the rows of the texture without their padding.
pub proof fn downloads_come_back(
    tile: AttachmentTileWithData,
    pixels: Seq<u8>,
    data: Seq<u8>,
    info: AttachmentBufferInfo,
    atlas_index: u32,
    label: AttachmentLabel,
    order: ByteOrder,
)
    requires
        is_downloaded(tile, data, info, atlas_index, label, order),
        info.actual_side_size <= info.aligned_side_size,
        info.actual_tile_size == info.texture_size * info.actual_side_size,
        pixels.len() == info.actual_tile_size,
        pixels.len() % (info.format.source_pixel_size() as nat) == 0,
        padded_rows(info, pixels, data),
        !(info.format is Rgb8U),
    ensures
        tile.atlas_index == atlas_index,
        tile.label == label,
        tile.data.memory(order) == pixels,
{
    downloads_restore_the_rows(info, pixels, data);
    pixels_keep_their_bytes(tile.data, pixels, info.format, order);
}

/// Once the attachments were written, none is left to write, and nothing else has changed.
pub proof fn writes_leave_the_rest(atlas: GpuAtlasView, tiles: Seq<AttachmentTileWithData>)
    ensures
        atlas.with_uploads(tiles).upload_tiles == tiles,
        atlas.with_uploads(tiles).attachments == atlas.attachments,
        atlas.with_uploads(tiles).is_spherical == atlas.is_spherical,
{
}

/// Data of the size of a tile is taken as it is, and so is a single row.
pub proof fn unpadded_data_is_taken_as_it_is(info: AttachmentBufferInfo, data: Seq<u8>)
    ensures
        data.len() == info.actual_tile_size || info.texture_size <= 1 ==> info.can_compact(
            data.len(),
        ),
        data.len() == info.actual_tile_size ==> info.compacted(data) == data,
        info.texture_size <= 1 ==> info.compacted(data).is_prefix_of(data),
{
}

/// The queues of an attachment are seen level by level, each with its slots in order.
pub proof fn queues_are_seen_level_by_level(attachment: GpuAttachment, level: int)
    ensures
        attachment@.buffer_info == attachment.buffer_info,
        attachment@.mips_to_generate.len() == attachment.mips_to_generate@.len(),
        0 <= level < attachment.mips_to_generate@.len() ==> attachment@.mips_to_generate[level]
            == attachment.mips_to_generate@[level]@,
{
}

} // verus!
