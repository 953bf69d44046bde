//! The hash maps and sets of the tile atlas, on top of Bevy's collections.
//!
//! Tiles are keyed by the numbers of their coordinate and attachments by the parts of their label,
//! so that hashing and equality of the keys are those of the standard library.

use vstd::prelude::*;
use crate::attachment::{Attachment, AttachmentLabel, LabelView};
use crate::coordinate::TileCoordinate;
use crate::gpu_tile_atlas::{GpuAttachment, GpuAttachmentView};
use crate::tile_atlas::TileState;
use bevy::platform::collections::{HashMap, HashSet};

verus! {

#[verifier::external_type_specification]
#[verifier::external_body]
#[verifier::reject_recursive_types(K)]
#[verifier::reject_recursive_types(V)]
#[verifier::reject_recursive_types(S)]
pub struct ExHashMap<K, V, S>(bevy::platform::collections::HashMap<K, V, S>);

#[verifier::external_type_specification]
#[verifier::external_body]
#[verifier::reject_recursive_types(T)]
#[verifier::reject_recursive_types(S)]
pub struct ExHashSet<T, S>(bevy::platform::collections::HashSet<T, S>);

#[verifier::external_type_specification]
#[verifier::external_body]
pub struct ExFixedHasher(bevy::platform::hash::FixedHasher);

/// The key of a tile: face, level of detail, column and row.
pub type TileKey = (u32, u32, i32, i32);

/// The key of a label: nothing for the height, else a custom name or the number of a binding.
pub type LabelKey = Option<Result<String, usize>>;

/// The label that a key stands for.
pub open spec fn key_label(key: LabelKey) -> LabelView {
    match key {
        None => LabelView::Height,
        Some(Ok(name)) => LabelView::Custom(name@),
        Some(Err(number)) => LabelView::Empty(number),
    }
}

/// The labels that keys stand for.
pub open spec fn key_labels(keys: Seq<LabelKey>) -> Seq<LabelView> {
    keys.map_values(|key: LabelKey| key_label(key))
}

/// The tiles that a map of tile states holds.
pub uninterp spec fn tile_map(
    map: HashMap<(u32, u32, i32, i32), TileState>,
) -> Map<TileCoordinate, TileState>;

/// The tiles that a set holds.
pub uninterp spec fn tile_set(set: HashSet<(u32, u32, i32, i32)>) -> Set<TileCoordinate>;

/// The attachments that a map holds.
pub uninterp spec fn attachment_map(
    map: HashMap<Option<Result<String, usize>>, Attachment>,
) -> Map<LabelView, Attachment>;

/// The GPU attachments that a map holds.
pub uninterp spec fn gpu_attachment_map(
    map: HashMap<Option<Result<String, usize>>, GpuAttachment>,
) -> Map<LabelView, GpuAttachmentView>;

/// The terrains that a set holds.
pub uninterp spec fn terrain_set(set: HashSet<u64>) -> Set<u64>;

/// `HashMap::default` of Bevy: a map without tiles.
#[verifier::external_body]
pub(crate) fn new_tile_map() -> (fresh: HashMap<TileKey, TileState>)
    ensures
        tile_map(fresh).dom() == Set::<TileCoordinate>::empty(),
{
    HashMap::default()
}

/// `HashMap::get` of Bevy: the state of a tile, if the map holds the tile.
#[verifier::external_body]
pub(crate) fn get_tile(map: &HashMap<TileKey, TileState>, tile: TileCoordinate) -> (state: Option<
    TileState,
>)
    ensures
        state == (if tile_map(*map).contains_key(tile) {
            Some(tile_map(*map)[tile])
        } else {
            None
        }),
{
    map.get(&(tile.face, tile.lod, tile.x, tile.y)).copied()
}

/// `HashMap::insert` of Bevy: adds a tile, or replaces its state.
#[verifier::external_body]
pub(crate) fn insert_tile(
    map: &mut HashMap<TileKey, TileState>,
    tile: TileCoordinate,
    state: TileState,
)
    ensures
        tile_map(*final(map)) == tile_map(*old(map)).insert(tile, state),
{
    map.insert((tile.face, tile.lod, tile.x, tile.y), state);
}

/// `HashMap::remove` of Bevy: removes a tile, if the map holds it.
#[verifier::external_body]
pub(crate) fn remove_tile(map: &mut HashMap<TileKey, TileState>, tile: TileCoordinate)
    ensures
        tile_map(*final(map)) == tile_map(*old(map)).remove(tile),
{
    map.remove(&(tile.face, tile.lod, tile.x, tile.y));
}

/// `HashMap::keys` of Bevy: every tile of the map once, in no particular order.
#[verifier::external_body]
pub(crate) fn tiles_of_map(map: &HashMap<TileKey, TileState>) -> (tiles: Vec<TileCoordinate>)
    ensures
        tiles@.no_duplicates(),
        tiles@.to_set() == tile_map(*map).dom(),
{
    map.keys().map(|key| TileCoordinate { face: key.0, lod: key.1, x: key.2, y: key.3 }).collect()
}

/// `HashSet::from_iter` of Bevy: the set of the given tiles.
#[verifier::external_body]
pub(crate) fn collect_tile_set(tiles: &Vec<TileCoordinate>) -> (set: HashSet<TileKey>)
    ensures
        tile_set(set) == tiles@.to_set(),
{
    tiles.iter().map(|tile| (tile.face, tile.lod, tile.x, tile.y)).collect()
}

/// `HashSet::contains` of Bevy.
#[verifier::external_body]
pub(crate) fn set_has_tile(set: &HashSet<TileKey>, tile: TileCoordinate) -> (has: bool)
    ensures
        has == tile_set(*set).contains(tile),
{
    set.contains(&(tile.face, tile.lod, tile.x, tile.y))
}

/// `HashMap::default` of Bevy: a map without attachments.
#[verifier::external_body]
pub(crate) fn new_attachment_map() -> (fresh: HashMap<LabelKey, Attachment>)
    ensures
        attachment_map(fresh).dom() == Set::<LabelView>::empty(),
{
    HashMap::default()
}

/// `HashMap::insert` of Bevy: adds an attachment, or replaces it.
#[verifier::external_body]
pub(crate) fn insert_attachment(
    map: &mut HashMap<LabelKey, Attachment>,
    key: LabelKey,
    attachment: Attachment,
)
    ensures
        attachment_map(*final(map)) == attachment_map(*old(map)).insert(key_label(key), attachment),
{
    map.insert(key, attachment);
}

/// `HashMap::get` of Bevy: the attachment with a label, if the map holds it.
#[verifier::external_body]
pub(crate) fn get_attachment<'a>(map: &'a HashMap<LabelKey, Attachment>, key: &LabelKey) -> (found:
    Option<&'a Attachment>)
    ensures
        found is Some <==> attachment_map(*map).contains_key(key_label(*key)),
        found is Some ==> *found->Some_0 == attachment_map(*map)[key_label(*key)],
{
    map.get(key)
}

/// `HashMap::keys` of Bevy: the label of every attachment once, in no particular order.
#[verifier::external_body]
pub(crate) fn keys_of_attachments(map: &HashMap<LabelKey, Attachment>) -> (keys: Vec<LabelKey>)
    ensures
        key_labels(keys@).no_duplicates(),
        key_labels(keys@).to_set() == attachment_map(*map).dom(),
{
    map.keys().cloned().collect()
}

/// `HashMap::default` of Bevy: a map without GPU attachments.
#[verifier::external_body]
pub(crate) fn new_gpu_attachment_map() -> (fresh: HashMap<LabelKey, GpuAttachment>)
    ensures
        gpu_attachment_map(fresh).dom() == Set::<LabelView>::empty(),
{
    HashMap::default()
}

/// `HashMap::insert` of Bevy: adds a GPU attachment, or replaces it.
#[verifier::external_body]
pub(crate) fn insert_gpu_attachment(
    map: &mut HashMap<LabelKey, GpuAttachment>,
    key: LabelKey,
    attachment: GpuAttachment,
)
    ensures
        gpu_attachment_map(*final(map)) == gpu_attachment_map(*old(map)).insert(
            key_label(key),
            attachment@,
        ),
{
    map.insert(key, attachment);
}

/// `HashMap::remove` of Bevy: takes a GPU attachment out of the map, if the map holds it.
#[verifier::external_body]
pub(crate) fn remove_gpu_attachment(
    map: &mut HashMap<LabelKey, GpuAttachment>,
    key: &LabelKey,
) -> (removed: Option<GpuAttachment>)
    ensures
        removed is Some <==> gpu_attachment_map(*old(map)).contains_key(key_label(*key)),
        removed is Some ==> removed->Some_0@ == gpu_attachment_map(*old(map))[key_label(*key)],
        gpu_attachment_map(*final(map)) == gpu_attachment_map(*old(map)).remove(key_label(*key)),
{
    map.remove(key)
}

/// `HashMap::get` of Bevy: the GPU attachment with a label, if the map holds it.
#[verifier::external_body]
pub(crate) fn get_gpu_attachment<'a>(
    map: &'a HashMap<LabelKey, GpuAttachment>,
    key: &LabelKey,
) -> (found: Option<&'a GpuAttachment>)
    ensures
        found is Some <==> gpu_attachment_map(*map).contains_key(key_label(*key)),
        found is Some ==> found->Some_0@ == gpu_attachment_map(*map)[key_label(*key)],
{
    map.get(key)
}

/// `HashMap::keys` of Bevy: the label of every GPU attachment once, in no particular order.
#[verifier::external_body]
pub(crate) fn keys_of_gpu_attachments(map: &HashMap<LabelKey, GpuAttachment>) -> (keys: Vec<
    LabelKey,
>)
    ensures
        key_labels(keys@).no_duplicates(),
        key_labels(keys@).to_set() == gpu_attachment_map(*map).dom(),
{
    map.keys().cloned().collect()
}

/// `HashSet::from_iter` of Bevy: the set of the given terrains.
#[verifier::external_body]
pub(crate) fn collect_terrain_set(terrains: &Vec<u64>) -> (set: HashSet<u64>)
    ensures
        terrain_set(set) == terrains@.to_set(),
{
    terrains.iter().copied().collect()
}

/// `HashSet::contains` of Bevy.
#[verifier::external_body]
pub(crate) fn set_has_terrain(set: &HashSet<u64>, terrain: u64) -> (has: bool)
    ensures
        has == terrain_set(*set).contains(terrain),
{
    set.contains(&terrain)
}

impl AttachmentLabel {
    /// The key of a label.
    pub(crate) fn key(&self) -> (key: LabelKey)
        ensures
            key_label(key) == self@,
    {
        match self {
            AttachmentLabel::Height => None,
            AttachmentLabel::Custom(name) => Some(Ok(name.clone())),
            AttachmentLabel::Empty(number) => Some(Err(*number)),
        }
    }

    /// The label that a key stands for.
    pub(crate) fn from_key(key: &LabelKey) -> (label: Self)
        ensures
            label@ == key_label(*key),
    {
        match key {
            None => AttachmentLabel::Height,
            Some(Ok(name)) => AttachmentLabel::Custom(name.clone()),
            Some(Err(number)) => AttachmentLabel::Empty(*number),
        }
    }
}

/// A key stands for one label, and labels with the same key are the same.
pub proof fn keys_tell_labels_apart(name: String, number: usize, a: LabelKey, b: LabelKey)
    ensures
        key_label(None) == LabelView::Height,
        key_label(Some(Ok(name))) == LabelView::Custom(name@),
        key_label(Some(Err(number))) == LabelView::Empty(number),
        key_label(a) == key_label(b) ==> match (a, b) {
            (None, None) => true,
            (Some(Ok(a)), Some(Ok(b))) => a@ == b@,
            (Some(Err(a)), Some(Err(b))) => a == b,
            _ => false,
        },
{
}

} // verus!
