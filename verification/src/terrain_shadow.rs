//! The shadow map of a terrain.
//!
//! A small texture around the view holds the elevation below which the terrain is in shadow. It is
//! generated by marching through the height map towards the sun.

use vstd::prelude::*;
use crate::terrain_material::{def_if, texts};

verus! {

/// The half precision number -60000, which stands for "nothing casts a shadow here".
pub const NO_OCCLUDER_F16_BITS: u16 = 0xFB53;

/// What determines the pipeline that generates the shadow map.
#[derive(Clone, Copy, Debug, PartialEq, Eq, Structural, Hash)]
pub struct TerrainShadowPipelineKey {
    pub spherical: bool,
}

/// The shader definitions of the pipeline that generates the shadow map.
pub open spec fn shadow_defs(key: TerrainShadowPipelineKey) -> Seq<Seq<char>> {
    seq!["SHADOW_COMPUTE"@] + def_if(key.spherical, "SPHERICAL"@)
}

/// The shaders always know that they compute a shadow map, and that the terrain is spherical exactly
/// if it is.
pub proof fn shadow_shaders_know_the_terrain(key: TerrainShadowPipelineKey)
    ensures
        shadow_defs(key).first() == "SHADOW_COMPUTE"@,
        shadow_defs(key).len() == if key.spherical {
            2int
        } else {
            1int
        },
        key.spherical ==> shadow_defs(key)[1] == "SPHERICAL"@,
{
}

impl TerrainShadowPipelineKey {
    /// The shader definitions.
    pub fn shader_defs(&self) -> (defs: Vec<&'static str>)
        ensures
            texts(defs@) == shadow_defs(*self),
            texts(defs@) == seq!["SHADOW_COMPUTE"@] + def_if(self.spherical, "SPHERICAL"@),
    {
        let mut defs: Vec<&'static str> = Vec::new();
        defs.push("SHADOW_COMPUTE");
        if self.spherical {
            defs.push("SPHERICAL");
        }
        assert(texts(defs@) =~= seq!["SHADOW_COMPUTE"@] + def_if(self.spherical, "SPHERICAL"@));
        defs
    }
}

/// The byte at the given position of a shadow map without shadows: the first of four half precision
/// channels says that nothing casts a shadow, the others are zero. The low byte of a number comes
/// first.
pub open spec fn seed_byte(position: int) -> u8 {
    if position % 8 == 0 {
        (NO_OCCLUDER_F16_BITS % 256) as u8
    } else if position % 8 == 1 {
        (NO_OCCLUDER_F16_BITS / 256) as u8
    } else {
        0
    }
}

/// The contents of a shadow map without shadows.
pub open spec fn seed_bytes(map_size: u32) -> Seq<u8> {
    Seq::new((8 * map_size * map_size) as nat, |position: int| seed_byte(position))
}

/// The contents of a new shadow map. The terrain is fully lit until the map is generated.
pub fn seed_texels(map_size: u32) -> (bytes: Vec<u8>)
    requires
        map_size * map_size <= u32::MAX,
        8 * map_size * map_size <= isize::MAX,
    ensures
        bytes@ == seed_bytes(map_size),
        bytes@ == Seq::new((8 * map_size * map_size) as nat, |position: int| seed_byte(position)),
{
    let count: u32 = map_size * map_size;
    assert(8 * count == 8 * map_size * map_size) by (nonlinear_arith)
        requires
            count == map_size * map_size,
    ;
    let mut bytes: Vec<u8> = Vec::new();
    let mut i: u32 = 0;
    while i < count
        invariant
            i <= count,
            bytes@ == Seq::new((8 * i) as nat, |position: int| seed_byte(position)),
        decreases count - i,
    {
        let ghost before = bytes@;
        bytes.push((NO_OCCLUDER_F16_BITS % 256) as u8);
        bytes.push((NO_OCCLUDER_F16_BITS / 256) as u8);
        bytes.push(0);
        bytes.push(0);
        bytes.push(0);
        bytes.push(0);
        bytes.push(0);
        bytes.push(0);
        i += 1;
        assert(bytes@ =~= Seq::new((8 * i) as nat, |position: int| seed_byte(position)));
    }
    bytes
}

/// The number of groups of eight pixels that cover a side of the shadow map.
pub open spec fn groups(map_size: u32) -> int {
    (map_size + 7) / 8
}

/// Every pixel of the shadow map is in a group, and no group is in vain.
pub proof fn groups_cover_the_map(map_size: u32)
    ensures
        groups(map_size) * 8 >= map_size,
        groups(map_size) * 8 < map_size + 8,
{
}

/// The state of the shadow map of a view.
#[derive(Clone, Copy, Debug, PartialEq, Eq, Structural)]
pub struct ShadowState {
    pub map_size: u32,
    pub pipeline_ready: bool,
    pub has_view_bind_group: bool,
    pub has_terrain_bind_group: bool,
}

/// The number of groups along each side that generate a shadow map, if it is generated at all.
pub open spec fn shadow_groups(enabled: bool, shadow: ShadowState) -> Option<u32> {
    if enabled && shadow.pipeline_ready && shadow.has_view_bind_group
        && shadow.has_terrain_bind_group {
        Some(groups(shadow.map_size) as u32)
    } else {
        None
    }
}

/// A shadow map is generated exactly if shadows are enabled and all that its pass needs is there. The
/// groups of eight by eight pixels then cover the map, and none lies outside of it.
pub proof fn shadow_maps_are_generated_whole(enabled: bool, shadow: ShadowState)
    ensures
        shadow_groups(enabled, shadow) is Some <==> enabled && shadow.pipeline_ready
            && shadow.has_view_bind_group && shadow.has_terrain_bind_group,
        shadow_groups(enabled, shadow) is Some ==> shadow.map_size <= 8 * shadow_groups(
            enabled,
            shadow,
        )->Some_0 < shadow.map_size + 8,
{
}

/// The number of groups along each side that generate a shadow map, if it is generated at all.
pub fn terrain_shadow_pass(enabled: bool, shadow: &ShadowState) -> (workgroups: Option<u32>)
    ensures
        workgroups == shadow_groups(enabled, *shadow),
        workgroups is Some <==> enabled && shadow.pipeline_ready && shadow.has_view_bind_group
            && shadow.has_terrain_bind_group,
        workgroups is Some ==> workgroups->Some_0 == groups(shadow.map_size),
{
    if enabled && shadow.pipeline_ready && shadow.has_view_bind_group
        && shadow.has_terrain_bind_group {
        let size: u32 = shadow.map_size;
        Some(if size % 8 == 0 {
            size / 8
        } else {
            size / 8 + 1
        })
    } else {
        None
    }
}

/// Whether the bind group of the view of a shadow map is created.
pub open spec fn needs_view_bind_group(has_view_bind_group: bool, buffers_ready: bool) -> bool {
    !has_view_bind_group && buffers_ready
}

/// The bind group of the view of a shadow map is created once: it waits for its buffers, and is kept
/// afterwards.
pub proof fn view_bind_groups_are_created_once(buffers_ready: bool)
    ensures
        needs_view_bind_group(false, buffers_ready) == buffers_ready,
        !needs_view_bind_group(true, buffers_ready),
{
}

/// Whether the bind group of the view of a shadow map is created: it is kept once it exists, and waits
/// for its buffers before.
pub fn creates_view_bind_group(has_view_bind_group: bool, buffers_ready: bool) -> (creates: bool)
    ensures
        creates == needs_view_bind_group(has_view_bind_group, buffers_ready),
        creates == (!has_view_bind_group && buffers_ready),
{
    !has_view_bind_group && buffers_ready
}

/// The place of a single precision number in the total order of all of them, given by its bits. The
/// order of positive numbers is that of their bits, that of negative numbers is the reverse.
pub open spec fn total_order(bits: u32) -> int {
    if bits < 0x8000_0000 {
        bits as int
    } else {
        0x7fff_ffff - bits
    }
}

/// Whether the light with the given number dominates: no light is brighter, and no later one is as
/// bright.
pub open spec fn dominates(illuminances: Seq<u32>, light: int) -> bool {
    &&& 0 <= light < illuminances.len()
    &&& forall|other: int|
        0 <= other < illuminances.len() ==> total_order(#[trigger] illuminances[other])
            <= total_order(illuminances[light])
    &&& forall|other: int|
        light < other < illuminances.len() ==> total_order(#[trigger] illuminances[other])
            < total_order(illuminances[light])
}

/// The directional light that dominates the shading, given the bits of the illuminances.
pub fn dominant_light(illuminances: &Vec<u32>) -> (light: Option<usize>)
    ensures
        light is Some <==> illuminances@.len() > 0,
        light is Some ==> dominates(illuminances@, light->Some_0 as int),
{
    if illuminances.len() == 0 {
        return None;
    }
    let mut best: usize = 0;
    let mut i: usize = 1;
    while i < illuminances.len()
        invariant
            best < i <= illuminances@.len(),
            dominates(illuminances@.take(i as int), best as int),
        decreases illuminances@.len() - i,
    {
        let ghost seen = illuminances@.take(i as int);
        let ghost more = illuminances@.take(i + 1);
        let ghost before = best;
        assert(seen[best as int] == illuminances@[best as int]);
        if order_of(illuminances[i]) >= order_of(illuminances[best]) {
            best = i;
        }
        assert(dominates(more, best as int)) by {
            assert forall|other: int| 0 <= other < more.len() implies total_order(
                #[trigger] more[other],
            ) <= total_order(more[best as int]) by {
                if other < i {
                    assert(seen[other] == more[other]);
                }
            }
            assert forall|other: int| best < other < more.len() implies total_order(
                #[trigger] more[other],
            ) < total_order(more[best as int]) by {
                if other < i {
                    assert(seen[other] == more[other]);
                }
            }
        }
        i += 1;
    }
    assert(illuminances@.take(i as int) =~= illuminances@);
    Some(best)
}

/// The place of a single precision number in the total order of all of them.
fn order_of(bits: u32) -> (place: i64)
    ensures
        place == total_order(bits),
{
    if bits < 0x8000_0000 {
        bits as i64
    } else {
        0x7fff_ffff - bits as i64
    }
}

/// There is at most one dominant light.
pub proof fn dominant_light_is_unique(illuminances: Seq<u32>, a: int, b: int)
    requires
        dominates(illuminances, a),
        dominates(illuminances, b),
    ensures
        a == b,
{
    if a < b {
        assert(total_order(illuminances[b]) < total_order(illuminances[a]));
    }
    if b < a {
        assert(total_order(illuminances[a]) < total_order(illuminances[b]));
    }
}

/// The smaller of two levels; one that is not a number does not count.
pub open spec fn lesser(a: Option<i64>, b: Option<i64>) -> Option<i64> {
    match (a, b) {
        (Some(a), Some(b)) => Some(if a <= b {
            a
        } else {
            b
        }),
        (Some(a), None) => Some(a),
        (None, other) => other,
    }
}

/// The level of detail at which heights are sampled.
pub open spec fn sampled_lod(detail: Option<i64>, window: Option<i64>, lod_count: u32) -> int {
    match lesser(detail, window) {
        None => 0,
        Some(lod) => if lod < 0 {
            0
        } else if lod > lod_count - 1 {
            lod_count - 1
        } else {
            lod as int
        },
    }
}

/// The level of detail at which heights are sampled. `detail` is the one at which a height is no
/// larger than a pixel of the shadow map, `window` the finest one whose tiles reach far enough; they
/// are missing where they are not a number.
pub fn shadow_lod(detail: Option<i64>, window: Option<i64>, lod_count: u32) -> (lod: u32)
    requires
        lod_count > 0,
    ensures
        lod == sampled_lod(detail, window, lod_count),
{
    let lod = match (detail, window) {
        (Some(a), Some(b)) => if a <= b {
            Some(a)
        } else {
            Some(b)
        },
        (Some(a), None) => Some(a),
        (None, other) => other,
    };
    match lod {
        None => 0,
        Some(lod) => if lod < 0 {
            0
        } else if lod > lod_count as i64 - 1 {
            lod_count - 1
        } else {
            lod as u32
        },
    }
}

/// The level of detail is one that the terrain has, and never finer than either bound unless both
/// bounds are below the coarsest one.
pub proof fn shadow_lod_keeps_its_bounds(detail: i64, window: i64, lod_count: u32)
    requires
        lod_count > 0,
    ensures
        0 <= sampled_lod(Some(detail), Some(window), lod_count) < lod_count,
        detail >= 0 && window >= 0 ==> sampled_lod(Some(detail), Some(window), lod_count) <= detail
            && sampled_lod(Some(detail), Some(window), lod_count) <= window,
{
}

/// Whether the shaders read the shadow map, as a number.
pub open spec fn shadow_flag(enabled: bool, light: Option<usize>) -> u32 {
    if enabled && light is Some {
        1
    } else {
        0
    }
}

/// The shaders read the shadow map exactly if it is enabled and some light casts shadows, whichever it
/// is.
pub proof fn shadows_need_a_light(light: usize)
    ensures
        shadow_flag(true, Some(light)) == 1,
        shadow_flag(false, Some(light)) == 0,
        shadow_flag(true, None) == 0,
        shadow_flag(false, None) == 0,
{
}

/// Whether the shaders read the shadow map: it is enabled, and there is a light that casts shadows.
pub fn shadow_enabled(enabled: bool, light: Option<usize>) -> (flag: u32)
    ensures
        flag == shadow_flag(enabled, light),
        flag == if enabled && light is Some {
            1u32
        } else {
            0u32
        },
{
    if enabled && light.is_some() {
        1
    } else {
        0
    }
}

/// The number that stands for "nothing casts a shadow here" is -60000: the sign bit is set, and the
/// fraction, with its leading one, is scaled by two to the power of the exponent less its bias and the
/// ten bits of the fraction.
pub proof fn no_occluder_is_far_below()
    ensures
        NO_OCCLUDER_F16_BITS / 0x8000 == 1,
        NO_OCCLUDER_F16_BITS / 0x400 % 0x20 == 15 + 10 + 5,
        (0x400 + NO_OCCLUDER_F16_BITS % 0x400) * 32 == 60000,
{
}

/// Every pixel of a new shadow map has four half precision channels of two bytes, the low byte first:
/// the first channel says that nothing casts a shadow, the others are zero.
pub proof fn new_shadow_maps_are_lit(pixel: int)
    requires
        0 <= pixel,
    ensures
        seed_byte(8 * pixel) + 256 * seed_byte(8 * pixel + 1) == 0xfb53,
        forall|k: int| 2 <= k < 8 ==> #[trigger] seed_byte(8 * pixel + k) == 0,
{
}

/// Single precision numbers are ordered as numbers: positive ones above negative ones, positive ones by
/// their bits, and negative ones the other way round.
pub proof fn numbers_are_ordered(a: u32, b: u32)
    ensures
        a < 0x8000_0000 && b < 0x8000_0000 ==> (total_order(a) < total_order(b) <==> a < b),
        a >= 0x8000_0000 && b >= 0x8000_0000 ==> (total_order(a) < total_order(b) <==> a > b),
        a >= 0x8000_0000 && b < 0x8000_0000 ==> total_order(a) < total_order(b),
{
}

/// Among lights without negative illuminance, the dominant one is as bright as any, and the last of
/// those that are.
pub proof fn dominant_lights_are_brightest(illuminances: Seq<u32>, light: int, other: int)
    requires
        dominates(illuminances, light),
        0 <= other < illuminances.len(),
        illuminances[light] < 0x8000_0000,
        illuminances[other] < 0x8000_0000,
    ensures
        illuminances[other] <= illuminances[light],
        illuminances[other] == illuminances[light] ==> other <= light,
{
}

/// A light with negative illuminance dominates only where all have, and then none is less negative.
pub proof fn negative_lights_dominate_last(illuminances: Seq<u32>, light: int, other: int)
    requires
        dominates(illuminances, light),
        0 <= other < illuminances.len(),
        illuminances[light] >= 0x8000_0000,
    ensures
        illuminances[other] >= illuminances[light],
        illuminances[other] == illuminances[light] ==> other <= light,
{
}

/// The level of detail is the finest one of the terrain that neither bound forbids. A bound that is not
/// a number forbids nothing, but without any bound the coarsest level is taken.
pub proof fn shadow_lods_are_as_fine_as_allowed(
    detail: Option<i64>,
    window: Option<i64>,
    lod_count: u32,
)
    requires
        lod_count > 0,
    ensures
        ({
            let lod = sampled_lod(detail, window, lod_count);
            &&& 0 <= lod < lod_count
            &&& detail is Some && lod > detail->Some_0 ==> lod == 0
            &&& window is Some && lod > window->Some_0 ==> lod == 0
            &&& detail is None && window is None ==> lod == 0
            &&& lod < lod_count - 1 && (detail is Some || window is Some) ==> (detail is Some && lod
                >= detail->Some_0) || (window is Some && lod >= window->Some_0)
        }),
{
}

/// A new shadow map has eight bytes for each of its pixels, and every pixel says the same.
pub proof fn new_shadow_maps_are_uniform(map_size: u32, pixel: int, byte: int)
    requires
        0 <= pixel < map_size * map_size,
        0 <= byte < 8,
    ensures
        seed_bytes(map_size).len() == 8 * (map_size * map_size),
        seed_bytes(map_size)[8 * pixel + byte] == seed_byte(8 * pixel + byte),
        seed_bytes(map_size)[8 * pixel + byte] == seed_bytes(map_size)[byte],
{
    assert(8 * map_size * map_size == 8 * (map_size * map_size)) by (nonlinear_arith);
    assert((8 * pixel + byte) % 8 == byte % 8);
}

} // verus!
