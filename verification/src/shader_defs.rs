//! The definitions that the shaders of a terrain are compiled with.

use vstd::prelude::*;
use crate::terrain_material::{
    def_if, def_table, defs_of, filter_def, fragment_defs_of, shared_defs, texts, vertex_defs_of,
    ShadowFilterMethod, TerrainPipelineFlags, TerrainPipelineKey,
};

verus! {

/// What tells the names of shader definitions apart: their length, and their first and last letters.
spec fn mark(name: Seq<char>) -> (nat, char, char) {
    (name.len(), name[0], name[name.len() - 1])
}

/// The views of texts are those of each text, in order.
pub proof fn texts_stay_in_order(strings: Seq<&str>, i: int)
    ensures
        texts(strings).len() == strings.len(),
        0 <= i < strings.len() ==> texts(strings)[i] == strings[i]@,
{
}

/// The marks of the names that flags stand for.
proof fn marks_of_flags()
    ensures
        mark("SPHERICAL"@) == (9nat, 'S', 'L'),
        mark("SHOW_DATA_LOD"@) == (13nat, 'S', 'D'),
        mark("SHOW_GEOMETRY_LOD"@) == (17nat, 'S', 'D'),
        mark("SHOW_TILE_TREE"@) == (14nat, 'S', 'E'),
        mark("SHOW_PIXELS"@) == (11nat, 'S', 'S'),
        mark("SHOW_UV"@) == (7nat, 'S', 'V'),
        mark("SHOW_NORMALS"@) == (12nat, 'S', 'S'),
        mark("MORPH"@) == (5nat, 'M', 'H'),
        mark("BLEND"@) == (5nat, 'B', 'D'),
        mark("TILE_TREE_LOD"@) == (13nat, 'T', 'D'),
        mark("LIGHTING"@) == (8nat, 'L', 'G'),
        mark("SAMPLE_GRAD"@) == (11nat, 'S', 'D'),
        mark("HIGH_PRECISION"@) == (14nat, 'H', 'N'),
        mark("TEST1"@) == (5nat, 'T', '1'),
        mark("TEST2"@) == (5nat, 'T', '2'),
        mark("TEST3"@) == (5nat, 'T', '3'),
        mark("HDR"@) == (3nat, 'H', 'R'),
        mark("ATMOSPHERE"@) == (10nat, 'A', 'E'),
        mark("ENVIRONMENT_MAP"@) == (15nat, 'E', 'P'),
        mark("TERRAIN_SHADOW"@) == (14nat, 'T', 'W'),
        mark("DEFERRED_PREPASS"@) == (16nat, 'D', 'S'),
{
    reveal_strlit("SPHERICAL");
    reveal_strlit("SHOW_DATA_LOD");
    reveal_strlit("SHOW_GEOMETRY_LOD");
    reveal_strlit("SHOW_TILE_TREE");
    reveal_strlit("SHOW_PIXELS");
    reveal_strlit("SHOW_UV");
    reveal_strlit("SHOW_NORMALS");
    reveal_strlit("MORPH");
    reveal_strlit("BLEND");
    reveal_strlit("TILE_TREE_LOD");
    reveal_strlit("LIGHTING");
    reveal_strlit("SAMPLE_GRAD");
    reveal_strlit("HIGH_PRECISION");
    reveal_strlit("TEST1");
    reveal_strlit("TEST2");
    reveal_strlit("TEST3");
    reveal_strlit("HDR");
    reveal_strlit("ATMOSPHERE");
    reveal_strlit("ENVIRONMENT_MAP");
    reveal_strlit("TERRAIN_SHADOW");
    reveal_strlit("DEFERRED_PREPASS");
}

/// The marks of the other names.
proof fn marks_of_others()
    ensures
        mark("MULTISAMPLED"@) == (12nat, 'M', 'D'),
        mark("MULTIPLE_LIGHT_PROBES_IN_ARRAY"@) == (30nat, 'M', 'Y'),
        mark("SHADOW_FILTER_METHOD_HARDWARE_2X2"@) == (33nat, 'S', '2'),
        mark("SHADOW_FILTER_METHOD_GAUSSIAN"@) == (29nat, 'S', 'N'),
        mark("SHADOW_FILTER_METHOD_TEMPORAL"@) == (29nat, 'S', 'L'),
        mark("VERTEX"@) == (6nat, 'V', 'X'),
        mark("FRAGMENT"@) == (8nat, 'F', 'T'),
{
    reveal_strlit("MULTISAMPLED");
    reveal_strlit("MULTIPLE_LIGHT_PROBES_IN_ARRAY");
    reveal_strlit("SHADOW_FILTER_METHOD_HARDWARE_2X2");
    reveal_strlit("SHADOW_FILTER_METHOD_GAUSSIAN");
    reveal_strlit("SHADOW_FILTER_METHOD_TEMPORAL");
    reveal_strlit("VERTEX");
    reveal_strlit("FRAGMENT");
}

/// Names with different marks are different, so a name stands in at most one row of the table.
proof fn rows_have_their_own_names(i: int, j: int)
    requires
        0 <= i < 21,
        0 <= j < 21,
        mark(def_table()[i].1) == mark(def_table()[j].1),
    ensures
        i == j,
{
    marks_of_flags();
}

/// A name that is in none of the first rows is not among their definitions.
proof fn missing_rows_are_not_defined(bits: u32, count: nat, name: Seq<char>)
    requires
        forall|i: int| 0 <= i < count ==> (#[trigger] def_table()[i]).1 != name,
    ensures
        !defs_of(bits, count).contains(name),
    decreases count,
{
    if count > 0 {
        let front = defs_of(bits, (count - 1) as nat);
        missing_rows_are_not_defined(bits, (count - 1) as nat, name);
        let row = def_table()[count - 1];
        if bits & row.0 == row.0 && defs_of(bits, count).contains(name) {
            let i = choose|i: int|
                0 <= i < defs_of(bits, count).len() && defs_of(bits, count)[i] == name;
            if i < front.len() {
                assert(front[i] == name);
            }
        }
    }
}

/// The name of a row is defined exactly if its flag is set.
proof fn rows_are_defined_by_their_flags(bits: u32, count: nat, row: int)
    requires
        0 <= row < count <= 21,
    ensures
        defs_of(bits, count).contains(def_table()[row].1) <==> bits & def_table()[row].0
            == def_table()[row].0,
    decreases count,
{
    let name = def_table()[row].1;
    let front = defs_of(bits, (count - 1) as nat);
    let last = def_table()[count - 1];
    if row == count - 1 {
        assert forall|i: int| 0 <= i < count - 1 implies (#[trigger] def_table()[i]).1 != name by {
            if def_table()[i].1 == name {
                rows_have_their_own_names(i, row);
            }
        }
        missing_rows_are_not_defined(bits, (count - 1) as nat, name);
        if bits & last.0 == last.0 {
            assert(front.push(last.1)[front.len() as int] == name);
        }
    } else {
        rows_are_defined_by_their_flags(bits, (count - 1) as nat, row);
        if last.1 == name {
            rows_have_their_own_names(count - 1, row);
        }
        if bits & last.0 == last.0 {
            let all = front.push(last.1);
            if front.contains(name) {
                let i = choose|i: int| 0 <= i < front.len() && front[i] == name;
                assert(all[i] == name);
            }
            if all.contains(name) {
                let i = choose|i: int| 0 <= i < all.len() && all[i] == name;
                assert(front[i] == name);
            }
        }
    }
}

/// Every flag defines one name in the shaders, and only while it is set. A wireframe defines nothing,
/// since it is no matter of the shaders.
pub proof fn flags_define_their_names(flags: TerrainPipelineFlags)
    ensures
        flags.defs().contains("SPHERICAL"@) <==> flags.has(0x1),
        flags.defs().contains("SHOW_DATA_LOD"@) <==> flags.has(0x4),
        flags.defs().contains("SHOW_GEOMETRY_LOD"@) <==> flags.has(0x8),
        flags.defs().contains("SHOW_TILE_TREE"@) <==> flags.has(0x10),
        flags.defs().contains("SHOW_PIXELS"@) <==> flags.has(0x20),
        flags.defs().contains("SHOW_UV"@) <==> flags.has(0x40),
        flags.defs().contains("SHOW_NORMALS"@) <==> flags.has(0x80),
        flags.defs().contains("MORPH"@) <==> flags.has(0x100),
        flags.defs().contains("BLEND"@) <==> flags.has(0x200),
        flags.defs().contains("TILE_TREE_LOD"@) <==> flags.has(0x400),
        flags.defs().contains("LIGHTING"@) <==> flags.has(0x800),
        flags.defs().contains("SAMPLE_GRAD"@) <==> flags.has(0x1000),
        flags.defs().contains("HIGH_PRECISION"@) <==> flags.has(0x2000),
        flags.defs().contains("TEST1"@) <==> flags.has(0x4000),
        flags.defs().contains("TEST2"@) <==> flags.has(0x8000),
        flags.defs().contains("TEST3"@) <==> flags.has(0x10000),
        flags.defs().contains("HDR"@) <==> flags.has(0x20000),
        flags.defs().contains("ATMOSPHERE"@) <==> flags.has(0x40000),
        flags.defs().contains("ENVIRONMENT_MAP"@) <==> flags.has(0x80000),
        flags.defs().contains("TERRAIN_SHADOW"@) <==> flags.has(0x100000),
        flags.defs().contains("DEFERRED_PREPASS"@) <==> flags.has(0x200000),
{
    rows_are_defined_by_their_flags(flags.bits, 21, 0);
    rows_are_defined_by_their_flags(flags.bits, 21, 1);
    rows_are_defined_by_their_flags(flags.bits, 21, 2);
    rows_are_defined_by_their_flags(flags.bits, 21, 3);
    rows_are_defined_by_their_flags(flags.bits, 21, 4);
    rows_are_defined_by_their_flags(flags.bits, 21, 5);
    rows_are_defined_by_their_flags(flags.bits, 21, 6);
    rows_are_defined_by_their_flags(flags.bits, 21, 7);
    rows_are_defined_by_their_flags(flags.bits, 21, 8);
    rows_are_defined_by_their_flags(flags.bits, 21, 9);
    rows_are_defined_by_their_flags(flags.bits, 21, 10);
    rows_are_defined_by_their_flags(flags.bits, 21, 11);
    rows_are_defined_by_their_flags(flags.bits, 21, 12);
    rows_are_defined_by_their_flags(flags.bits, 21, 13);
    rows_are_defined_by_their_flags(flags.bits, 21, 14);
    rows_are_defined_by_their_flags(flags.bits, 21, 15);
    rows_are_defined_by_their_flags(flags.bits, 21, 16);
    rows_are_defined_by_their_flags(flags.bits, 21, 17);
    rows_are_defined_by_their_flags(flags.bits, 21, 18);
    rows_are_defined_by_their_flags(flags.bits, 21, 19);
    rows_are_defined_by_their_flags(flags.bits, 21, 20);
}

/// A name that no row of the table has is not defined by any flag.
proof fn other_names_have_no_flag(flags: TerrainPipelineFlags, name: Seq<char>)
    requires
        forall|i: int| 0 <= i < 21 ==> mark(name) != mark((#[trigger] def_table()[i]).1),
    ensures
        !flags.defs().contains(name),
{
    missing_rows_are_not_defined(flags.bits, 21, name);
}

/// The names that no flag stands for are not defined by any flag.
proof fn other_names_are_not_flags(flags: TerrainPipelineFlags)
    ensures
        !flags.defs().contains("MULTISAMPLED"@),
        !flags.defs().contains("MULTIPLE_LIGHT_PROBES_IN_ARRAY"@),
        !flags.defs().contains("SHADOW_FILTER_METHOD_HARDWARE_2X2"@),
        !flags.defs().contains("SHADOW_FILTER_METHOD_GAUSSIAN"@),
        !flags.defs().contains("SHADOW_FILTER_METHOD_TEMPORAL"@),
        !flags.defs().contains("VERTEX"@),
        !flags.defs().contains("FRAGMENT"@),
{
    marks_of_flags();
    marks_of_others();
    other_names_have_no_flag(flags, "MULTISAMPLED"@);
    other_names_have_no_flag(flags, "MULTIPLE_LIGHT_PROBES_IN_ARRAY"@);
    other_names_have_no_flag(flags, "SHADOW_FILTER_METHOD_HARDWARE_2X2"@);
    other_names_have_no_flag(flags, "SHADOW_FILTER_METHOD_GAUSSIAN"@);
    other_names_have_no_flag(flags, "SHADOW_FILTER_METHOD_TEMPORAL"@);
    other_names_have_no_flag(flags, "VERTEX"@);
    other_names_have_no_flag(flags, "FRAGMENT"@);
}

/// What a sequence made of two contains is contained in one of them.
proof fn joined_names(a: Seq<Seq<char>>, b: Seq<Seq<char>>, name: Seq<char>)
    ensures
        (a + b).contains(name) <==> a.contains(name) || b.contains(name),
{
    let all = a + b;
    if all.contains(name) {
        let i = choose|i: int| 0 <= i < all.len() && all[i] == name;
        if i < a.len() {
            assert(a[i] == name);
        } else {
            assert(b[i - a.len()] == name);
        }
    }
    if a.contains(name) {
        let i = choose|i: int| 0 <= i < a.len() && a[i] == name;
        assert(all[i] == name);
    }
    if b.contains(name) {
        let i = choose|i: int| 0 <= i < b.len() && b[i] == name;
        assert(all[a.len() + i] == name);
    }
}

/// A list of at most one name contains that name if it is on, and no other.
pub proof fn single_names_are_defined_if_on(on: bool, name: Seq<char>, other: Seq<char>)
    ensures
        def_if(on, name).contains(other) <==> on && name == other,
{
    if on {
        assert(def_if(on, name)[0] == name);
    }
}

/// The shaders know the filter of the shadow maps by its name; a filter that they do not know has none.
proof fn filters_have_names(method: ShadowFilterMethod, other: Seq<char>)
    ensures
        filter_def(method).contains(other) <==> match method {
            ShadowFilterMethod::Hardware2x2 => other == "SHADOW_FILTER_METHOD_HARDWARE_2X2"@,
            ShadowFilterMethod::Gaussian => other == "SHADOW_FILTER_METHOD_GAUSSIAN"@,
            ShadowFilterMethod::Temporal => other == "SHADOW_FILTER_METHOD_TEMPORAL"@,
            ShadowFilterMethod::Other => false,
        },
{
    let names = filter_def(method);
    if !(method is Other) {
        assert(names[0] == names.first());
    }
}

/// Whether one of the shaders of a pipeline is given a name.
proof fn shared_names(key: TerrainPipelineKey, binding_arrays: bool, name: Seq<char>)
    ensures
        shared_defs(key, binding_arrays).contains(name) <==> key.flags.defs().contains(name) || (
        key.flags.samples() > 1 && name == "MULTISAMPLED"@) || (binding_arrays && name
            == "MULTIPLE_LIGHT_PROBES_IN_ARRAY"@) || filter_def(key.shadow_filter_method).contains(
            name,
        ),
{
    let named = key.flags.defs();
    let sampled = def_if(key.flags.samples() > 1, "MULTISAMPLED"@);
    let probed = def_if(binding_arrays, "MULTIPLE_LIGHT_PROBES_IN_ARRAY"@);
    joined_names(named, sampled, name);
    joined_names(named + sampled, probed, name);
    joined_names(named + sampled + probed, filter_def(key.shadow_filter_method), name);
    single_names_are_defined_if_on(key.flags.samples() > 1, "MULTISAMPLED"@, name);
    single_names_are_defined_if_on(binding_arrays, "MULTIPLE_LIGHT_PROBES_IN_ARRAY"@, name);
}

/// Both shaders of a pipeline are told of several samples, of binding arrays that can be used, of the
/// filter of the shadow maps, and of what the flags define. Only the vertex shader is called one, and
/// only the fragment shader is.
pub proof fn shaders_know_their_pipeline(
    key: TerrainPipelineKey,
    binding_arrays: bool,
    defs: Seq<Seq<char>>,
)
    requires
        defs == vertex_defs_of(key, binding_arrays) || defs == fragment_defs_of(key, binding_arrays),
    ensures
        defs.contains("MULTISAMPLED"@) <==> key.flags.samples() > 1,
        defs.contains("MULTIPLE_LIGHT_PROBES_IN_ARRAY"@) <==> binding_arrays,
        defs.contains("SHADOW_FILTER_METHOD_HARDWARE_2X2"@) <==> key.shadow_filter_method
            is Hardware2x2,
        defs.contains("SHADOW_FILTER_METHOD_GAUSSIAN"@) <==> key.shadow_filter_method is Gaussian,
        defs.contains("SHADOW_FILTER_METHOD_TEMPORAL"@) <==> key.shadow_filter_method is Temporal,
        defs.contains("VERTEX"@) <==> defs == vertex_defs_of(key, binding_arrays),
        defs.contains("FRAGMENT"@) <==> defs == fragment_defs_of(key, binding_arrays),
        forall|name: Seq<char>| #[trigger]
            key.flags.defs().contains(name) ==> defs.contains(name),
        defs.len() == key.flags.defs().len() + (if key.flags.samples() > 1 {
            1int
        } else {
            0int
        }) + (if binding_arrays {
            1int
        } else {
            0int
        }) + (if key.shadow_filter_method is Other {
            0int
        } else {
            1int
        }) + 1,
{
    other_names_are_not_flags(key.flags);
    marks_of_others();
    let shared = shared_defs(key, binding_arrays);
    let stage = defs.last();
    assert(defs =~= shared + seq![stage]);
    assert(seq![stage][0] == stage);
    shared_names(key, binding_arrays, "MULTISAMPLED"@);
    filters_have_names(key.shadow_filter_method, "MULTISAMPLED"@);
    joined_names(shared, seq![stage], "MULTISAMPLED"@);
    shared_names(key, binding_arrays, "MULTIPLE_LIGHT_PROBES_IN_ARRAY"@);
    filters_have_names(key.shadow_filter_method, "MULTIPLE_LIGHT_PROBES_IN_ARRAY"@);
    joined_names(shared, seq![stage], "MULTIPLE_LIGHT_PROBES_IN_ARRAY"@);
    shared_names(key, binding_arrays, "SHADOW_FILTER_METHOD_HARDWARE_2X2"@);
    filters_have_names(key.shadow_filter_method, "SHADOW_FILTER_METHOD_HARDWARE_2X2"@);
    joined_names(shared, seq![stage], "SHADOW_FILTER_METHOD_HARDWARE_2X2"@);
    shared_names(key, binding_arrays, "SHADOW_FILTER_METHOD_GAUSSIAN"@);
    filters_have_names(key.shadow_filter_method, "SHADOW_FILTER_METHOD_GAUSSIAN"@);
    joined_names(shared, seq![stage], "SHADOW_FILTER_METHOD_GAUSSIAN"@);
    shared_names(key, binding_arrays, "SHADOW_FILTER_METHOD_TEMPORAL"@);
    filters_have_names(key.shadow_filter_method, "SHADOW_FILTER_METHOD_TEMPORAL"@);
    joined_names(shared, seq![stage], "SHADOW_FILTER_METHOD_TEMPORAL"@);
    shared_names(key, binding_arrays, "VERTEX"@);
    filters_have_names(key.shadow_filter_method, "VERTEX"@);
    joined_names(shared, seq![stage], "VERTEX"@);
    shared_names(key, binding_arrays, "FRAGMENT"@);
    filters_have_names(key.shadow_filter_method, "FRAGMENT"@);
    joined_names(shared, seq![stage], "FRAGMENT"@);
    assert forall|name: Seq<char>| #[trigger] key.flags.defs().contains(name) implies defs.contains(
        name,
    ) by {
        shared_names(key, binding_arrays, name);
        joined_names(shared, seq![stage], name);
    }
}

/// The definitions of the first rows are names of those rows, each at most once and in their order.
proof fn definitions_come_from_rows(bits: u32, count: nat, i: int) -> (row: int)
    requires
        count <= 21,
        0 <= i < defs_of(bits, count).len(),
    ensures
        i <= row < count,
        defs_of(bits, count)[i] == def_table()[row].1,
        bits & def_table()[row].0 == def_table()[row].0,
        defs_of(bits, row as nat).len() == i,
    decreases count,
{
    let front = defs_of(bits, (count - 1) as nat);
    if i < front.len() {
        definitions_come_from_rows(bits, (count - 1) as nat, i)
    } else {
        definitions_are_rows(bits, (count - 1) as nat);
        count - 1
    }
}

/// There are no more definitions than rows.
proof fn definitions_are_rows(bits: u32, count: nat)
    ensures
        defs_of(bits, count).len() <= count,
    decreases count,
{
    if count > 0 {
        definitions_are_rows(bits, (count - 1) as nat);
    }
}

/// No name is defined twice by the flags.
pub proof fn names_are_defined_once(flags: TerrainPipelineFlags, i: int, j: int)
    requires
        0 <= i < flags.defs().len(),
        0 <= j < flags.defs().len(),
    ensures
        flags.defs()[i] == flags.defs()[j] ==> i == j,
        flags.defs().len() <= 21,
{
    let a = definitions_come_from_rows(flags.bits, 21, i);
    let b = definitions_come_from_rows(flags.bits, 21, j);
    definitions_are_rows(flags.bits, 21);
    if flags.defs()[i] == flags.defs()[j] {
        rows_have_their_own_names(a, b);
    }
}

/// Every name that the flags define is the name of a flag that is set.
pub proof fn defined_names_have_a_flag(flags: TerrainPipelineFlags, i: int) -> (flag: u32)
    requires
        0 <= i < flags.defs().len(),
    ensures
        flags.has(flag),
        exists|row: int|
            0 <= row < 21 && #[trigger] def_table()[row] == (flag, flags.defs()[i]),
{
    let row = definitions_come_from_rows(flags.bits, 21, i);
    assert(def_table()[row] == (def_table()[row].0, flags.defs()[i]));
    def_table()[row].0
}

} // verus!
