//! The shaders of the terrain.

use vstd::prelude::*;
use vstd::string::*;
use crate::attachment::{AttachmentLabel, LabelView};
use crate::plugin::label_views;
use crate::text::{
    absent_patterns_are_not_replaced, patterns_are_replaced_from_the_left, replace_first, replaced,
};

verus! {

pub const DEFAULT_VERTEX_SHADER: &'static str =
    "embedded://bevy_terrain/shaders/render/vertex.wesl";

pub const DEFAULT_FRAGMENT_SHADER: &'static str =
    "embedded://bevy_terrain/shaders/render/fragment.wesl";

pub const PREPARE_PREPASS_SHADER: &'static str =
    "embedded://bevy_terrain/shaders/tiling_prepass/prepare_prepass.wesl";

pub const REFINE_TILES_SHADER: &'static str =
    "embedded://bevy_terrain/shaders/tiling_prepass/refine_tiles.wesl";

pub const PICKING_SHADER: &'static str = "embedded://bevy_terrain/shaders/picking.wesl";

pub const DEPTH_COPY_SHADER: &'static str = "embedded://bevy_terrain/shaders/depth_copy.wesl";

pub const DEFERRED_COMPOSITE_SHADER: &'static str =
    "embedded://bevy_terrain/shaders/deferred_composite.wesl";

pub const TERRAIN_MOTION_SHADER: &'static str =
    "embedded://bevy_terrain/shaders/terrain_motion.wesl";

pub const MIP_SHADER: &'static str = "embedded://bevy_terrain/shaders/mipmap.wesl";

pub const SHADOW_MAP_SHADER: &'static str = "embedded://bevy_terrain/shaders/shadow_map.wesl";

/// The number of attachments that the shaders bind.
pub const BINDING_COUNT: usize = 8;

/// The label of a binding: that of the attachment with the same number, if there is one.
pub open spec fn binding_label(labels: Seq<LabelView>, number: int) -> LabelView {
    if number < labels.len() {
        labels[number]
    } else {
        LabelView::Empty(number as usize)
    }
}

/// What stands for the name of a binding in the source of the bindings: its number in braces.
pub open spec fn placeholder(number: int) -> Seq<char> {
    seq!['{', (number + 48) as u8 as char, '}']
}

/// The source of the bindings after the names of the first `count` bindings have been filled in. A
/// binding has two places for its name, the first ones in the source.
pub open spec fn filled(source: Seq<char>, labels: Seq<LabelView>, count: nat) -> Seq<char>
    decreases count,
{
    if count == 0 {
        source
    } else {
        let number = count - 1;
        replaced(
            filled(source, labels, number as nat),
            placeholder(number),
            binding_label(labels, number).name(),
            2,
        )
    }
}

/// The number of a binding in braces.
fn placeholder_text(number: usize) -> (text: String)
    requires
        number < BINDING_COUNT,
    ensures
        text@ == placeholder(number as int),
{
    let mut text = "{".to_owned();
    let digit: u8 = number as u8 + 48;
    text.push(digit as char);
    text.push('}');
    proof {
        reveal_strlit("{");
    }
    assert(text@ =~= placeholder(number as int));
    text
}

/// The source of the bindings with the names of the attachments filled in. Bindings without an
/// attachment are named after their number.
pub fn load_bindings_shader(source: &str, attachments: &Vec<AttachmentLabel>) -> (filled_in: String)
    requires
        forall|i: int|
            0 <= i < attachments@.len() && i < BINDING_COUNT ==> (
            #[trigger] attachments@[i])@.has_name(),
    ensures
        filled_in@ == filled(source@, label_views(attachments@), BINDING_COUNT as nat),
{
    let ghost labels = label_views(attachments@);
    let mut text = source.to_owned();
    let mut i: usize = 0;
    while i < BINDING_COUNT
        invariant
            i <= BINDING_COUNT,
            labels == label_views(attachments@),
            forall|i: int|
                0 <= i < attachments@.len() && i < BINDING_COUNT ==> (
                #[trigger] attachments@[i])@.has_name(),
            text@ == filled(source@, labels, i as nat),
        decreases BINDING_COUNT - i,
    {
        let label = if i < attachments.len() {
            attachments[i].clone()
        } else {
            AttachmentLabel::Empty(i)
        };
        assert(label@ == binding_label(labels, i as int));
        text = replace_first(
            text.as_str(),
            placeholder_text(i).as_str(),
            label.name().as_str(),
            2,
        );
        i += 1;
    }
    text
}

/// The place of a name is its number between braces, so different bindings have different places.
pub proof fn places_show_their_number(number: int)
    requires
        0 <= number < 8,
    ensures
        placeholder(number).len() == 3,
        placeholder(number)[0] == '{',
        placeholder(number)[1] as int == '0' as int + number,
        placeholder(number)[2] == '}',
{
}

/// A binding is named after the attachment with the same number, or else by its own number.
pub proof fn bindings_are_named_in_order(labels: Seq<LabelView>, label: LabelView, number: int)
    requires
        0 <= number <= labels.len() < usize::MAX,
    ensures
        binding_label(labels, labels.len() as int) == LabelView::Empty(labels.len() as usize),
        binding_label(labels.push(label), labels.len() as int) == label,
        number < labels.len() ==> binding_label(labels.push(label), number) == binding_label(
            labels,
            number,
        ),
{
}

/// Whether a place for a name may begin at a position.
pub open spec fn opens(text: Seq<char>, at: int) -> bool {
    0 <= at < text.len() && text[at] == '{'
}

/// Whether all places for names in a text are those of one binding.
pub open spec fn only_places_of(text: Seq<char>, number: int) -> bool {
    forall|at: int| #[trigger]
        opens(text, at) ==> at + 1 < text.len() && text[at + 1] as int == '0' as int + number
}

/// A name is not filled in where all places are those of another binding.
proof fn other_places_are_kept(text: Seq<char>, number: int, other: int, name: Seq<char>)
    requires
        0 <= number < BINDING_COUNT,
        0 <= other < BINDING_COUNT,
        number != other,
        only_places_of(text, number),
    ensures
        replaced(text, placeholder(other), name, 2) == text,
{
    let place = placeholder(other);
    assert forall|i: int| 0 <= i && i + place.len() <= text.len() implies #[trigger] text.subrange(
        i,
        i + place.len(),
    ) != place by {
        let here = text.subrange(i, i + place.len());
        assert(here[0] == text[i] && here[1] == text[i + 1]);
        places_show_their_number(other);
        if here == place {
            assert(opens(text, i));
        }
    }
    absent_patterns_are_not_replaced(text, place, name, 2);
}

/// The first names fill nothing in where all places are those of a later binding.
proof fn earlier_names_fill_nothing_in(
    source: Seq<char>,
    labels: Seq<LabelView>,
    number: int,
    count: nat,
)
    requires
        0 <= number < BINDING_COUNT,
        count <= number,
        only_places_of(source, number),
    ensures
        filled(source, labels, count) == source,
    decreases count,
{
    if count > 0 {
        earlier_names_fill_nothing_in(source, labels, number, (count - 1) as nat);
        other_places_are_kept(source, number, count - 1, binding_label(labels, count - 1).name());
    }
}

/// The later names fill nothing in where all places are those of an earlier binding.
proof fn later_names_fill_nothing_in(
    source: Seq<char>,
    labels: Seq<LabelView>,
    number: int,
    count: nat,
)
    requires
        0 <= number < count <= BINDING_COUNT,
        only_places_of(filled(source, labels, (number + 1) as nat), number),
    ensures
        filled(source, labels, count) == filled(source, labels, (number + 1) as nat),
    decreases count,
{
    if number + 1 < count {
        later_names_fill_nothing_in(source, labels, number, (count - 1) as nat);
        let text = filled(source, labels, (count - 1) as nat);
        other_places_are_kept(text, number, count - 1, binding_label(labels, count - 1).name());
    }
}

/// The first two places of every binding are filled in with its name, and what stands around them is
/// kept, further places included.
pub proof fn names_are_filled_in(
    before: Seq<char>,
    middle: Seq<char>,
    after: Seq<char>,
    labels: Seq<LabelView>,
    number: int,
)
    requires
        0 <= number < 8,
        !before.contains('{'),
        !middle.contains('{'),
        only_places_of(after, number),
        !binding_label(labels, number).name().contains('{'),
    ensures
        ({
            let name = if number < labels.len() {
                labels[number].name()
            } else {
                LabelView::Empty(number as usize).name()
            };
            let place = seq!['{', ('0' as int + number) as u8 as char, '}'];
            filled(
                before + place + (middle + place + after),
                labels,
                BINDING_COUNT as nat,
            ) == before + name + (middle + name + after)
        }),
{
    let name = binding_label(labels, number).name();
    let place = placeholder(number);
    let source = before + place + (middle + place + after);
    places_show_their_number(number);
    assert forall|at: int| #[trigger] opens(source, at) implies at + 1 < source.len() && source[at
        + 1] as int == '0' as int + number by {
        let first = before.len() as int;
        let second = first + 3 + middle.len();
        if at < first {
            assert(source[at] == before[at]);
        } else if at < first + 3 {
            assert(source[at] == place[at - first]);
            assert(source[first + 1] == place[1]);
        } else if at < second {
            assert(source[at] == middle[at - first - 3]);
        } else if at < second + 3 {
            assert(source[at] == place[at - second]);
            assert(source[second + 1] == place[1]);
        } else {
            assert(source[at] == after[at - second - 3]);
            assert(opens(after, at - second - 3));
        }
    }
    earlier_names_fill_nothing_in(source, labels, number, number as nat);
    patterns_are_replaced_from_the_left(before, place, middle + place + after, name, 2);
    patterns_are_replaced_from_the_left(middle, place, after, name, 1);
    let done = before + name + (middle + name + after);
    assert(filled(source, labels, (number + 1) as nat) =~= done);
    assert forall|at: int| #[trigger] opens(done, at) implies at + 1 < done.len() && done[at
        + 1] as int == '0' as int + number by {
        let first = before.len() as int;
        let second = first + name.len() + middle.len();
        if at < first {
            assert(done[at] == before[at]);
        } else if at < first + name.len() {
            assert(done[at] == name[at - first]);
        } else if at < second {
            assert(done[at] == middle[at - first - name.len()]);
        } else if at < second + name.len() {
            assert(done[at] == name[at - second]);
        } else {
            assert(done[at] == after[at - second - name.len()]);
            assert(opens(after, at - second - name.len()));
        }
    }
    later_names_fill_nothing_in(source, labels, number, BINDING_COUNT as nat);
}

} // verus!
