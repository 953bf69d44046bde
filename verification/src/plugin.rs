//! The settings of the terrain plugin.

use vstd::prelude::*;
use crate::attachment::{AttachmentLabel, LabelView};

verus! {

/// The settings that all terrains share.
pub struct TerrainSettings {
    /// The attachments that the shaders bind.
    pub attachments: Vec<AttachmentLabel>,
    /// The number of slots of every atlas.
    pub atlas_size: u32,
}

/// The labels that a list of attachments stands for.
pub open spec fn label_views(labels: Seq<AttachmentLabel>) -> Seq<LabelView> {
    labels.map_values(|label: AttachmentLabel| label@)
}

/// The labels stay in the order of the attachments.
pub proof fn labels_stay_in_order(labels: Seq<AttachmentLabel>, i: int)
    ensures
        label_views(labels).len() == labels.len(),
        0 <= i < labels.len() ==> label_views(labels)[i] == labels[i]@,
{
}

impl Default for TerrainSettings {
    fn default() -> (settings: Self)
        ensures
            label_views(settings.attachments@) == seq![LabelView::Height],
            settings.attachments@.len() == 1,
            settings.attachments@[0] is Height,
            settings.atlas_size == 1028,
    {
        let mut attachments: Vec<AttachmentLabel> = Vec::new();
        attachments.push(AttachmentLabel::Height);
        assert(label_views(attachments@) =~= seq![LabelView::Height]);
        TerrainSettings { attachments, atlas_size: 1028 }
    }
}

impl TerrainSettings {
    /// The default settings with further attachments behind the height.
    pub fn new(custom_attachments: Vec<&str>) -> (settings: Self)
        ensures
            label_views(settings.attachments@) == seq![LabelView::Height]
                + custom_attachments@.map_values(|name: &str| LabelView::Custom(name@)),
            settings.attachments@.len() == 1 + custom_attachments@.len(),
            settings.attachments@[0]@ is Height,
            forall|i: int|
                0 <= i < custom_attachments@.len() ==> settings.attachments@[i + 1]@
                    == LabelView::Custom((#[trigger] custom_attachments@[i])@),
            settings.atlas_size == 1028,
    {
        let mut attachments: Vec<AttachmentLabel> = Vec::new();
        attachments.push(AttachmentLabel::Height);
        let ghost custom = custom_attachments@.map_values(|name: &str| LabelView::Custom(name@));
        assert(label_views(attachments@) =~= seq![LabelView::Height] + custom.take(0));
        let mut i: usize = 0;
        while i < custom_attachments.len()
            invariant
                i <= custom_attachments@.len(),
                custom == custom_attachments@.map_values(|name: &str| LabelView::Custom(name@)),
                label_views(attachments@) == seq![LabelView::Height] + custom.take(i as int),
            decreases custom_attachments@.len() - i,
        {
            let ghost before = attachments@;
            attachments.push(AttachmentLabel::Custom(custom_attachments[i].to_owned()));
            assert(label_views(attachments@) =~= label_views(before).push(custom[i as int]));
            assert(custom.take(i + 1) =~= custom.take(i as int).push(custom[i as int]));
            assert(label_views(attachments@) =~= seq![LabelView::Height] + custom.take(i + 1));
            i += 1;
        }
        assert(custom.take(i as int) =~= custom);
        proof {
            labels_stay_in_order(attachments@, 0);
            assert forall|i: int| 0 <= i < custom_attachments@.len() implies attachments@[i + 1]@
                == LabelView::Custom((#[trigger] custom_attachments@[i])@) by {
                labels_stay_in_order(attachments@, i + 1);
                assert(label_views(attachments@)[i + 1] == custom[i]);
            }
        }
        TerrainSettings { attachments, atlas_size: 1028 }
    }
}

} // verus!
