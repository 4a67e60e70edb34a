//! Device-level and resource-level tags, merged onto a caller-supplied tag
//! set. A later write for a key overwrites the earlier one, so resource
//! tags take precedence over device tags of the same name.

use vstd::prelude::*;
use crate::api::Device;
use crate::api::Resource;
use crate::strmap::StrMap;
use crate::text::first_dot_segment;
use crate::text::spec_first_dot_segment;

verus! {

broadcast use vstd::string::group_string_axioms;

/// The tag set's mapping, at the level of characters.
pub open spec fn spec_tags_view(t: StrMap<String>) -> Map<Seq<char>, Seq<char>> {
    t@.map_values(|v: String| v@)
}

/// Inserting into a tag set inserts the characters into its view.
pub proof fn lemma_tags_view_insert(m: Map<Seq<char>, String>, key: Seq<char>, value: String)
    ensures
        m.insert(key, value).map_values(|v: String| v@) == m.map_values(|v: String| v@).insert(
            key,
            value@,
        ),
{
    assert(m.insert(key, value).map_values(|v: String| v@) =~= m.map_values(
        |v: String| v@,
    ).insert(key, value@));
}

/// The text of a boolean.
pub open spec fn spec_bool_text(b: bool) -> Seq<char> {
    if b {
        "true"@
    } else {
        "false"@
    }
}

/// Renders a boolean as text.
pub fn bool_text(b: bool) -> (r: String)
    ensures
        r@ == spec_bool_text(b),
{
    if b {
        "true".to_owned()
    } else {
        "false".to_owned()
    }
}

/// A sequence of key-value pairs merged onto a mapping, in order.
pub open spec fn spec_insert_pairs(
    m: Map<Seq<char>, Seq<char>>,
    pairs: Seq<(String, String)>,
) -> Map<Seq<char>, Seq<char>>
    decreases pairs.len(),
{
    if pairs.len() == 0 {
        m
    } else {
        spec_insert_pairs(m, pairs.drop_last()).insert(pairs.last().0@, pairs.last().1@)
    }
}

/// The device-level tags merged onto a base tag set: the device identifier,
/// its description where it has one, its active flag, and its hardware
/// identifiers.
pub open spec fn spec_device_tags(
    base: Map<Seq<char>, Seq<char>>,
    device: Device,
) -> Map<Seq<char>, Seq<char>> {
    let m = base.insert("device-id"@, device.id@);
    let m = match device.description {
        Some(d) => m.insert("device"@, d@),
        None => m,
    };
    let m = m.insert("device-active"@, spec_bool_text(device.active));
    let m = m.insert("hardware-id"@, device.hardware_id@);
    spec_insert_pairs(m, device.hardware_ids@)
}

/// Merges a device's tags onto a tag set.
pub fn add_tags_for_device(tags: &mut StrMap<String>, device: &Device)
    requires
        old(tags).spec_wf(),
    ensures
        final(tags).spec_wf(),
        spec_tags_view(*final(tags)) == spec_device_tags(spec_tags_view(*old(tags)), *device),
{
    proof {
        lemma_tags_view_insert(tags@, "device-id"@, device.id);
    }
    tags.insert("device-id".to_owned(), device.id.clone());
    match &device.description {
        Some(d) => {
            proof {
                lemma_tags_view_insert(tags@, "device"@, *d);
            }
            tags.insert("device".to_owned(), d.clone());
        },
        None => {},
    }
    let active = bool_text(device.active);
    proof {
        lemma_tags_view_insert(tags@, "device-active"@, active);
    }
    tags.insert("device-active".to_owned(), active);
    proof {
        lemma_tags_view_insert(tags@, "hardware-id"@, device.hardware_id);
    }
    tags.insert("hardware-id".to_owned(), device.hardware_id.clone());
    let ghost after_fixed = spec_tags_view(*tags);
    let n = device.hardware_ids.len();
    let mut i: usize = 0;
    while i < n
        invariant
            i <= n,
            n == device.hardware_ids@.len(),
            tags.spec_wf(),
            spec_tags_view(*tags) == spec_insert_pairs(after_fixed, device.hardware_ids@.take(
                i as int,
            )),
        decreases n - i,
    {
        let k = device.hardware_ids[i].0.clone();
        let v = device.hardware_ids[i].1.clone();
        proof {
            lemma_tags_view_insert(tags@, k@, v);
            assert(device.hardware_ids@.take(i + 1).drop_last() =~= device.hardware_ids@.take(
                i as int,
            ));
            assert(device.hardware_ids@.take(i + 1).last() == device.hardware_ids@[i as int]);
        }
        tags.insert(k, v);
        i = i + 1;
    }
    proof {
        assert(device.hardware_ids@.take(n as int) =~= device.hardware_ids@);
    }
}

/// The resource-level tags merged onto a tag set: the resource identifier,
/// name, active flag, its classifier and base unit where it has them, and a
/// class tag derived from the classifier's first dot-segment.
pub open spec fn spec_resource_tags(
    base: Map<Seq<char>, Seq<char>>,
    resource: Resource,
) -> Map<Seq<char>, Seq<char>> {
    let m = base.insert("resource-id"@, resource.id@).insert("resource"@, resource.name@).insert(
        "resource-active"@,
        spec_bool_text(resource.active),
    );
    let m = match resource.classifier {
        Some(c) => m.insert("classifier"@, c@),
        None => m,
    };
    let m = match resource.base_unit {
        Some(u) => m.insert("unit"@, u@),
        None => m,
    };
    match resource.classifier {
        Some(c) => m.insert("class"@, spec_first_dot_segment(c@)),
        None => m,
    }
}

/// Merges a resource's tags onto a tag set.
pub fn add_tags_for_resource(tags: &mut StrMap<String>, resource: &Resource)
    requires
        old(tags).spec_wf(),
    ensures
        final(tags).spec_wf(),
        spec_tags_view(*final(tags)) == spec_resource_tags(spec_tags_view(*old(tags)), *resource),
{
    proof {
        lemma_tags_view_insert(tags@, "resource-id"@, resource.id);
    }
    tags.insert("resource-id".to_owned(), resource.id.clone());
    proof {
        lemma_tags_view_insert(tags@, "resource"@, resource.name);
    }
    tags.insert("resource".to_owned(), resource.name.clone());
    let active = bool_text(resource.active);
    proof {
        lemma_tags_view_insert(tags@, "resource-active"@, active);
    }
    tags.insert("resource-active".to_owned(), active);
    match &resource.classifier {
        Some(c) => {
            proof {
                lemma_tags_view_insert(tags@, "classifier"@, *c);
            }
            tags.insert("classifier".to_owned(), c.clone());
        },
        None => {},
    }
    match &resource.base_unit {
        Some(u) => {
            proof {
                lemma_tags_view_insert(tags@, "unit"@, *u);
            }
            tags.insert("unit".to_owned(), u.clone());
        },
        None => {},
    }
    match &resource.classifier {
        Some(c) => {
            let class = first_dot_segment(c.as_str());
            proof {
                lemma_tags_view_insert(tags@, "class"@, class);
            }
            tags.insert("class".to_owned(), class);
        },
        None => {},
    }
}

/// Resource-level tags always overwrite identically-named tags already
/// present, whatever base, caller-supplied or device-level tags came
/// before.
pub proof fn lemma_resource_tag_precedence(base: Map<Seq<char>, Seq<char>>, resource: Resource)
    ensures
        spec_resource_tags(base, resource).dom().contains("resource-id"@),
        spec_resource_tags(base, resource)["resource-id"@] == resource.id@,
        spec_resource_tags(base, resource)["resource"@] == resource.name@,
        spec_resource_tags(base, resource)["resource-active"@] == spec_bool_text(resource.active),
        resource.classifier matches Some(c) ==> spec_resource_tags(base, resource)["classifier"@]
            == c@,
        resource.classifier matches Some(c) ==> spec_resource_tags(base, resource)["class"@]
            == spec_first_dot_segment(c@),
        resource.base_unit matches Some(u) ==> spec_resource_tags(base, resource)["unit"@] == u@,
{
    reveal_strlit("resource-id");
    reveal_strlit("resource");
    reveal_strlit("resource-active");
    reveal_strlit("classifier");
    reveal_strlit("unit");
    reveal_strlit("class");
    assert("resource-id"@.len() == 11);
    assert("resource"@.len() == 8);
    assert("resource-active"@.len() == 15);
    assert("classifier"@.len() == 10);
    assert("unit"@.len() == 4);
    assert("class"@.len() == 5);
}

} // verus!
