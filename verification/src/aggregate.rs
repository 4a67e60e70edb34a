//! Collecting per-resource readings across devices into a time-ordered,
//! tag-enriched measurement sequence, with optional suppression of
//! trailing all-zero measurement groups.

use vstd::prelude::*;
use crate::api::Device;
use crate::api::DeviceSensor;
use crate::api::Resource;
use crate::error::Error;
use crate::measurement::Measurement;
use crate::measurement::spec_finite_bits;
use crate::measurement::spec_zero_bits;
use crate::reading::Reading;
use crate::strmap::StrMap;
use crate::tags::add_tags_for_device;
use crate::tags::add_tags_for_resource;
use crate::tags::spec_device_tags;
use crate::tags::spec_resource_tags;
use crate::tags::spec_tags_view;
use crate::text::last_dot_segment;
use crate::text::spec_last_dot_segment;

verus! {

/// The outcome of fetching one resource's readings over one sub-range;
/// outcomes arrive in the order the sub-ranges were requested.
pub struct ResourceReadings {
    /// The resource the readings belong to.
    pub resource_id: String,
    /// The fetched readings, or the failure fetching them.
    pub readings: Result<Vec<Reading>, Error>,
}

/// What a measurement holds, at the level of characters: its identifier,
/// its instant in nanoseconds, its tags, and its ordered fields.
pub struct MeasurementModel {
    /// The identifier's characters.
    pub id: Seq<char>,
    /// The instant, in nanoseconds since the Unix epoch.
    pub timestamp: int,
    /// The tags.
    pub tags: Map<Seq<char>, Seq<char>>,
    /// The fields, in key order.
    pub fields: Seq<(Seq<char>, u64)>,
}

/// The model of a concrete measurement.
pub open spec fn spec_model_of(m: Measurement) -> MeasurementModel {
    MeasurementModel {
        id: m.id@,
        timestamp: m.timestamp as int,
        tags: spec_tags_view(m.tags),
        fields: m.fields.spec_entries().map_values(|p: (String, u64)| (p.0@, p.1)),
    }
}

/// The field key a classifier derives: its last dot-segment, or a fixed
/// name where there is no classifier.
pub open spec fn spec_field_key(classifier: Option<String>) -> Seq<char> {
    match classifier {
        Some(c) => spec_last_dot_segment(c@),
        None => "value"@,
    }
}

/// Derives the field key for a classifier.
pub fn field_for_classifier(classifier: &Option<String>) -> (r: String)
    ensures
        r@ == spec_field_key(*classifier),
{
    match classifier {
        Some(c) => last_dot_segment(c.as_str()),
        None => "value".to_owned(),
    }
}

/// The measurement one reading yields.
pub open spec fn spec_reading_model(
    tags: Map<Seq<char>, Seq<char>>,
    fkey: Seq<char>,
    rd: Reading,
) -> MeasurementModel {
    MeasurementModel {
        id: "glowmarkt"@,
        timestamp: rd.start * 1_000_000_000,
        tags,
        fields: seq![(fkey, rd.value)],
    }
}

/// The measurements one resource's fetch outcomes yield, and the failure
/// that cut them short, if any. Outcomes for other resources are passed
/// over; the resource's first failed outcome ends its readings there and
/// discards its later outcomes.
pub open spec fn spec_resource_models(
    rid: Seq<char>,
    tags: Map<Seq<char>, Seq<char>>,
    fkey: Seq<char>,
    results: Seq<ResourceReadings>,
) -> (Seq<MeasurementModel>, Option<Error>)
    decreases results.len(),
{
    if results.len() == 0 {
        (Seq::empty(), None::<Error>)
    } else if results[0].resource_id@ == rid {
        match results[0].readings {
            Ok(rds) => {
                let rest = spec_resource_models(rid, tags, fkey, results.drop_first());
                (
                    rds@.map_values(|rd: Reading| spec_reading_model(tags, fkey, rd)) + rest.0,
                    rest.1,
                )
            },
            Err(e) => (Seq::empty(), Some(e)),
        }
    } else {
        spec_resource_models(rid, tags, fkey, results.drop_first())
    }
}

/// The measurements a device's sensors yield, walking the sensors in
/// order. A sensor whose resource is unknown is passed over silently; the
/// first fetch failure ends the whole device's processing, keeping what
/// was already collected.
pub open spec fn spec_sensor_models(
    sensors: Seq<DeviceSensor>,
    resources: Map<Seq<char>, Resource>,
    dtags: Map<Seq<char>, Seq<char>>,
    results: Seq<ResourceReadings>,
) -> (Seq<MeasurementModel>, Option<Error>)
    decreases sensors.len(),
{
    if sensors.len() == 0 {
        (Seq::empty(), None::<Error>)
    } else if resources.dom().contains(sensors[0].resource_id@) {
        let resource = resources[sensors[0].resource_id@];
        let rtags = spec_resource_tags(dtags, resource);
        let fkey = spec_field_key(resource.classifier);
        let head = spec_resource_models(resource.id@, rtags, fkey, results);
        if head.1 is Some {
            head
        } else {
            let rest = spec_sensor_models(sensors.drop_first(), resources, dtags, results);
            (head.0 + rest.0, rest.1)
        }
    } else {
        spec_sensor_models(sensors.drop_first(), resources, dtags, results)
    }
}

/// The measurements one device yields, under the caller's tags merged with
/// the device's own.
pub open spec fn spec_device_models(
    device: Device,
    resources: Map<Seq<char>, Resource>,
    base: Map<Seq<char>, Seq<char>>,
    results: Seq<ResourceReadings>,
) -> (Seq<MeasurementModel>, Option<Error>) {
    spec_sensor_models(
        device.protocol.sensors@,
        resources,
        spec_device_tags(base, device),
        results,
    )
}

/// The measurements all devices yield, in device order, and the first
/// fetch failure among them. A failure ends only its own device's
/// processing; later devices still contribute.
pub open spec fn spec_devices_models(
    devices: Seq<Device>,
    resources: Map<Seq<char>, Resource>,
    base: Map<Seq<char>, Seq<char>>,
    results: Seq<ResourceReadings>,
) -> (Seq<MeasurementModel>, Option<Error>)
    decreases devices.len(),
{
    if devices.len() == 0 {
        (Seq::empty(), None::<Error>)
    } else {
        let head = spec_device_models(devices[0], resources, base, results);
        let rest = spec_devices_models(devices.drop_first(), resources, base, results);
        (
            head.0 + rest.0,
            if head.1 is Some {
                head.1
            } else {
                rest.1
            },
        )
    }
}

/// A measurement placed into timestamp groups: before every group with a
/// later timestamp, appended to the group with its own.
pub open spec fn spec_group_insert(
    groups: Seq<(int, Seq<MeasurementModel>)>,
    m: MeasurementModel,
) -> Seq<(int, Seq<MeasurementModel>)>
    decreases groups.len(),
{
    if groups.len() == 0 {
        seq![(m.timestamp, seq![m])]
    } else if groups.last().0 < m.timestamp {
        groups.push((m.timestamp, seq![m]))
    } else if groups.last().0 == m.timestamp {
        groups.drop_last().push((groups.last().0, groups.last().1.push(m)))
    } else {
        spec_group_insert(groups.drop_last(), m).push(groups.last())
    }
}

/// Measurements grouped by timestamp: groups in ascending timestamp order,
/// each group keeping its measurements' arrival order.
pub open spec fn spec_group_models(ms: Seq<MeasurementModel>) -> Seq<
    (int, Seq<MeasurementModel>),
>
    decreases ms.len(),
{
    if ms.len() == 0 {
        Seq::empty()
    } else {
        spec_group_insert(spec_group_models(ms.drop_last()), ms.last())
    }
}

/// Whether every field value of every measurement in a group is exactly
/// zero.
pub open spec fn spec_group_all_zero(g: Seq<MeasurementModel>) -> bool {
    forall|i: int, j: int|
        0 <= i < g.len() && 0 <= j < g[i].fields.len() ==> spec_zero_bits(
            #[trigger] g[i].fields[j].1,
        )
}

/// The groups with their all-zero suffix removed: scanning from the most
/// recent timestamp backwards, every all-zero group goes until the first
/// group with a non-zero field stops the trimming. Only a contiguous
/// suffix is trimmed; interior all-zero groups stay.
pub open spec fn spec_strip_groups(groups: Seq<(int, Seq<MeasurementModel>)>) -> Seq<
    (int, Seq<MeasurementModel>),
>
    decreases groups.len(),
{
    if groups.len() == 0 {
        groups
    } else if spec_group_all_zero(groups.last().1) {
        spec_strip_groups(groups.drop_last())
    } else {
        groups
    }
}

/// Suppression only trims a contiguous suffix: what remains is a prefix of
/// the groups; unless nothing remains it ends in a group with a non-zero
/// field, and every trimmed group was all-zero, so no interior group is
/// touched.
pub proof fn lemma_strip_is_suffix_trim(groups: Seq<(int, Seq<MeasurementModel>)>)
    ensures
        spec_strip_groups(groups).len() <= groups.len(),
        spec_strip_groups(groups) == groups.take(spec_strip_groups(groups).len() as int),
        spec_strip_groups(groups).len() > 0 ==> !spec_group_all_zero(
            spec_strip_groups(groups).last().1,
        ),
        forall|i: int|
            spec_strip_groups(groups).len() <= i < groups.len() ==> spec_group_all_zero(
                (#[trigger] groups[i]).1,
            ),
    decreases groups.len(),
{
    if groups.len() > 0 && spec_group_all_zero(groups.last().1) {
        lemma_strip_is_suffix_trim(groups.drop_last());
        let keep = spec_strip_groups(groups).len() as int;
        assert(groups.drop_last().take(keep) =~= groups.take(keep));
        assert forall|i: int| keep <= i < groups.len() implies spec_group_all_zero(
            (#[trigger] groups[i]).1,
        ) by {
            if i < groups.len() - 1 {
                assert(groups.drop_last()[i] == groups[i]);
            }
        }
    } else {
        assert(groups.take(groups.len() as int) =~= groups);
    }
}

/// The groups' measurements, flattened in group order.
pub open spec fn spec_flatten_groups(groups: Seq<(int, Seq<MeasurementModel>)>) -> Seq<
    MeasurementModel,
>
    decreases groups.len(),
{
    if groups.len() == 0 {
        Seq::empty()
    } else {
        spec_flatten_groups(groups.drop_last()) + groups.last().1
    }
}

/// The collected measurements arranged for output: grouped by timestamp in
/// ascending order and, where asked, with the trailing all-zero groups
/// suppressed.
pub open spec fn spec_arranged(ms: Seq<MeasurementModel>, strip: bool) -> Seq<MeasurementModel> {
    let groups = spec_group_models(ms);
    if strip {
        spec_flatten_groups(spec_strip_groups(groups))
    } else {
        spec_flatten_groups(groups)
    }
}

/// Whether every measurement in every timestamp group carries its group's
/// timestamp.
pub open spec fn spec_groups_keyed(gs: Seq<(int, Seq<MeasurementModel>)>) -> bool {
    forall|i: int, j: int|
        0 <= i < gs.len() && 0 <= j < gs[i].1.len() ==> (#[trigger] gs[i].1[j]).timestamp
            == gs[i].0
}

/// Whether the group timestamps are strictly ascending.
pub open spec fn spec_groups_ascending(gs: Seq<(int, Seq<MeasurementModel>)>) -> bool {
    forall|i: int| 0 <= i < gs.len() - 1 ==> (#[trigger] gs[i]).0 < gs[i + 1].0
}

/// Placing a measurement keeps the groups keyed by their timestamps and the
/// timestamps strictly ascending, and the last group is either the
/// measurement's or the one that was last before.
pub proof fn lemma_group_insert_props(gs: Seq<(int, Seq<MeasurementModel>)>, m: MeasurementModel)
    requires
        spec_groups_ascending(gs),
        spec_groups_keyed(gs),
    ensures
        spec_groups_ascending(spec_group_insert(gs, m)),
        spec_groups_keyed(spec_group_insert(gs, m)),
        spec_group_insert(gs, m).len() >= 1,
        spec_group_insert(gs, m).last().0 == m.timestamp || (gs.len() >= 1 && spec_group_insert(
            gs,
            m,
        ).last().0 == gs.last().0),
    decreases gs.len(),
{
    let r = spec_group_insert(gs, m);
    if gs.len() == 0 {
    } else if gs.last().0 < m.timestamp {
        assert forall|i: int, j: int|
            0 <= i < r.len() && 0 <= j < r[i].1.len() implies (#[trigger] r[i].1[j]).timestamp
            == r[i].0 by {
            if i < gs.len() {
                assert(r[i] == gs[i]);
            }
        }
    } else if gs.last().0 == m.timestamp {
        assert forall|i: int, j: int|
            0 <= i < r.len() && 0 <= j < r[i].1.len() implies (#[trigger] r[i].1[j]).timestamp
            == r[i].0 by {
            if i < gs.len() - 1 {
                assert(r[i] == gs[i]);
            } else {
                assert(r[i].0 == gs.last().0);
                if j < gs.last().1.len() {
                    assert(r[i].1[j] == gs.last().1[j]);
                } else {
                    assert(r[i].1[j] == m);
                }
            }
        }
        assert forall|i: int| 0 <= i < r.len() - 1 implies (#[trigger] r[i]).0 < r[i + 1].0 by {
            assert(r[i] == gs[i]);
            if i + 1 < gs.len() - 1 {
                assert(r[i + 1] == gs[i + 1]);
            } else {
                assert(r[i + 1].0 == gs[i + 1].0);
            }
        }
    } else {
        assert(spec_groups_ascending(gs.drop_last())) by {
            assert forall|i: int| 0 <= i < gs.drop_last().len() - 1 implies (#[trigger] gs.drop_last()[i]).0
                < gs.drop_last()[i + 1].0 by {
                assert(gs.drop_last()[i] == gs[i]);
                assert(gs.drop_last()[i + 1] == gs[i + 1]);
            }
        }
        assert(spec_groups_keyed(gs.drop_last())) by {
            assert forall|i: int, j: int|
                0 <= i < gs.drop_last().len() && 0 <= j < gs.drop_last()[i].1.len() implies (
            #[trigger] gs.drop_last()[i].1[j]).timestamp == gs.drop_last()[i].0 by {
                assert(gs.drop_last()[i] == gs[i]);
            }
        }
        lemma_group_insert_props(gs.drop_last(), m);
        let rec = spec_group_insert(gs.drop_last(), m);
        assert(r == rec.push(gs.last()));
        if gs.drop_last().len() >= 1 {
            assert(gs.drop_last().last() == gs[gs.len() - 2]);
            assert(gs[gs.len() - 2].0 < gs.last().0);
        }
        assert(rec.last().0 < gs.last().0);
        assert forall|i: int, j: int|
            0 <= i < r.len() && 0 <= j < r[i].1.len() implies (#[trigger] r[i].1[j]).timestamp
            == r[i].0 by {
            if i < rec.len() {
                assert(r[i] == rec[i]);
            } else {
                assert(r[i] == gs.last());
            }
        }
        assert forall|i: int| 0 <= i < r.len() - 1 implies (#[trigger] r[i]).0 < r[i + 1].0 by {
            if i < rec.len() - 1 {
                assert(r[i] == rec[i]);
                assert(r[i + 1] == rec[i + 1]);
            } else {
                assert(r[i] == rec.last());
                assert(r[i + 1] == gs.last());
            }
        }
    }
}

/// Grouping keeps the groups keyed by their timestamps, in strictly
/// ascending order.
pub proof fn lemma_group_models_props(ms: Seq<MeasurementModel>)
    ensures
        spec_groups_ascending(spec_group_models(ms)),
        spec_groups_keyed(spec_group_models(ms)),
    decreases ms.len(),
{
    if ms.len() > 0 {
        lemma_group_models_props(ms.drop_last());
        lemma_group_insert_props(spec_group_models(ms.drop_last()), ms.last());
    }
}

/// Flattening timestamp-keyed groups with ascending timestamps yields
/// measurements in non-decreasing timestamp order, none past the last
/// group's timestamp.
pub proof fn lemma_flatten_sorted(gs: Seq<(int, Seq<MeasurementModel>)>)
    requires
        spec_groups_ascending(gs),
        spec_groups_keyed(gs),
    ensures
        forall|i: int, j: int|
            0 <= i < j < spec_flatten_groups(gs).len() ==> (#[trigger] spec_flatten_groups(
                gs,
            )[i]).timestamp <= (#[trigger] spec_flatten_groups(gs)[j]).timestamp,
        gs.len() > 0 ==> forall|i: int|
            0 <= i < spec_flatten_groups(gs).len() ==> (#[trigger] spec_flatten_groups(
                gs,
            )[i]).timestamp <= gs.last().0,
    decreases gs.len(),
{
    if gs.len() > 0 {
        assert(spec_groups_ascending(gs.drop_last())) by {
            assert forall|i: int| 0 <= i < gs.drop_last().len() - 1 implies (#[trigger] gs.drop_last()[i]).0
                < gs.drop_last()[i + 1].0 by {
                assert(gs.drop_last()[i] == gs[i]);
                assert(gs.drop_last()[i + 1] == gs[i + 1]);
            }
        }
        assert(spec_groups_keyed(gs.drop_last())) by {
            assert forall|i: int, j: int|
                0 <= i < gs.drop_last().len() && 0 <= j < gs.drop_last()[i].1.len() implies (
            #[trigger] gs.drop_last()[i].1[j]).timestamp == gs.drop_last()[i].0 by {
                assert(gs.drop_last()[i] == gs[i]);
            }
        }
        lemma_flatten_sorted(gs.drop_last());
        let f = spec_flatten_groups(gs);
        let fp = spec_flatten_groups(gs.drop_last());
        if gs.len() >= 2 {
            assert(gs.drop_last().last() == gs[gs.len() - 2]);
            assert(gs[gs.len() - 2].0 < gs.last().0);
        }
        assert forall|i: int| 0 <= i < f.len() implies (#[trigger] f[i]).timestamp <= gs.last().0 by {
            if i < fp.len() {
                assert(f[i] == fp[i]);
            } else {
                assert(f[i] == gs.last().1[i - fp.len()]);
                assert(gs[gs.len() - 1].1[i - fp.len()].timestamp == gs[gs.len() - 1].0);
            }
        }
        assert forall|i: int, j: int| 0 <= i < j < f.len() implies (#[trigger] f[i]).timestamp <= (
        #[trigger] f[j]).timestamp by {
            if j < fp.len() {
                assert(f[i] == fp[i]);
                assert(f[j] == fp[j]);
            } else {
                assert(f[j] == gs.last().1[j - fp.len()]);
                assert(gs[gs.len() - 1].1[j - fp.len()].timestamp == gs[gs.len() - 1].0);
                if i < fp.len() {
                    assert(f[i] == fp[i]);
                } else {
                    assert(f[i] == gs.last().1[i - fp.len()]);
                    assert(gs[gs.len() - 1].1[i - fp.len()].timestamp == gs[gs.len() - 1].0);
                }
            }
        }
    }
}

/// The arranged output is ordered by non-decreasing timestamp, whether or
/// not trailing zero groups are suppressed.
pub proof fn lemma_arranged_sorted(ms: Seq<MeasurementModel>, strip: bool)
    ensures
        forall|i: int, j: int|
            0 <= i < j < spec_arranged(ms, strip).len() ==> (#[trigger] spec_arranged(
                ms,
                strip,
            )[i]).timestamp <= (#[trigger] spec_arranged(ms, strip)[j]).timestamp,
{
    let gs = spec_group_models(ms);
    lemma_group_models_props(ms);
    if strip {
        lemma_strip_is_suffix_trim(gs);
        let kept = spec_strip_groups(gs);
        let n = kept.len() as int;
        assert(spec_groups_ascending(kept)) by {
            assert forall|i: int| 0 <= i < kept.len() - 1 implies (#[trigger] kept[i]).0 < kept[i
                + 1].0 by {
                assert(kept[i] == gs[i]);
                assert(kept[i + 1] == gs[i + 1]);
            }
        }
        assert(spec_groups_keyed(kept)) by {
            assert forall|i: int, j: int|
                0 <= i < kept.len() && 0 <= j < kept[i].1.len() implies (#[trigger] kept[i].1[j]).timestamp
                == kept[i].0 by {
                assert(kept[i] == gs[i]);
            }
        }
        lemma_flatten_sorted(kept);
    } else {
        lemma_flatten_sorted(gs);
    }
}

/// Whether every reading of a successful fetch carries a finite value.
pub open spec fn spec_readings_finite(r: Result<Vec<Reading>, Error>) -> bool {
    match r {
        Ok(rds) => forall|j: int|
            0 <= j < rds@.len() ==> spec_finite_bits(#[trigger] rds@[j].value),
        Err(_) => true,
    }
}

/// Whether every reading in every successful outcome carries a finite
/// value; a non-finite reading value is a programming error upstream.
pub open spec fn spec_results_finite(results: Seq<ResourceReadings>) -> bool {
    forall|i: int| 0 <= i < results.len() ==> spec_readings_finite(#[trigger] results[i].readings)
}

/// Whether every measurement of a sequence is well-formed.
pub open spec fn spec_all_wf(v: Seq<Measurement>) -> bool {
    forall|i: int| 0 <= i < v.len() ==> (#[trigger] v[i]).spec_wf()
}

/// The models of a sequence of measurements.
pub open spec fn spec_models(v: Seq<Measurement>) -> Seq<MeasurementModel> {
    v.map_values(|m: Measurement| spec_model_of(m))
}

/// Collects the measurements of one resource's outcomes onto the output,
/// in order, stopping at the resource's first failed fetch and handing that
/// failure back.
#[verifier::loop_isolation(false)]
fn process_resource(
    out: &mut Vec<Measurement>,
    rid: &str,
    rtags: &StrMap<String>,
    fkey: &String,
    results: &Vec<ResourceReadings>,
) -> (r: Result<(), Error>)
    requires
        rtags.spec_wf(),
        spec_results_finite(results@),
        spec_all_wf(old(out)@),
    ensures
        ({
            let full = spec_resource_models(rid@, spec_tags_view(*rtags), fkey@, results@);
            &&& spec_all_wf(final(out)@)
            &&& spec_models(final(out)@) == spec_models(old(out)@) + full.0
            &&& match r {
                Ok(_) => full.1 is None,
                Err(e) => full.1 == Some(e),
            }
        }),
{
    let ghost rview = spec_tags_view(*rtags);
    let ghost full = spec_resource_models(rid@, rview, fkey@, results@);
    let ghost mut acc: Seq<MeasurementModel> = Seq::empty();
    proof {
        assert(results@.skip(0) =~= results@);
        assert(acc + full.0 =~= full.0);
        assert(spec_models(out@) =~= spec_models(old(out)@) + acc);
    }
    let n = results.len();
    let mut ri: usize = 0;
    while ri < n
        invariant
            ri <= n,
            spec_all_wf(out@),
            spec_models(out@) == spec_models(old(out)@) + acc,
            full.0 == acc + spec_resource_models(rid@, rview, fkey@, results@.skip(ri as int)).0,
            full.1 == spec_resource_models(rid@, rview, fkey@, results@.skip(ri as int)).1,
        decreases n - ri,
    {
        proof {
            assert(results@.skip(ri as int).drop_first() =~= results@.skip(ri + 1));
            assert(results@.skip(ri as int)[0] == results@[ri as int]);
        }
        if crate::text::str_eq(results[ri].resource_id.as_str(), rid) {
            match &results[ri].readings {
                Ok(rds) => {
                    let ghost batch = rds@.map_values(
                        |x: Reading| spec_reading_model(rview, fkey@, x),
                    );
                    let rn = rds.len();
                    let mut k: usize = 0;
                    while k < rn
                        invariant
                            k <= rn,
                            spec_all_wf(out@),
                            spec_models(out@) == spec_models(old(out)@) + acc + batch.take(
                                k as int,
                            ),
                        decreases rn - k,
                    {
                        let rd = rds[k];
                        let mut m = Measurement::new("glowmarkt", rd.start, rtags.duplicate());
                        proof {
                            assert(spec_readings_finite(results@[ri as int].readings));
                        }
                        m.add_field(fkey.clone(), rd.value);
                        proof {
                            assert(spec_model_of(m).fields =~= seq![(fkey@, rd.value)]);
                            assert(spec_model_of(m) == spec_reading_model(rview, fkey@, rd));
                        }
                        let ghost before = out@;
                        out.push(m);
                        proof {
                            assert(spec_models(out@) =~= spec_models(before).push(spec_model_of(m)));
                            assert(batch.take(k + 1) =~= batch.take(k as int).push(
                                spec_reading_model(rview, fkey@, rd),
                            ));
                            assert(spec_models(out@) =~= spec_models(old(out)@) + acc + batch.take(
                                k + 1,
                            ));
                        }
                        k = k + 1;
                    }
                    proof {
                        assert(batch.take(rn as int) =~= batch);
                        acc = acc + batch;
                        assert(spec_models(out@) =~= spec_models(old(out)@) + acc);
                        assert(full.0 =~= acc + spec_resource_models(
                            rid@,
                            rview,
                            fkey@,
                            results@.skip(ri + 1),
                        ).0);
                    }
                },
                Err(e) => {
                    return Err(e.duplicate());
                },
            }
        }
        ri = ri + 1;
    }
    proof {
        assert(results@.skip(n as int) =~= Seq::<ResourceReadings>::empty());
        assert(full.0 =~= acc);
    }
    Ok(())
}

/// Collects one device's measurements onto the output: the caller's tags
/// merged under the device's own, then each sensor whose resource is
/// known, in order. The device's first fetch failure ends its processing,
/// keeping what was already collected; in strict mode the failure is
/// handed back, in lenient mode it is swallowed.
#[verifier::loop_isolation(false)]
fn process_device(
    out: &mut Vec<Measurement>,
    device: &Device,
    resources: &StrMap<Resource>,
    results: &Vec<ResourceReadings>,
    base_tags: &StrMap<String>,
    strict: bool,
) -> (r: Result<(), Error>)
    requires
        resources.spec_wf(),
        base_tags.spec_wf(),
        spec_results_finite(results@),
        spec_all_wf(old(out)@),
    ensures
        ({
            let dev = spec_device_models(*device, resources@, spec_tags_view(*base_tags), results@);
            &&& spec_all_wf(final(out)@)
            &&& match r {
                Ok(_) => spec_models(final(out)@) == spec_models(old(out)@) + dev.0 && (strict
                    ==> dev.1 is None),
                Err(e) => strict && dev.1 == Some(e),
            }
        }),
{
    let mut dtags = base_tags.duplicate();
    add_tags_for_device(&mut dtags, device);
    let ghost dview = spec_device_tags(spec_tags_view(*base_tags), *device);
    let ghost sensors = device.protocol.sensors@;
    let ghost dev = spec_sensor_models(sensors, resources@, dview, results@);
    let ghost mut acc: Seq<MeasurementModel> = Seq::empty();
    proof {
        assert(sensors.skip(0) =~= sensors);
        assert(acc + dev.0 =~= dev.0);
        assert(spec_models(out@) =~= spec_models(old(out)@) + acc);
    }
    let n = device.protocol.sensors.len();
    let mut si: usize = 0;
    while si < n
        invariant
            si <= n,
            spec_all_wf(out@),
            dtags.spec_wf(),
            spec_tags_view(dtags) == dview,
            spec_models(out@) == spec_models(old(out)@) + acc,
            dev.0 == acc + spec_sensor_models(sensors.skip(si as int), resources@, dview, results@).0,
            dev.1 == spec_sensor_models(sensors.skip(si as int), resources@, dview, results@).1,
        decreases n - si,
    {
        proof {
            assert(sensors.skip(si as int).drop_first() =~= sensors.skip(si + 1));
            assert(sensors.skip(si as int)[0] == sensors[si as int]);
        }
        let sensor = &device.protocol.sensors[si];
        match resources.get(sensor.resource_id.as_str()) {
            Some(resource) => {
                let mut rtags = dtags.duplicate();
                add_tags_for_resource(&mut rtags, resource);
                let fkey = field_for_classifier(&resource.classifier);
                let ghost head = spec_resource_models(
                    resource.id@,
                    spec_resource_tags(dview, *resource),
                    spec_field_key(resource.classifier),
                    results@,
                );
                match process_resource(out, resource.id.as_str(), &rtags, &fkey, results) {
                    Ok(_) => {
                        proof {
                            acc = acc + head.0;
                            assert(dev.0 =~= acc + spec_sensor_models(
                                sensors.skip(si + 1),
                                resources@,
                                dview,
                                results@,
                            ).0);
                        }
                    },
                    Err(e) => {
                        if strict {
                            return Err(e);
                        } else {
                            return Ok(());
                        }
                    },
                }
            },
            None => {},
        }
        si = si + 1;
    }
    proof {
        assert(sensors.skip(n as int) =~= Seq::<DeviceSensor>::empty());
        assert(dev.0 =~= acc);
    }
    Ok(())
}

/// A grouping of measurements by timestamp, at the level of models.
pub open spec fn spec_groups_model(gs: Seq<(i128, Vec<Measurement>)>) -> Seq<
    (int, Seq<MeasurementModel>),
> {
    gs.map_values(|g: (i128, Vec<Measurement>)| (g.0 as int, spec_models(g.1@)))
}

/// Whether every measurement in every group is well-formed.
pub open spec fn spec_groups_wf(gs: Seq<(i128, Vec<Measurement>)>) -> bool {
    forall|i: int| 0 <= i < gs.len() ==> spec_all_wf((#[trigger] gs[i]).1@)
}

/// Places one measurement into the timestamp groups, walking back from the
/// latest group exactly as the specification does.
fn group_insert(groups: &mut Vec<(i128, Vec<Measurement>)>, m: Measurement)
    requires
        spec_groups_wf(old(groups)@),
        m.spec_wf(),
    ensures
        spec_groups_model(final(groups)@) == spec_group_insert(
            spec_groups_model(old(groups)@),
            spec_model_of(m),
        ),
        spec_groups_wf(final(groups)@),
    decreases old(groups)@.len(),
{
    let n = groups.len();
    if n == 0 {
        let mut v: Vec<Measurement> = Vec::new();
        let ts = m.timestamp;
        v.push(m);
        groups.push((ts, v));
        proof {
            assert(spec_models(groups@[0].1@) =~= seq![spec_model_of(m)]);
            assert(spec_groups_model(groups@) =~= spec_group_insert(
                spec_groups_model(old(groups)@),
                spec_model_of(m),
            ));
        }
    } else {
        let last_ts = groups[n - 1].0;
        if last_ts < m.timestamp {
            let mut v: Vec<Measurement> = Vec::new();
            let ts = m.timestamp;
            v.push(m);
            groups.push((ts, v));
            proof {
                assert(spec_groups_model(groups@).drop_last() =~~= spec_groups_model(
                    old(groups)@,
                ));
                assert(spec_models(groups@.last().1@) =~= seq![spec_model_of(m)]);
                assert(spec_groups_model(groups@) =~~= spec_group_insert(
                    spec_groups_model(old(groups)@),
                    spec_model_of(m),
                ));
            }
        } else if last_ts == m.timestamp {
            let ghost before = groups@;
            match groups.pop() {
                Some(pair) => {
                    let (ts, mut v) = pair;
                    let ghost vbefore = v@;
                    v.push(m);
                    groups.push((ts, v));
                    proof {
                        assert(spec_groups_model(groups@).drop_last() =~~= spec_groups_model(
                            before,
                        ).drop_last());
                        assert(spec_models(groups@.last().1@) =~= spec_models(vbefore).push(
                            spec_model_of(m),
                        ));
                        assert(spec_models(vbefore) == spec_groups_model(before).last().1);
                        assert(spec_groups_model(groups@) =~~= spec_group_insert(
                            spec_groups_model(old(groups)@),
                            spec_model_of(m),
                        ));
                    }
                },
                None => {},
            }
        } else {
            let ghost before = groups@;
            match groups.pop() {
                Some(last) => {
                    let ghost mid = spec_group_insert(
                        spec_groups_model(before.drop_last()),
                        spec_model_of(m),
                    );
                    group_insert(groups, m);
                    groups.push(last);
                    proof {
                        assert(spec_groups_model(before).last() == (
                            before[before.len() - 1].0 as int,
                            spec_models(before[before.len() - 1].1@),
                        ));
                        assert(spec_groups_model(before).drop_last() =~~= spec_groups_model(
                            before.drop_last(),
                        ));
                        assert(spec_groups_model(groups@).drop_last() =~~= mid);
                        assert(spec_groups_model(groups@).last() == spec_groups_model(
                            before,
                        ).last());
                        assert(spec_groups_model(groups@) =~~= spec_group_insert(
                            spec_groups_model(old(groups)@),
                            spec_model_of(m),
                        ));
                    }
                },
                None => {},
            }
        }
    }
}

/// Whether every field value of every measurement in a group is exactly
/// zero.
fn group_all_zero(g: &Vec<Measurement>) -> (r: bool)
    ensures
        r == spec_group_all_zero(spec_models(g@)),
{
    let n = g.len();
    let mut i: usize = 0;
    while i < n
        invariant
            i <= n,
            n == g@.len(),
            forall|a: int, b: int|
                0 <= a < i && 0 <= b < spec_models(g@)[a].fields.len() ==> spec_zero_bits(
                    #[trigger] spec_models(g@)[a].fields[b].1,
                ),
        decreases n - i,
    {
        let fields = g[i].fields.entries();
        let fn_ = fields.len();
        let mut j: usize = 0;
        while j < fn_
            invariant
                j <= fn_,
                fn_ == g@[i as int].fields.spec_entries().len(),
                fields@ == g@[i as int].fields.spec_entries(),
                i < n,
                n == g@.len(),
                forall|b: int|
                    0 <= b < j ==> spec_zero_bits(#[trigger] spec_models(g@)[i as int].fields[b].1),
            decreases fn_ - j,
        {
            if !crate::measurement::is_zero_bits(fields[j].1) {
                proof {
                    assert(spec_models(g@)[i as int].fields[j as int].1 == fields@[j as int].1);
                }
                return false;
            }
            proof {
                assert(spec_models(g@)[i as int].fields[j as int].1 == fields@[j as int].1);
            }
            j = j + 1;
        }
        i = i + 1;
    }
    true
}

/// Removes the trailing measurement groups whose field values are all
/// exactly zero; the first group with a non-zero field, scanning from the
/// most recent timestamp backwards, stops the trimming, so interior
/// all-zero groups stay.
fn strip_zero_groups(groups: &mut Vec<(i128, Vec<Measurement>)>)
    requires
        spec_groups_wf(old(groups)@),
    ensures
        spec_groups_model(final(groups)@) == spec_strip_groups(spec_groups_model(old(groups)@)),
        spec_groups_wf(final(groups)@),
{
    loop
        invariant
            spec_groups_wf(groups@),
            spec_strip_groups(spec_groups_model(groups@)) == spec_strip_groups(
                spec_groups_model(old(groups)@),
            ),
        ensures
            spec_groups_wf(groups@),
            spec_groups_model(groups@) == spec_strip_groups(spec_groups_model(old(groups)@)),
        decreases groups@.len(),
    {
        let n = groups.len();
        if n == 0 {
            proof {
                assert(spec_groups_model(groups@) =~= Seq::<(int, Seq<MeasurementModel>)>::empty());
            }
            break;
        }
        let ghost before = groups@;
        if group_all_zero(&groups[n - 1].1) {
            proof {
                assert(spec_groups_model(before).last().1 == spec_models(before[n - 1].1@));
                assert(spec_group_all_zero(spec_groups_model(before).last().1));
            }
            let _ = groups.pop();
            proof {
                assert(spec_groups_model(groups@) =~~= spec_groups_model(before).drop_last());
                assert(spec_strip_groups(spec_groups_model(before)) == spec_strip_groups(
                    spec_groups_model(groups@),
                ));
            }
        } else {
            proof {
                assert(spec_groups_model(before).last().1 == spec_models(before[n - 1].1@));
                assert(spec_strip_groups(spec_groups_model(groups@)) == spec_groups_model(
                    groups@,
                ));
            }
            break;
        }
    }
}

/// Flattens the timestamp groups back into one measurement sequence, in
/// group order.
fn flatten_groups(groups: Vec<(i128, Vec<Measurement>)>) -> (out: Vec<Measurement>)
    requires
        spec_groups_wf(groups@),
    ensures
        spec_models(out@) == spec_flatten_groups(spec_groups_model(groups@)),
        spec_all_wf(out@),
{
    let ghost gm = spec_groups_model(groups@);
    let ghost all = groups@;
    let mut rest = groups;
    let mut out: Vec<Measurement> = Vec::new();
    let total = rest.len();
    let mut i: usize = 0;
    while rest.len() > 0
        invariant
            i <= total,
            total == all.len(),
            rest@ == all.skip(i as int),
            spec_groups_wf(all),
            spec_all_wf(out@),
            spec_models(out@) == spec_flatten_groups(spec_groups_model(all.take(i as int))),
        decreases rest@.len(),
    {
        proof {
            assert(all.skip(i as int)[0] == all[i as int]);
            assert(spec_all_wf(all[i as int].1@));
        }
        let ghost out_before = out@;
        let (_, mut v) = rest.remove(0);
        out.append(&mut v);
        proof {
            assert(rest@ =~= all.skip(i + 1));
            assert forall|t: int| 0 <= t < out@.len() implies (#[trigger] out@[t]).spec_wf() by {
                if t < out_before.len() {
                    assert(out@[t] == out_before[t]);
                } else {
                    assert(out@[t] == all[i as int].1@[t - out_before.len()]);
                }
            }
            assert(spec_groups_model(all.take(i + 1)).drop_last() =~= spec_groups_model(all.take(
                i as int,
            )));
            assert(spec_groups_model(all.take(i + 1)).last().1 == spec_models(all[i as int].1@));
            assert(spec_models(out@) =~= spec_flatten_groups(spec_groups_model(all.take(i + 1))));
        }
        i = i + 1;
    }
    proof {
        assert(all.take(total as int) =~= all);
    }
    out
}

/// Builds the tagged measurements for a set of devices from the fetched
/// per-resource readings: device and resource tags are merged onto the
/// caller's, each reading becomes one measurement whose single field is
/// keyed by the resource's classifier, the result is ordered by ascending
/// timestamp, and trailing all-zero timestamp groups are suppressed where
/// asked. A fetch failure ends its own device's processing; in strict mode
/// it aborts the whole build instead.
pub fn build_measurements(
    devices: &Vec<Device>,
    resources: &StrMap<Resource>,
    results: &Vec<ResourceReadings>,
    tags: &StrMap<String>,
    strip_trailing_zeros: bool,
    strict: bool,
) -> (r: Result<Vec<Measurement>, Error>)
    requires
        resources.spec_wf(),
        tags.spec_wf(),
        spec_results_finite(results@),
    ensures
        ({
            let full = spec_devices_models(devices@, resources@, spec_tags_view(*tags), results@);
            match r {
                Ok(v) => {
                    &&& (strict ==> full.1 is None)
                    &&& spec_models(v@) == spec_arranged(full.0, strip_trailing_zeros)
                    &&& spec_all_wf(v@)
                },
                Err(e) => strict && full.1 == Some(e),
            }
        }),
{
    let ghost base = spec_tags_view(*tags);
    let ghost full = spec_devices_models(devices@, resources@, base, results@);
    let mut collected: Vec<Measurement> = Vec::new();
    let ghost mut acc: Seq<MeasurementModel> = Seq::empty();
    proof {
        assert(devices@.skip(0) =~= devices@);
        assert(acc + full.0 =~= full.0);
        assert(spec_models(collected@) =~= acc);
    }
    let dn = devices.len();
    let mut di: usize = 0;
    #[verifier::loop_isolation(false)]
    while di < dn
        invariant
            di <= dn,
            spec_all_wf(collected@),
            spec_models(collected@) == acc,
            full.0 == acc + spec_devices_models(devices@.skip(di as int), resources@, base, results@).0,
            strict ==> full.1 == spec_devices_models(
                devices@.skip(di as int),
                resources@,
                base,
                results@,
            ).1,
        decreases dn - di,
    {
        proof {
            assert(devices@.skip(di as int).drop_first() =~= devices@.skip(di + 1));
            assert(devices@.skip(di as int)[0] == devices@[di as int]);
        }
        let ghost dev = spec_device_models(devices@[di as int], resources@, base, results@);
        match process_device(&mut collected, &devices[di], resources, results, tags, strict) {
            Ok(_) => {
                proof {
                    acc = acc + dev.0;
                    assert(full.0 =~= acc + spec_devices_models(
                        devices@.skip(di + 1),
                        resources@,
                        base,
                        results@,
                    ).0);
                }
            },
            Err(e) => {
                return Err(e);
            },
        }
        di = di + 1;
    }
    proof {
        assert(devices@.skip(dn as int) =~= Seq::<Device>::empty());
        assert(full.0 =~= acc);
    }
    let ghost ms = spec_models(collected@);
    let mut groups: Vec<(i128, Vec<Measurement>)> = Vec::new();
    let total = collected.len();
    let mut k: usize = 0;
    #[verifier::loop_isolation(false)]
    while collected.len() > 0
        invariant
            k <= total,
            total == ms.len(),
            spec_models(collected@) == ms.skip(k as int),
            spec_all_wf(collected@),
            spec_groups_wf(groups@),
            spec_groups_model(groups@) == spec_group_models(ms.take(k as int)),
        decreases collected@.len(),
    {
        let ghost before = collected@;
        let m = collected.remove(0);
        proof {
            assert(collected@ =~= before.drop_first());
            assert(spec_models(collected@) =~= spec_models(before).drop_first());
            assert(ms.skip(k as int).drop_first() =~= ms.skip(k + 1));
            assert(spec_models(before)[0] == spec_model_of(before[0]));
            assert(spec_model_of(m) == ms[k as int]);
            assert(ms.take(k + 1).drop_last() =~= ms.take(k as int));
            assert(ms.take(k + 1).last() == ms[k as int]);
        }
        group_insert(&mut groups, m);
        k = k + 1;
    }
    proof {
        assert(ms.take(total as int) =~= ms);
    }
    if strip_trailing_zeros {
        strip_zero_groups(&mut groups);
    }
    let arranged = flatten_groups(groups);
    Ok(arranged)
}

} // verus!
