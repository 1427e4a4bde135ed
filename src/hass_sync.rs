use vstd::prelude::*;
use vstd::string::StrSliceExecFns;
use vstd::string::StringExecFns;

use crate::hass_import::{
    assigned_room, assigned_room_id, device_link_of, device_view, grouped_light_state, grouped_state_of, light_at, manufacturer_word, projected_light, service_link_of,
    service_view, upsert_entity, zbc_link_of, zbc_view, HassEntityKind, HassServiceKind, ImportedEntity,
};
use crate::hass_ui::{base_pref, included, HassSensorKind, HassUiConfig, UiConfigView};
use crate::rtype::{derived_id, key_bytes_of_str, RType, ResourceLink};
use crate::store::{
    deleted_from, has_node, has_rid, lemma_nodes_within_refl, lemma_nodes_within_trans,
    lemma_put_result, nodes_within, put_result, rid_index, lemma_rid_index, rids_unique, DataView,
    ResView, ResourceData, Resources, StoredResource,
};

verus! {

/// The sensor kind that counts for an entity: the user's choice, else the
/// detected one, else none.
pub open spec fn effective_sensor_kind(ui: UiConfigView, e: ImportedEntity) -> HassSensorKind {
    match base_pref(ui.entity_preferences, e.entity_id@).sensor_kind {
        Some(k) => k,
        None => match e.detected_sensor_kind {
            Some(d) => d,
            None => HassSensorKind::Ignore,
        },
    }
}

/// Whether the sync brings an entity to Hue: the inclusion rules admit it,
/// and a binary sensor also needs a sensor kind that is not ignored.
pub open spec fn entity_included(ui: UiConfigView, e: ImportedEntity) -> bool {
    included(ui, e.entity_id@, e.name@, e.available) && !(e.kind == HassEntityKind::BinarySensor
        && effective_sensor_kind(ui, e) == HassSensorKind::Ignore)
}

/// The store after one entity's upsert.
pub open spec fn upserted(nodes: Seq<ResView>, backend: Seq<char>, e: ImportedEntity) -> Seq<ResView> {
    put_result(
        put_result(put_result(nodes, device_view(backend, e)), zbc_view(backend, e)),
        service_view(backend, e, light_at(nodes, service_link_of(backend, e.entity_id@, e.service_kind).rid)),
    )
}

/// The store after the upserts of the included entities, in order.
pub open spec fn synced(nodes: Seq<ResView>, backend: Seq<char>, ui: UiConfigView, es: Seq<ImportedEntity>) -> Seq<
    ResView,
>
    decreases es.len(),
{
    if es.len() == 0 {
        nodes
    } else {
        let prev = synced(nodes, backend, ui, es.drop_last());
        if entity_included(ui, es.last()) {
            upserted(prev, backend, es.last())
        } else {
            prev
        }
    }
}

/// The device ids of the included entities.
pub open spec fn kept_devices(backend: Seq<char>, ui: UiConfigView, es: Seq<ImportedEntity>) -> Set<u128> {
    Set::new(
        |x: u128|
            exists|i: int|
                0 <= i < es.len() && entity_included(ui, #[trigger] es[i]) && device_link_of(
                    backend,
                    es[i].entity_id@,
                ).rid == x,
    )
}

pub open spec fn hass_model_prefix() -> Seq<char> {
    seq!['h', 'a', 's', 's', '-']
}

/// A device that an import made: made by Home Assistant, with a model id
/// that begins with `hass-`.
pub open spec fn is_hass_device(v: ResView) -> bool {
    v.link.rtype == RType::Device && match v.data {
        DataView::Device { manufacturer, model_id, name } => manufacturer == manufacturer_word()
            && model_id.len() >= 5 && model_id.subrange(0, 5) == hass_model_prefix(),
        _ => false,
    }
}

fn is_hass_device_exec(res: &Resources, i: usize) -> (r: bool)
    requires
        i < res.nodes().len(),
    ensures
        r == is_hass_device(res.nodes()[i as int]),
{
    let n = res.node_at(i);
    if n.link.rtype != RType::Device {
        return false;
    }
    match &n.data {
        ResourceData::Device { manufacturer, model_id, name } => {
            let maker = String::from_str("Home Assistant");
            let prefix = String::from_str("hass-");
            proof {
                reveal_strlit("Home Assistant");
                reveal_strlit("hass-");
                assert(maker@ =~= manufacturer_word());
                assert(prefix@ =~= hass_model_prefix());
            }
            if !(*manufacturer == maker) {
                return false;
            }
            if model_id.as_str().unicode_len() < 5 {
                return false;
            }
            let head = String::from_str(model_id.as_str().substring_char(0, 5));
            head == prefix
        },
        _ => false,
    }
}

proof fn lemma_upserted_len(nodes: Seq<ResView>, backend: Seq<char>, e: ImportedEntity)
    ensures
        upserted(nodes, backend, e).len() <= nodes.len() + 3,
{
    let m1 = put_result(nodes, device_view(backend, e));
    let m2 = put_result(m1, zbc_view(backend, e));
    lemma_put_result(nodes, device_view(backend, e));
    lemma_put_result(m1, zbc_view(backend, e));
    lemma_put_result(
        m2,
        service_view(backend, e, light_at(nodes, service_link_of(backend, e.entity_id@, e.service_kind).rid)),
    );
}

proof fn lemma_kept_step(
    backend: Seq<char>,
    ui: UiConfigView,
    es: Seq<ImportedEntity>,
    i: int,
    kept0: Seq<u128>,
    kept1: Seq<u128>,
)
    requires
        0 <= i < es.len(),
        forall|x: u128| kept0.contains(x) <==> kept_devices(backend, ui, es.take(i)).contains(x),
        kept1 == if entity_included(ui, es[i]) {
            kept0.push(device_link_of(backend, es[i].entity_id@).rid)
        } else {
            kept0
        },
    ensures
        forall|x: u128| kept1.contains(x) <==> kept_devices(backend, ui, es.take(i + 1)).contains(x),
{
    let t0 = es.take(i);
    let t1 = es.take(i + 1);
    assert forall|x: u128| kept1.contains(x) <==> kept_devices(backend, ui, t1).contains(x) by {
        if kept_devices(backend, ui, t1).contains(x) {
            let j = choose|j: int|
                0 <= j < t1.len() && entity_included(ui, #[trigger] t1[j]) && device_link_of(backend, t1[j].entity_id@).rid == x;
            if j < i {
                assert(t0[j] == t1[j]);
                assert(kept_devices(backend, ui, t0).contains(x));
                assert(kept0.contains(x));
                if entity_included(ui, es[i]) {
                    let q = choose|q: int| 0 <= q < kept0.len() && kept0[q] == x;
                    assert(kept1[q] == x);
                }
            } else {
                assert(t1[j] == es[i]);
                assert(kept1[kept1.len() - 1] == x);
            }
        }
        if kept1.contains(x) {
            let q = choose|q: int| 0 <= q < kept1.len() && kept1[q] == x;
            if q < kept0.len() {
                assert(kept0[q] == x);
                assert(kept0.contains(x));
                let j = choose|j: int|
                    0 <= j < t0.len() && entity_included(ui, #[trigger] t0[j]) && device_link_of(backend, t0[j].entity_id@).rid == x;
                assert(t1[j] == t0[j]);
            } else {
                assert(t1[i] == es[i]);
            }
        }
    }
}

fn rid_listed(v: &Vec<u128>, x: u128) -> (r: bool)
    ensures
        r == v@.contains(x),
{
    let mut i: usize = 0;
    while i < v.len()
        invariant
            0 <= i <= v@.len(),
            forall|j: int| 0 <= j < i ==> v@[j] != x,
        decreases v@.len() - i,
    {
        if v[i] == x {
            assert(v@[i as int] == x);
            return true;
        }
        i = i + 1;
    }
    false
}

/// No device an import made is left but those with an id of `kept`.
pub open spec fn only_kept(nodes: Seq<ResView>, kept: Set<u128>) -> bool {
    forall|i: int| 0 <= i < nodes.len() && is_hass_device(#[trigger] nodes[i]) ==> kept.contains(nodes[i].link.rid)
}

/// The service of an entity is in the store, as the import leaves it after
/// some earlier state.
pub open spec fn service_present(nodes: Seq<ResView>, backend: Seq<char>, e: ImportedEntity) -> bool {
    exists|p: Option<crate::store::LightState>| has_node(nodes, #[trigger] service_view(backend, e, p))
}

/// Every included entity's device, zigbee connectivity and service are in
/// the store exactly as one more upsert would leave them.
pub open spec fn settled(nodes: Seq<ResView>, backend: Seq<char>, ui: UiConfigView, es: Seq<ImportedEntity>) -> bool {
    forall|i: int|
        0 <= i < es.len() && entity_included(ui, #[trigger] es[i]) ==> has_node(nodes, device_view(backend, es[i]))
            && has_node(nodes, zbc_view(backend, es[i])) && has_node(
            nodes,
            service_view(
                backend,
                es[i],
                light_at(nodes, service_link_of(backend, es[i].entity_id@, es[i].service_kind).rid),
            ),
        )
}

/// The three ids an entity's resources get.
pub open spec fn entity_rid(backend: Seq<char>, e: ImportedEntity, p: int) -> u128 {
    if p == 0 {
        device_link_of(backend, e.entity_id@).rid
    } else if p == 1 {
        zbc_link_of(backend, e.entity_id@).rid
    } else {
        service_link_of(backend, e.entity_id@, e.service_kind).rid
    }
}

/// The ids derived for the included entities all differ.
pub open spec fn ids_distinct(backend: Seq<char>, ui: UiConfigView, es: Seq<ImportedEntity>) -> bool {
    forall|i: int, j: int, p: int, q: int|
        0 <= i < es.len() && 0 <= j < es.len() && 0 <= p < 3 && 0 <= q < 3 && (i != j || p != q)
            && entity_included(ui, es[i]) && entity_included(ui, es[j]) ==> #[trigger] entity_rid(
            backend,
            es[i],
            p,
        ) != #[trigger] entity_rid(backend, es[j], q)
}

proof fn lemma_projected_idempotent(p: Option<crate::store::LightState>, e: ImportedEntity)
    ensures
        projected_light(Some(projected_light(p, e)), e) == projected_light(p, e),
{
}

proof fn lemma_put_only_kept(s: Seq<ResView>, v: ResView, kept: Set<u128>)
    requires
        only_kept(s, kept),
        is_hass_device(v) ==> kept.contains(v.link.rid),
    ensures
        only_kept(put_result(s, v), kept),
{
    lemma_rid_index(s, v.link.rid);
    let r = put_result(s, v);
    assert forall|i: int| 0 <= i < r.len() && is_hass_device(#[trigger] r[i]) implies kept.contains(r[i].link.rid) by {
        if i < s.len() && i != rid_index(s, v.link.rid) {
            assert(r[i] == s[i]);
        }
    }
}

/// The upserts keep the store free of devices that are not kept.
proof fn lemma_synced_only_kept(
    nodes: Seq<ResView>,
    backend: Seq<char>,
    ui: UiConfigView,
    es: Seq<ImportedEntity>,
    kept: Set<u128>,
)
    requires
        only_kept(nodes, kept),
        forall|i: int| 0 <= i < es.len() && entity_included(ui, #[trigger] es[i]) ==> kept.contains(
            device_link_of(backend, es[i].entity_id@).rid,
        ),
    ensures
        only_kept(synced(nodes, backend, ui, es), kept),
    decreases es.len(),
{
    if es.len() > 0 {
        let d = es.drop_last();
        assert forall|i: int| 0 <= i < d.len() && entity_included(ui, #[trigger] d[i]) implies kept.contains(
            device_link_of(backend, d[i].entity_id@).rid,
        ) by {
            assert(d[i] == es[i]);
        }
        lemma_synced_only_kept(nodes, backend, ui, d, kept);
        let prev = synced(nodes, backend, ui, d);
        let e = es.last();
        if entity_included(ui, e) {
            assert(es[es.len() - 1] == e);
            let m1 = put_result(prev, device_view(backend, e));
            let m2 = put_result(m1, zbc_view(backend, e));
            lemma_put_only_kept(prev, device_view(backend, e), kept);
            lemma_put_only_kept(m1, zbc_view(backend, e), kept);
            lemma_put_only_kept(
                m2,
                service_view(backend, e, light_at(prev, service_link_of(backend, e.entity_id@, e.service_kind).rid)),
                kept,
            );
        }
    }
}

/// After the upserts, every included entity's three resources are there,
/// where the derived ids all differ.
proof fn lemma_synced_present(nodes: Seq<ResView>, backend: Seq<char>, ui: UiConfigView, es: Seq<ImportedEntity>)
    requires
        ids_distinct(backend, ui, es),
    ensures
        forall|k: int|
            0 <= k < es.len() && entity_included(ui, #[trigger] es[k]) ==> has_node(
                synced(nodes, backend, ui, es),
                device_view(backend, es[k]),
            ) && has_node(synced(nodes, backend, ui, es), zbc_view(backend, es[k])) && service_present(
                synced(nodes, backend, ui, es),
                backend,
                es[k],
            ),
    decreases es.len(),
{
    if es.len() > 0 {
        let d = es.drop_last();
        let n = es.len() - 1;
        assert forall|i: int, j: int, p: int, q: int|
            0 <= i < d.len() && 0 <= j < d.len() && 0 <= p < 3 && 0 <= q < 3 && (i != j || p != q)
                && entity_included(ui, d[i]) && entity_included(ui, d[j]) implies #[trigger] entity_rid(
            backend,
            d[i],
            p,
        ) != #[trigger] entity_rid(backend, d[j], q) by {
            assert(d[i] == es[i] && d[j] == es[j]);
            assert(entity_rid(backend, es[i], p) != entity_rid(backend, es[j], q));
        }
        lemma_synced_present(nodes, backend, ui, d);
        let prev = synced(nodes, backend, ui, d);
        let e = es.last();
        assert(es[n] == e);
        if entity_included(ui, e) {
            let dv = device_view(backend, e);
            let zv = zbc_view(backend, e);
            let sv = service_view(backend, e, light_at(prev, service_link_of(backend, e.entity_id@, e.service_kind).rid));
            let m1 = put_result(prev, dv);
            let m2 = put_result(m1, zv);
            let m3 = put_result(m2, sv);
            lemma_put_result(prev, dv);
            lemma_put_result(m1, zv);
            lemma_put_result(m2, sv);
            assert(entity_rid(backend, e, 0) != entity_rid(backend, e, 1));
            assert(entity_rid(backend, e, 0) != entity_rid(backend, e, 2));
            assert(entity_rid(backend, e, 1) != entity_rid(backend, e, 2));
            assert forall|k: int|
                0 <= k < es.len() && entity_included(ui, #[trigger] es[k]) implies has_node(m3, device_view(backend, es[k]))
                    && has_node(m3, zbc_view(backend, es[k])) && service_present(m3, backend, es[k]) by {
                if k < n {
                    assert(d[k] == es[k]);
                    let x = es[k];
                    assert(entity_rid(backend, x, 0) != entity_rid(backend, e, 0));
                    assert(entity_rid(backend, x, 0) != entity_rid(backend, e, 1));
                    assert(entity_rid(backend, x, 0) != entity_rid(backend, e, 2));
                    assert(entity_rid(backend, x, 1) != entity_rid(backend, e, 0));
                    assert(entity_rid(backend, x, 1) != entity_rid(backend, e, 1));
                    assert(entity_rid(backend, x, 1) != entity_rid(backend, e, 2));
                    assert(entity_rid(backend, x, 2) != entity_rid(backend, e, 0));
                    assert(entity_rid(backend, x, 2) != entity_rid(backend, e, 1));
                    assert(entity_rid(backend, x, 2) != entity_rid(backend, e, 2));
                    assert(service_present(prev, backend, x));
                    let p = choose|p: Option<crate::store::LightState>| has_node(prev, #[trigger] service_view(backend, x, p));
                    assert(has_node(m3, service_view(backend, x, p)));
                } else {
                    assert(has_node(m3, sv));
                }
            }
        } else {
            assert forall|k: int|
                0 <= k < es.len() && entity_included(ui, #[trigger] es[k]) implies has_node(prev, device_view(backend, es[k]))
                    && has_node(prev, zbc_view(backend, es[k])) && service_present(prev, backend, es[k]) by {
                assert(k < n);
                assert(d[k] == es[k]);
            }
        }
    }
}

/// A service that is there, as an import left it, is what another upsert
/// would leave.
proof fn lemma_service_settled(nodes: Seq<ResView>, backend: Seq<char>, e: ImportedEntity)
    requires
        rids_unique(nodes),
        service_present(nodes, backend, e),
    ensures
        has_node(
            nodes,
            service_view(backend, e, light_at(nodes, service_link_of(backend, e.entity_id@, e.service_kind).rid)),
        ),
{
    let p = choose|p: Option<crate::store::LightState>| has_node(nodes, #[trigger] service_view(backend, e, p));
    let sv = service_view(backend, e, p);
    let i = choose|i: int| 0 <= i < nodes.len() && nodes[i] == sv;
    let rid = service_link_of(backend, e.entity_id@, e.service_kind).rid;
    match e.service_kind {
        HassServiceKind::Light | HassServiceKind::Switch => {
            assert(nodes[i].link.rid == rid && nodes[i].data is Light);
            let j = choose|j: int| 0 <= j < nodes.len() && (#[trigger] nodes[j]).link.rid == rid && nodes[j].data is Light;
            assert(i == j);
            assert(light_at(nodes, rid) == Some(projected_light(p, e)));
            lemma_projected_idempotent(p, e);
            assert(service_view(backend, e, light_at(nodes, rid)) == sv);
        },
        _ => {
            assert(service_view(backend, e, light_at(nodes, rid)) == sv);
        },
    }
}

fn kept_device_ids(ui: &HassUiConfig, backend: &str, entities: &Vec<ImportedEntity>) -> (r: Vec<u128>)
    requires
        ui.wf(),
    ensures
        forall|x: u128| r@.contains(x) <==> kept_devices(backend@, ui@, entities@).contains(x),
{
    let mut kept: Vec<u128> = Vec::new();
    let mut i: usize = 0;
    while i < entities.len()
        invariant
            0 <= i <= entities@.len(),
            ui.wf(),
            forall|x: u128| kept@.contains(x) <==> kept_devices(backend@, ui@, entities@.take(i as int)).contains(x),
        decreases entities@.len() - i,
    {
        let e = &entities[i];
        let ghost kept0 = kept@;
        if entity_included_exec(ui, e) {
            let dev = RType::Device.deterministic(
                crate::hass_import::device_key(backend, e.entity_id.as_str()).as_str(),
            );
            kept.push(dev.rid);
        }
        proof {
            lemma_kept_step(backend@, ui@, entities@, i as int, kept0, kept@);
        }
        i = i + 1;
    }
    proof {
        assert(entities@.take(entities@.len() as int) =~= entities@);
    }
    kept
}

fn entity_included_exec(ui: &HassUiConfig, e: &ImportedEntity) -> (r: bool)
    requires
        ui.wf(),
    ensures
        r == entity_included(ui@, *e),
{
    let detected = match e.detected_sensor_kind {
        Some(d) => d,
        None => HassSensorKind::Ignore,
    };
    ui.should_include(e.entity_id.as_str(), e.name.as_str(), e.available) && !(e.kind
        == HassEntityKind::BinarySensor && ui.sensor_kind(e.entity_id.as_str(), detected)
        == HassSensorKind::Ignore)
}

/// Deletes, with what they own, the devices an import made whose id is not
/// in `kept`. Afterwards none is left, and every resource is one of before
/// with links to deleted resources taken out; where none was there,
/// nothing changes.
pub fn prune_hass_devices(res: &mut Resources, kept: &Vec<u128>)
    requires
        old(res).wf(),
        old(res).event_stream().spec_next_id() + old(res).nodes().len() < u64::MAX,
    ensures
        final(res).wf(),
        nodes_within(final(res).nodes(), old(res).nodes()),
        only_kept(final(res).nodes(), kept@.to_set()),
        final(res).event_stream().spec_next_id() + final(res).nodes().len() <= old(res).event_stream().spec_next_id()
            + old(res).nodes().len(),
        only_kept(old(res).nodes(), kept@.to_set()) ==> final(res).nodes() == old(res).nodes()
            && final(res).event_stream() == old(res).event_stream(),
{
    let ghost s = res.nodes();
    let mut doomed: Vec<ResourceLink> = Vec::new();
    let mut k: usize = 0;
    while k < res.len()
        invariant
            0 <= k <= s.len(),
            res.nodes() == s,
            forall|a: int|
                0 <= a < k && is_hass_device(#[trigger] s[a]) && !kept@.contains(s[a].link.rid)
                    ==> doomed@.contains(s[a].link),
            only_kept(s, kept@.to_set()) ==> doomed@.len() == 0,
        decreases s.len() - k,
    {
        if is_hass_device_exec(res, k) {
            let l = res.node_at(k).link;
            if !rid_listed(kept, l.rid) {
                proof {
                    assert(!kept@.to_set().contains(l.rid));
                }
                let ghost d0 = doomed@;
                doomed.push(l);
                proof {
                    assert(doomed@[doomed@.len() - 1] == s[k as int].link);
                    assert forall|a: int|
                        0 <= a < k + 1 && is_hass_device(#[trigger] s[a]) && !kept@.contains(s[a].link.rid)
                        implies doomed@.contains(s[a].link) by {
                        if a < k {
                            assert(d0.contains(s[a].link));
                            let q = choose|q: int| 0 <= q < d0.len() && d0[q] == s[a].link;
                            assert(doomed@[q] == s[a].link);
                        } else {
                            assert(doomed@[doomed@.len() - 1] == s[a].link);
                        }
                    }
                }
            }
        }
        k = k + 1;
    }
    proof {
        lemma_nodes_within_refl(s);
    }
    let ghost bound = old(res).event_stream().spec_next_id() + old(res).nodes().len();
    let mut d: usize = 0;
    while d < doomed.len()
        invariant
            0 <= d <= doomed@.len(),
            res.wf(),
            bound < u64::MAX,
            bound == old(res).event_stream().spec_next_id() + old(res).nodes().len(),
            res.event_stream().spec_next_id() + res.nodes().len() <= bound,
            nodes_within(res.nodes(), s),
            s == old(res).nodes(),
            doomed@.len() == 0 ==> res.nodes() == s && res.event_stream() == old(res).event_stream(),
            forall|q: int| 0 <= q < d ==> !has_rid(res.nodes(), (#[trigger] doomed@[q]).rid),
        decreases doomed@.len() - d,
    {
        let l = doomed[d];
        let ghost before = res.nodes();
        if res.contains(l.rid) {
            let _ = res.delete(&l);
            proof {
                assert(deleted_from(before, res.nodes(), l));
                assert(nodes_within(res.nodes(), before)) by {
                    assert forall|a: int| 0 <= a < res.nodes().len() implies crate::store::has_node_like(before, #[trigger] res.nodes()[a]) by {}
                }
                lemma_nodes_within_trans(res.nodes(), before, s);
                assert forall|q: int| 0 <= q < d + 1 implies !has_rid(res.nodes(), (#[trigger] doomed@[q]).rid) by {
                    if q < d && has_rid(res.nodes(), doomed@[q].rid) {
                        let a = choose|a: int| 0 <= a < res.nodes().len() && (#[trigger] res.nodes()[a]).link.rid == doomed@[q].rid;
                        assert(crate::store::has_node_like(before, res.nodes()[a]));
                        let b = choose|b: int| 0 <= b < before.len() && (#[trigger] before[b]).link == res.nodes()[a].link
                            && before[b].owner == res.nodes()[a].owner && before[b].data == res.nodes()[a].data
                            && crate::store::links_within(res.nodes()[a].links, before[b].links);
                        assert(has_rid(before, doomed@[q].rid));
                    }
                }
            }
        }
        d = d + 1;
    }
    proof {
        let f = res.nodes();
        assert forall|i: int| 0 <= i < f.len() && is_hass_device(#[trigger] f[i]) implies kept@.to_set().contains(f[i].link.rid) by {
            let b = choose|b: int| 0 <= b < s.len() && (#[trigger] s[b]).link == f[i].link
                && s[b].owner == f[i].owner && s[b].data == f[i].data && crate::store::links_within(f[i].links, s[b].links);
            assert(is_hass_device(s[b]));
            if !kept@.contains(s[b].link.rid) {
                assert(doomed@.contains(s[b].link));
                let q = choose|q: int| 0 <= q < doomed@.len() && doomed@[q] == s[b].link;
                assert(!has_rid(f, doomed@[q].rid));
            }
        }
    }
}

/// Upserts the entities the sync includes, in order. Where every included
/// entity is there already as an upsert would leave it, nothing changes
/// and no event is emitted.
pub fn upsert_all(res: &mut Resources, ui: &HassUiConfig, backend: &str, entities: &Vec<ImportedEntity>)
    requires
        old(res).wf(),
        ui.wf(),
        old(res).event_stream().spec_next_id() + old(res).nodes().len() + 6 * entities@.len() < u64::MAX,
    ensures
        final(res).wf(),
        final(res).nodes() == synced(old(res).nodes(), backend@, ui@, entities@),
        final(res).event_stream().spec_next_id() + final(res).nodes().len() <= old(res).event_stream().spec_next_id()
            + old(res).nodes().len() + 6 * entities@.len(),
        settled(old(res).nodes(), backend@, ui@, entities@) ==> final(res).nodes() == old(res).nodes()
            && final(res).event_stream() == old(res).event_stream(),
{
    let ghost n0 = res.nodes();
    let ghost bound = old(res).event_stream().spec_next_id() + old(res).nodes().len() + 6 * entities@.len();
    let mut i: usize = 0;
    while i < entities.len()
        invariant
            0 <= i <= entities@.len(),
            res.wf(),
            ui.wf(),
            bound < u64::MAX,
            bound == old(res).event_stream().spec_next_id() + old(res).nodes().len() + 6 * entities@.len(),
            res.event_stream().spec_next_id() + res.nodes().len() + 6 * (entities@.len() - i) <= bound,
            res.nodes() == synced(n0, backend@, ui@, entities@.take(i as int)),
            n0 == old(res).nodes(),
            settled(n0, backend@, ui@, entities@) ==> res.nodes() == n0 && res.event_stream() == old(res).event_stream(),
        decreases entities@.len() - i,
    {
        let e = &entities[i];
        let take_it = entity_included_exec(ui, e);
        let ghost before = res.nodes();
        proof {
            let t0 = entities@.take(i as int);
            let t1 = entities@.take(i + 1);
            assert(t1.drop_last() =~= t0);
            assert(t1.last() == *e);
            assert(entities@[i as int] == *e);
        }
        if take_it {
            upsert_entity(res, backend, e);
            proof {
                lemma_upserted_len(before, backend@, *e);
            }
        }
        i = i + 1;
    }
    proof {
        assert(entities@.take(entities@.len() as int) =~= entities@);
    }
}

/// Brings the store in line with a full sync of Home Assistant: first every
/// device an import made whose id is not that of an included entity's
/// device is deleted, with what it owns; then each included entity is
/// upserted, in order.
///
/// Afterwards the store is the upserts applied to a pruned store, which
/// holds no device of an import but those of included entities. Where the
/// ids derived for the included entities all differ, every included
/// entity's device, zigbee connectivity and service are there as one more
/// upsert would leave them, so that a second sync on the same input
/// changes nothing and emits no event.
pub fn apply_full_sync(res: &mut Resources, ui: &HassUiConfig, backend: &str, entities: &Vec<ImportedEntity>)
    requires
        old(res).wf(),
        ui.wf(),
        old(res).event_stream().spec_next_id() + old(res).nodes().len() + 6 * entities@.len() < u64::MAX,
    ensures
        final(res).wf(),
        exists|p: Seq<ResView>|
            nodes_within(p, old(res).nodes()) && only_kept(p, kept_devices(backend@, ui@, entities@))
                && final(res).nodes() == synced(p, backend@, ui@, entities@),
        only_kept(final(res).nodes(), kept_devices(backend@, ui@, entities@)),
        ids_distinct(backend@, ui@, entities@) ==> settled(final(res).nodes(), backend@, ui@, entities@),
        settled(old(res).nodes(), backend@, ui@, entities@) && only_kept(
            old(res).nodes(),
            kept_devices(backend@, ui@, entities@),
        ) ==> final(res).nodes() == old(res).nodes() && final(res).event_stream() == old(res).event_stream(),
        final(res).event_stream().spec_next_id() + final(res).nodes().len() <= old(res).event_stream().spec_next_id()
            + old(res).nodes().len() + 6 * entities@.len(),
{
    let kept = kept_device_ids(ui, backend, entities);
    let ghost ks = kept_devices(backend@, ui@, entities@);
    proof {
        assert(kept@.to_set() =~= ks);
    }
    prune_hass_devices(res, &kept);
    let ghost p = res.nodes();
    upsert_all(res, ui, backend, entities);
    proof {
        assert forall|i: int| 0 <= i < entities@.len() && entity_included(ui@, #[trigger] entities@[i]) implies ks.contains(
            device_link_of(backend@, entities@[i].entity_id@).rid,
        ) by {}
        lemma_synced_only_kept(p, backend@, ui@, entities@, ks);
        if ids_distinct(backend@, ui@, entities@) {
            lemma_synced_present(p, backend@, ui@, entities@);
            let f = res.nodes();
            assert forall|i: int| 0 <= i < entities@.len() && entity_included(ui@, #[trigger] entities@[i]) implies has_node(
                f,
                device_view(backend@, entities@[i]),
            ) && has_node(f, zbc_view(backend@, entities@[i])) && has_node(
                f,
                service_view(
                    backend@,
                    entities@[i],
                    light_at(f, service_link_of(backend@, entities@[i].entity_id@, entities@[i].service_kind).rid),
                ),
            ) by {
                lemma_service_settled(f, backend@, entities@[i]);
            }
        }
    }
}


/// Syncs one entity: where the sync includes it, it is upserted; where it
/// does not, its device is deleted with what it owns.
pub fn sync_entity(res: &mut Resources, ui: &HassUiConfig, backend: &str, e: &ImportedEntity)
    requires
        old(res).wf(),
        ui.wf(),
        old(res).event_stream().spec_next_id() + old(res).nodes().len() + 6 < u64::MAX,
    ensures
        final(res).wf(),
        entity_included(ui@, *e) ==> final(res).nodes() == upserted(old(res).nodes(), backend@, *e),
        !entity_included(ui@, *e) && has_rid(old(res).nodes(), device_link_of(backend@, e.entity_id@).rid)
            ==> deleted_from(old(res).nodes(), final(res).nodes(), device_link_of(backend@, e.entity_id@)),
        !entity_included(ui@, *e) && !has_rid(old(res).nodes(), device_link_of(backend@, e.entity_id@).rid)
            ==> final(res).nodes() == old(res).nodes() && final(res).event_stream() == old(res).event_stream(),
{
    if entity_included_exec(ui, e) {
        upsert_entity(res, backend, e);
    } else {
        let dev = RType::Device.deterministic(crate::hass_import::device_key(backend, e.entity_id.as_str()).as_str());
        let _ = res.delete(&dev);
    }
}


/// The link of the room made for a configured room id:
/// `hass:<backend>:room:<room id>`.
pub open spec fn room_link_of(backend: Seq<char>, room_id: Seq<char>) -> ResourceLink {
    ResourceLink {
        rid: derived_id(
            RType::Room,
            key_bytes_of_str(
                seq!['h', 'a', 's', 's', ':'] + backend + seq![':', 'r', 'o', 'o', 'm', ':'] + room_id,
            ),
        ),
        rtype: RType::Room,
    }
}

/// The store with the same resources in the same places, each holding at
/// least the links it held, and all but those with an id of `rooms` as they
/// were.
pub open spec fn links_grown(before: Seq<ResView>, after: Seq<ResView>, room: u128) -> bool {
    &&& after.len() == before.len()
    &&& forall|j: int|
        0 <= j < before.len() ==> (#[trigger] after[j]).link == before[j].link && (forall|l: ResourceLink|
            before[j].links.contains(l) ==> after[j].links.contains(l)) && (before[j].link.rid != room
            || before[j].link.rtype != RType::Room ==> after[j] == before[j])
}

fn link_listed(v: &Vec<ResourceLink>, l: ResourceLink) -> (r: bool)
    ensures
        r == v@.contains(l),
{
    let mut i: usize = 0;
    while i < v.len()
        invariant
            0 <= i <= v@.len(),
            forall|j: int| 0 <= j < i ==> v@[j] != l,
        decreases v@.len() - i,
    {
        if v[i] == l {
            assert(v@[i as int] == l);
            return true;
        }
        i = i + 1;
    }
    false
}

fn copy_links(v: &Vec<ResourceLink>) -> (r: Vec<ResourceLink>)
    ensures
        r@ == v@,
{
    let mut out: Vec<ResourceLink> = Vec::new();
    let mut i: usize = 0;
    while i < v.len()
        invariant
            0 <= i <= v@.len(),
            out@ == v@.subrange(0, i as int),
        decreases v@.len() - i,
    {
        out.push(v[i]);
        proof {
            assert(v@.subrange(0, i + 1) =~= v@.subrange(0, i as int).push(v@[i as int]));
        }
        i = i + 1;
    }
    proof {
        assert(v@.subrange(0, v@.len() as int) =~= v@);
    }
    out
}

/// Makes a device a child of a room: where the room is in the store and
/// does not list the device yet, the device is added to its links. Nothing
/// else changes; a room that lists it already emits no event.
pub fn place_device(res: &mut Resources, room: u128, device: ResourceLink)
    requires
        old(res).wf(),
        old(res).event_stream().spec_next_id() < u64::MAX,
    ensures
        final(res).wf(),
        links_grown(old(res).nodes(), final(res).nodes(), room),
        forall|j: int|
            0 <= j < final(res).nodes().len() && (#[trigger] final(res).nodes()[j]).link.rid == room
                && final(res).nodes()[j].link.rtype == RType::Room ==> final(res).nodes()[j].links.contains(device),
        final(res).event_stream().spec_next_id() <= old(res).event_stream().spec_next_id() + 1,
        (forall|j: int|
            0 <= j < old(res).nodes().len() && (#[trigger] old(res).nodes()[j]).link.rid == room
                && old(res).nodes()[j].link.rtype == RType::Room ==> old(res).nodes()[j].links.contains(device))
            ==> final(res).nodes() == old(res).nodes()
            && final(res).event_stream() == old(res).event_stream(),
{
    let ghost n0 = res.nodes();
    match res.get(room) {
        None => {
            proof {
                assert forall|j: int| 0 <= j < n0.len() implies (#[trigger] n0[j]).link == n0[j].link && (forall|l: ResourceLink|
                    n0[j].links.contains(l) ==> n0[j].links.contains(l)) && (n0[j].link.rid != room || n0[j].link.rtype != RType::Room ==> n0[j] == n0[j]) by {}
                assert forall|j: int| 0 <= j < n0.len() && (#[trigger] n0[j]).link.rid == room && n0[j].link.rtype == RType::Room implies n0[j].links.contains(device) by {
                    assert(has_rid(n0, room));
                }
            }
        },
        Some(node) => {
            let ghost i = choose|i: int| 0 <= i < n0.len() && (#[trigger] n0[i]) == node@;
            proof {
                assert forall|j: int| 0 <= j < n0.len() && (#[trigger] n0[j]).link.rid == room implies j == i by {
                    assert(n0[i].link.rid == room);
                }
            }
            if node.link.rtype == RType::Room && !link_listed(&node.links, device) {
                let mut links = copy_links(&node.links);
                links.push(device);
                let ghost lv = links@;
                let _ = res.update_links(room, links);
                proof {
                    let f = res.nodes();
                    assert(f == n0.update(i, ResView { links: lv, ..n0[i] }));
                    assert(lv[lv.len() - 1] == device);
                    assert forall|j: int| 0 <= j < n0.len() implies (#[trigger] f[j]).link == n0[j].link && (forall|l: ResourceLink|
                        n0[j].links.contains(l) ==> f[j].links.contains(l)) && (n0[j].link.rid != room || n0[j].link.rtype != RType::Room ==> f[j] == n0[j]) by {
                        if j == i {
                            assert forall|l: ResourceLink| n0[j].links.contains(l) implies f[j].links.contains(l) by {
                                let q = choose|q: int| 0 <= q < n0[j].links.len() && n0[j].links[q] == l;
                                assert(lv[q] == l);
                            }
                        }
                    }
                    assert forall|j: int| 0 <= j < f.len() && (#[trigger] f[j]).link.rid == room && f[j].link.rtype == RType::Room implies f[j].links.contains(device) by {
                        assert(j == i);
                        assert(lv[lv.len() - 1] == device);
                    }
                }
            } else {
                proof {
                    assert forall|j: int| 0 <= j < n0.len() implies (#[trigger] n0[j]).link == n0[j].link && (forall|l: ResourceLink|
                        n0[j].links.contains(l) ==> n0[j].links.contains(l)) && (n0[j].link.rid != room || n0[j].link.rtype != RType::Room ==> n0[j] == n0[j]) by {}
                    assert forall|j: int| 0 <= j < n0.len() && (#[trigger] n0[j]).link.rid == room && n0[j].link.rtype == RType::Room implies n0[j].links.contains(device) by {
                        assert(j == i);
                    }
                }
            }
        },
    }
}

/// The room id an included entity goes to.
pub open spec fn entity_room(ui: UiConfigView, e: ImportedEntity) -> Seq<char> {
    assigned_room(ui, e.entity_id@, crate::hass_ui::opt_view(e.area_name))
}

/// Puts each included entity's device into the room it is assigned to,
/// where that room is in the store. Afterwards each such room lists the
/// device; every resource keeps its place and its links, and resources
/// other than rooms are as they were. Where every device is listed
/// already, nothing changes and no event is emitted.
pub fn place_devices(res: &mut Resources, ui: &HassUiConfig, backend: &str, entities: &Vec<ImportedEntity>)
    requires
        old(res).wf(),
        ui.wf(),
        old(res).event_stream().spec_next_id() + entities@.len() < u64::MAX,
    ensures
        final(res).wf(),
        final(res).nodes().len() == old(res).nodes().len(),
        forall|j: int|
            0 <= j < old(res).nodes().len() && (#[trigger] old(res).nodes()[j]).link.rtype != RType::Room
                ==> final(res).nodes()[j] == old(res).nodes()[j],
        forall|k: int, j: int|
            0 <= k < entities@.len() && entity_included(ui@, #[trigger] entities@[k]) && 0 <= j
                < final(res).nodes().len() && (#[trigger] final(res).nodes()[j]).link == room_link_of(
                backend@,
                entity_room(ui@, entities@[k]),
            ) ==> final(res).nodes()[j].links.contains(device_link_of(backend@, entities@[k].entity_id@)),
{
    let ghost n0 = res.nodes();
    let mut i: usize = 0;
    while i < entities.len()
        invariant
            0 <= i <= entities@.len(),
            res.wf(),
            ui.wf(),
            res.event_stream().spec_next_id() + (entities@.len() - i) <= old(res).event_stream().spec_next_id()
                + entities@.len(),
            old(res).event_stream().spec_next_id() + entities@.len() < u64::MAX,
            n0 == old(res).nodes(),
            res.nodes().len() == n0.len(),
            forall|j: int| 0 <= j < n0.len() ==> (#[trigger] res.nodes()[j]).link == n0[j].link,
            forall|j: int|
                0 <= j < n0.len() && n0[j].link.rtype != RType::Room ==> #[trigger] res.nodes()[j] == n0[j],
            forall|k: int, j: int|
                0 <= k < i && entity_included(ui@, #[trigger] entities@[k]) && 0 <= j < res.nodes().len()
                    && (#[trigger] res.nodes()[j]).link == room_link_of(backend@, entity_room(ui@, entities@[k]))
                    ==> res.nodes()[j].links.contains(device_link_of(backend@, entities@[k].entity_id@)),
        decreases entities@.len() - i,
    {
        let e = &entities[i];
        if entity_included_exec(ui, e) {
            let area = match &e.area_name {
                Some(a) => Some(a.as_str()),
                None => None,
            };
            let room_id = assigned_room_id(ui, e.entity_id.as_str(), area);
            let mut key = String::from_str("hass:");
            key.append(backend);
            key.append(":room:");
            key.append(room_id.as_str());
            proof {
                reveal_strlit("hass:");
                reveal_strlit(":room:");
                assert(key@ =~= seq!['h', 'a', 's', 's', ':'] + backend@ + seq![':', 'r', 'o', 'o', 'm', ':'] + room_id@);
                assert(match area { Some(a) => Some(a@), None => None::<Seq<char>> } == crate::hass_ui::opt_view(e.area_name));
            }
            let room = RType::Room.deterministic(key.as_str());
            let dev = RType::Device.deterministic(crate::hass_import::device_key(backend, e.entity_id.as_str()).as_str());
            let ghost before = res.nodes();
            place_device(res, room.rid, dev);
            proof {
                assert(room.rid == room_link_of(backend@, entity_room(ui@, *e)).rid);
                assert(dev == device_link_of(backend@, e.entity_id@));
                let f = res.nodes();
                assert forall|k: int, j: int|
                    0 <= k < i + 1 && entity_included(ui@, #[trigger] entities@[k]) && 0 <= j < f.len()
                        && (#[trigger] f[j]).link == room_link_of(backend@, entity_room(ui@, entities@[k]))
                        implies f[j].links.contains(device_link_of(backend@, entities@[k].entity_id@)) by {
                    if k < i {
                        assert(before[j].link == f[j].link);
                        assert(before[j].links.contains(device_link_of(backend@, entities@[k].entity_id@)));
                    } else {
                        assert(entities@[k] == *e);
                    }
                }
                assert forall|j: int| 0 <= j < n0.len() && n0[j].link.rtype != RType::Room implies #[trigger] f[j] == n0[j] by {
                    assert(before[j] == n0[j]);
                }
            }
        }
        i = i + 1;
    }
}


/// Sets a grouped light's state from its lights (on, and brightness on Home
/// Assistant's scale if known; see `grouped_state_of`). Only a grouped
/// light at that id is touched; the same state again emits no event.
pub fn set_grouped_state(res: &mut Resources, glight: u128, members: &Vec<(bool, Option<u8>)>)
    requires
        old(res).wf(),
        old(res).event_stream().spec_next_id() < u64::MAX,
    ensures
        final(res).wf(),
        final(res).nodes().len() == old(res).nodes().len(),
        forall|j: int|
            0 <= j < old(res).nodes().len() ==> (#[trigger] final(res).nodes()[j]).link == old(res).nodes()[j].link
                && final(res).nodes()[j].owner == old(res).nodes()[j].owner
                && final(res).nodes()[j].links == old(res).nodes()[j].links,
        forall|j: int|
            0 <= j < old(res).nodes().len() && (old(res).nodes()[j].link.rid != glight
                || old(res).nodes()[j].link.rtype != RType::GroupedLight) ==> #[trigger] final(res).nodes()[j]
                == old(res).nodes()[j],
        forall|j: int|
            0 <= j < final(res).nodes().len() && (#[trigger] final(res).nodes()[j]).link.rid == glight
                && final(res).nodes()[j].link.rtype == RType::GroupedLight ==> final(res).nodes()[j].data
                == (DataView::Grouped { on: grouped_state_of(members@).0, dimming: grouped_state_of(members@).1 }),
{
    let ghost n0 = res.nodes();
    let state = grouped_light_state(members);
    match res.get(glight) {
        None => {},
        Some(node) => {
            if node.link.rtype == RType::GroupedLight {
                let ghost i = choose|i: int| 0 <= i < n0.len() && (#[trigger] n0[i]) == node@;
                let updated = StoredResource {
                    link: node.link,
                    owner: node.owner,
                    links: copy_links(&node.links),
                    data: ResourceData::Grouped { on: state.0, dimming: state.1 },
                };
                let ghost uv = updated@;
                proof {
                    lemma_rid_index(n0, glight);
                    assert(i == rid_index(n0, glight));
                }
                res.put(updated);
                proof {
                    let f = res.nodes();
                    assert(f == n0.update(i, uv));
                    assert forall|j: int| 0 <= j < f.len() && (#[trigger] f[j]).link.rid == glight implies j == i by {
                        if j != i {
                            assert(f[j] == n0[j]);
                            assert(n0[i].link.rid == glight);
                        }
                    }
                }
            }
        },
    }
}


/// The link of the grouped light of a configured room:
/// `hass:<backend>:grouped:<room id>`.
pub open spec fn grouped_link_of(backend: Seq<char>, room_id: Seq<char>) -> ResourceLink {
    ResourceLink {
        rid: derived_id(
            RType::GroupedLight,
            key_bytes_of_str(
                seq!['h', 'a', 's', 's', ':'] + backend + seq![':', 'g', 'r', 'o', 'u', 'p', 'e', 'd', ':']
                    + room_id,
            ),
        ),
        rtype: RType::GroupedLight,
    }
}

/// Makes sure a configured room is in the store: where neither the room nor
/// its grouped light is there, the room (listing its grouped light) and the
/// grouped light (owned by the room, off, brightness unknown) are added.
/// Resources already there are left as they are.
pub fn ensure_room(res: &mut Resources, backend: &str, room_id: &str)
    requires
        old(res).wf(),
        old(res).event_stream().spec_next_id() + 2 < u64::MAX,
    ensures
        final(res).wf(),
        final(res).nodes().len() >= old(res).nodes().len(),
        forall|j: int| 0 <= j < old(res).nodes().len() ==> #[trigger] final(res).nodes()[j] == old(res).nodes()[j],
        ({
            let room = room_link_of(backend@, room_id@);
            let gl = grouped_link_of(backend@, room_id@);
            !has_rid(old(res).nodes(), room.rid) && !has_rid(old(res).nodes(), gl.rid) && room.rid != gl.rid
                ==> final(res).nodes() == old(res).nodes().push(
                ResView { link: room, owner: None, links: seq![gl], data: DataView::Other },
            ).push(
                ResView {
                    link: gl,
                    owner: Some(room),
                    links: Seq::empty(),
                    data: DataView::Grouped { on: false, dimming: None },
                },
            )
        }),
{
    let mut key = String::from_str("hass:");
    key.append(backend);
    let mut room_key = key.clone();
    room_key.append(":room:");
    room_key.append(room_id);
    let mut gl_key = key;
    gl_key.append(":grouped:");
    gl_key.append(room_id);
    proof {
        reveal_strlit("hass:");
        reveal_strlit(":room:");
        reveal_strlit(":grouped:");
        assert(room_key@ =~= seq!['h', 'a', 's', 's', ':'] + backend@ + seq![':', 'r', 'o', 'o', 'm', ':'] + room_id@);
        assert(gl_key@ =~= seq!['h', 'a', 's', 's', ':'] + backend@ + seq![':', 'g', 'r', 'o', 'u', 'p', 'e', 'd', ':']
            + room_id@);
    }
    let room = RType::Room.deterministic(room_key.as_str());
    let gl = RType::GroupedLight.deterministic(gl_key.as_str());
    let ghost n0 = res.nodes();
    let mut room_links: Vec<ResourceLink> = Vec::new();
    room_links.push(gl);
    assert(room_links@ =~= seq![gl]);
    res.add(StoredResource { link: room, owner: None, links: room_links, data: ResourceData::Other });
    let ghost n1 = res.nodes();
    let no_links: Vec<ResourceLink> = Vec::new();
    assert(no_links@ =~= Seq::<ResourceLink>::empty());
    res.add(StoredResource { link: gl, owner: Some(room), links: no_links, data: ResourceData::Grouped { on: false, dimming: None } });
    proof {
        if !has_rid(n0, room.rid) && !has_rid(n0, gl.rid) && room.rid != gl.rid {
            assert forall|j: int| 0 <= j < n1.len() implies (#[trigger] n1[j]).link.rid != gl.rid by {
                if j < n0.len() {
                    assert(n1[j] == n0[j]);
                }
            }
        }
    }
}

} // verus!
