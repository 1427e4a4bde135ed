use vstd::prelude::*;

use crate::events::{EventKind, HueEvent, HueEventStream};
use crate::hass_import::Xy;
use crate::rtype::{RType, ResourceLink, key_bytes_of_id, key_bytes_of_str, derived_id};

verus! {

/// A resource of the store, as far as the store's rules see it: its link,
/// the resource it belongs to (for a scene, its room or zone), and every
/// other link it holds (children, services, action targets, locations).
#[derive(Debug)]
pub struct StoredResource {
    pub link: ResourceLink,
    pub owner: Option<ResourceLink>,
    pub links: Vec<ResourceLink>,
    pub data: ResourceData,
}

/// The state a light shows: on, brightness in hundredths of a percent, color
/// as CIE xy in ten-thousandths, color temperature in mirek.
#[derive(Clone, Copy, Debug, PartialEq, Eq, Structural)]
pub struct LightState {
    pub on: bool,
    pub brightness: Option<u32>,
    pub xy: Option<Xy>,
    pub mirek: Option<u16>,
}

/// What the store holds of a resource beside its links, for the kinds whose
/// fields the bridge's own logic reads.
#[derive(Debug)]
pub enum ResourceData {
    Other,
    Light(LightState),
    Device { manufacturer: String, model_id: String, name: String },
    Zigbee { mac_address: String },
    Grouped { on: bool, dimming: Option<u32> },
}

pub ghost enum DataView {
    Other,
    Light(LightState),
    Device { manufacturer: Seq<char>, model_id: Seq<char>, name: Seq<char> },
    Zigbee { mac_address: Seq<char> },
    Grouped { on: bool, dimming: Option<u32> },
}

impl View for ResourceData {
    type V = DataView;

    open spec fn view(&self) -> DataView {
        match self {
            ResourceData::Other => DataView::Other,
            ResourceData::Light(l) => DataView::Light(*l),
            ResourceData::Device { manufacturer, model_id, name } => DataView::Device {
                manufacturer: manufacturer@,
                model_id: model_id@,
                name: name@,
            },
            ResourceData::Zigbee { mac_address } => DataView::Zigbee { mac_address: mac_address@ },
            ResourceData::Grouped { on, dimming } => DataView::Grouped { on: *on, dimming: *dimming },
        }
    }
}

pub ghost struct ResView {
    pub link: ResourceLink,
    pub owner: Option<ResourceLink>,
    pub links: Seq<ResourceLink>,
    pub data: DataView,
}

impl View for StoredResource {
    type V = ResView;

    open spec fn view(&self) -> ResView {
        ResView { link: self.link, owner: self.owner, links: self.links@, data: self.data@ }
    }
}

/// What the store keeps beside a resource: its legacy index (for a scene,
/// its number within its room) and the backend topic it came from.
#[derive(Debug)]
pub struct AuxData {
    pub index: Option<u32>,
    pub topic: Option<String>,
}

#[derive(Clone, Copy, Debug, PartialEq, Eq, Structural)]
pub enum StoreError {
    /// No resource has this id.
    NotFound(u128),
    /// No resource has this legacy index.
    V1NotFound(u32),
    /// The resource has another type than asked for.
    TypeMismatch(RType),
    /// No number is left for another resource of this type.
    Full(RType),
}

/// The number of scene numbers within one room.
pub const MAX_SCENE_ID: u32 = 100;

/// The number of events kept for clients that reconnect.
pub const HUE_EVENTS_BUFFER_SIZE: usize = 128;

pub open spec fn nodes_view(v: Seq<StoredResource>) -> Seq<ResView> {
    v.map_values(|r: StoredResource| r@)
}

pub open spec fn has_rid(s: Seq<ResView>, rid: u128) -> bool {
    exists|i: int| 0 <= i < s.len() && (#[trigger] s[i]).link.rid == rid
}

pub open spec fn has_link(s: Seq<ResView>, l: ResourceLink) -> bool {
    exists|i: int| 0 <= i < s.len() && (#[trigger] s[i]).link == l
}

/// `s` has a resource with the link and owner of `n` that holds every link
/// `n` holds.
pub open spec fn has_node_like(s: Seq<ResView>, n: ResView) -> bool {
    exists|j: int|
        0 <= j < s.len() && (#[trigger] s[j]).link == n.link && s[j].owner == n.owner && s[j].data
            == n.data && links_within(n.links, s[j].links)
}

/// Every link of `a` is among those of `b`.
pub open spec fn links_within(a: Seq<ResourceLink>, b: Seq<ResourceLink>) -> bool {
    forall|k: int| 0 <= k < a.len() ==> b.contains(#[trigger] a[k])
}

pub open spec fn rids_unique(s: Seq<ResView>) -> bool {
    forall|i: int, j: int| 0 <= i < j < s.len() ==> (#[trigger] s[i]).link.rid != (#[trigger] s[j]).link.rid
}

/// Every link a resource holds, its owner included, leads to a resource of
/// the store with that id and type.
pub open spec fn integrity(s: Seq<ResView>) -> bool {
    forall|i: int|
        0 <= i < s.len() ==> (forall|k: int|
            0 <= k < (#[trigger] s[i]).links.len() ==> has_link(s, #[trigger] s[i].links[k]))
            && (s[i].owner is Some ==> has_link(s, s[i].owner->0))
}

pub open spec fn ids_unique(s: Seq<(u32, u128)>) -> bool {
    forall|i: int, j: int|
        0 <= i < j < s.len() ==> (#[trigger] s[i]).0 != (#[trigger] s[j]).0 && s[i].1 != s[j].1
}

/// The scene numbers in use in a room: those of the scenes it owns.
pub open spec fn scene_number_used(
    nodes: Seq<ResView>,
    aux: Seq<(u128, Option<u32>)>,
    room: ResourceLink,
    x: u32,
) -> bool {
    exists|i: int, j: int|
        0 <= i < nodes.len() && 0 <= j < aux.len() && (#[trigger] nodes[i]).link.rtype
            == RType::Scene && nodes[i].owner == Some(room) && (#[trigger] aux[j]).0
            == nodes[i].link.rid && aux[j].1 == Some(x)
}

pub open spec fn aux_view(v: Seq<(u128, AuxData)>) -> Seq<(u128, Option<u32>)> {
    v.map_values(|e: (u128, AuxData)| (e.0, e.1.index))
}

/// The store of Hue resources: resources by id, their side data, the
/// legacy index of each resource that has one, and the event stream.
#[derive(Debug)]
pub struct Resources {
    res: Vec<StoredResource>,
    aux: Vec<(u128, AuxData)>,
    id_v1: Vec<(u32, u128)>,
    events: HueEventStream,
}

impl Resources {
    pub closed spec fn nodes(&self) -> Seq<ResView> {
        nodes_view(self.res@)
    }

    pub closed spec fn aux_indices(&self) -> Seq<(u128, Option<u32>)> {
        aux_view(self.aux@)
    }

    /// The legacy index of each resource that has one.
    pub closed spec fn v1_ids(&self) -> Seq<(u32, u128)> {
        self.id_v1@
    }

    pub closed spec fn event_stream(&self) -> HueEventStream {
        self.events
    }

    /// Each id occurs once; legacy indices and the ids they stand for are
    /// each used once, and each such id is that of a resource of the store.
    pub open spec fn wf(&self) -> bool {
        &&& rids_unique(self.nodes())
        &&& ids_unique(self.v1_ids())
        &&& forall|i: int|
            0 <= i < self.v1_ids().len() ==> has_rid(self.nodes(), (#[trigger] self.v1_ids()[i]).1)
        &&& self.event_stream().wf()
    }

    /// An empty store.
    pub fn new() -> (r: Self)
        ensures
            r.wf(),
            r.nodes() == Seq::<ResView>::empty(),
            r.v1_ids() == Seq::<(u32, u128)>::empty(),
            r.event_stream().spec_next_id() == 0,
    {
        let r = Resources {
            res: Vec::new(),
            aux: Vec::new(),
            id_v1: Vec::new(),
            events: HueEventStream::new(HUE_EVENTS_BUFFER_SIZE),
        };
        proof {
            assert(r.nodes() =~= Seq::<ResView>::empty());
        }
        r
    }

    /// The event stream of the store.
    pub fn hue_event_stream(&self) -> (r: &HueEventStream)
        ensures
            *r == self.event_stream(),
    {
        &self.events
    }

    fn index_of(&self, rid: u128) -> (r: Option<usize>)
        ensures
            match r {
                Some(i) => i < self.nodes().len() && self.nodes()[i as int].link.rid == rid,
                None => !has_rid(self.nodes(), rid),
            },
    {
        let mut i: usize = 0;
        while i < self.res.len()
            invariant
                0 <= i <= self.res@.len(),
                forall|j: int| 0 <= j < i ==> (#[trigger] self.nodes()[j]).link.rid != rid,
            decreases self.res@.len() - i,
        {
            if self.res[i].link.rid == rid {
                return Some(i);
            }
            i = i + 1;
        }
        None
    }

    /// The resource with this id.
    pub fn get(&self, rid: u128) -> (r: Option<&StoredResource>)
        ensures
            match r {
                Some(n) => n@.link.rid == rid && exists|i: int|
                    0 <= i < self.nodes().len() && (#[trigger] self.nodes()[i]) == n@,
                None => !has_rid(self.nodes(), rid),
            },
    {
        match self.index_of(rid) {
            Some(i) => Some(&self.res[i]),
            None => None,
        }
    }

    /// The resource at this position.
    pub fn node_at(&self, i: usize) -> (r: &StoredResource)
        requires
            i < self.nodes().len(),
        ensures
            r@ == self.nodes()[i as int],
    {
        &self.res[i]
    }

    /// How many resources the store holds.
    pub fn len(&self) -> (r: usize)
        ensures
            r == self.nodes().len(),
    {
        self.res.len()
    }

    /// Whether a resource has this id.
    pub fn contains(&self, rid: u128) -> (r: bool)
        ensures
            r == has_rid(self.nodes(), rid),
    {
        self.index_of(rid).is_some()
    }

    /// The owner of the resource at this link, checked for its type.
    pub fn owner_of(&self, link: &ResourceLink) -> (r: Result<Option<ResourceLink>, StoreError>)
        requires
            self.wf(),
        ensures
            !has_rid(self.nodes(), link.rid) <==> r == Err::<Option<ResourceLink>, StoreError>(
                StoreError::NotFound(link.rid),
            ),
            has_rid(self.nodes(), link.rid) && !has_link(self.nodes(), *link) <==> r == Err::<
                Option<ResourceLink>,
                StoreError,
            >(StoreError::TypeMismatch(link.rtype)),
            r is Ok ==> exists|i: int|
                0 <= i < self.nodes().len() && (#[trigger] self.nodes()[i]).link == *link
                    && r->Ok_0 == self.nodes()[i].owner,
    {
        match self.index_of(link.rid) {
            Some(i) => {
                if self.res[i].link.rtype == link.rtype {
                    Ok(self.res[i].owner)
                } else {
                    proof {
                        assert forall|j: int| 0 <= j < self.nodes().len() implies (
                        #[trigger] self.nodes()[j]).link != *link by {
                            if j != i {
                                assert(self.nodes()[j].link.rid != self.nodes()[i as int].link.rid);
                            }
                        }
                    }
                    Err(StoreError::TypeMismatch(link.rtype))
                }
            },
            None => Err(StoreError::NotFound(link.rid)),
        }
    }

    /// Adds a resource under its link; nothing changes if its id is taken.
    /// A new resource is announced by an add event.
    pub fn add(&mut self, resource: StoredResource)
        requires
            old(self).wf(),
            old(self).event_stream().spec_next_id() < u64::MAX,
        ensures
            final(self).wf(),
            has_rid(old(self).nodes(), resource.link.rid) ==> final(self).nodes() == old(
                self,
            ).nodes() && final(self).event_stream() == old(self).event_stream(),
            !has_rid(old(self).nodes(), resource.link.rid) ==> final(self).nodes() == old(
                self,
            ).nodes().push(resource@) && final(self).event_stream().retained().last() == (HueEvent {
                id: old(self).event_stream().spec_next_id(),
                kind: EventKind::Add,
                link: resource.link,
            }) && final(self).event_stream().spec_next_id() == old(
                self,
            ).event_stream().spec_next_id() + 1,
            final(self).v1_ids() == old(self).v1_ids(),
            final(self).aux_indices() == old(self).aux_indices(),
    {
        if self.contains(resource.link.rid) {
            return;
        }
        let link = resource.link;
        let ghost before = self.nodes();
        self.res.push(resource);
        self.events.hue_event(EventKind::Add, link);
        proof {
            assert(self.nodes() =~= before.push(resource@));
            assert forall|i: int| 0 <= i < self.v1_ids().len() implies has_rid(
                self.nodes(),
                (#[trigger] self.v1_ids()[i]).1,
            ) by {
                let j = choose|j: int| 0 <= j < before.len() && (#[trigger] before[j]).link.rid == self.v1_ids()[i].1;
                assert(self.nodes()[j] == before[j]);
            }
        }
    }

    /// The smallest scene number below `MAX_SCENE_ID` that no scene of the
    /// room uses, or `Full` if all are used.
    pub fn get_next_scene_id(&self, room: &ResourceLink) -> (r: Result<u32, StoreError>)
        ensures
            match r {
                Ok(x) => x < MAX_SCENE_ID && !scene_number_used(
                    self.nodes(),
                    self.aux_indices(),
                    *room,
                    x,
                ) && forall|y: u32|
                    y < x ==> scene_number_used(self.nodes(), self.aux_indices(), *room, y),
                Err(e) => e == StoreError::Full(RType::Scene) && forall|y: u32|
                    y < MAX_SCENE_ID ==> scene_number_used(
                        self.nodes(),
                        self.aux_indices(),
                        *room,
                        y,
                    ),
            },
    {
        let mut x: u32 = 0;
        while x < MAX_SCENE_ID
            invariant
                x <= MAX_SCENE_ID,
                forall|y: u32| y < x ==> scene_number_used(self.nodes(), self.aux_indices(), *room, y),
            decreases MAX_SCENE_ID - x,
        {
            if !self.scene_number_taken(room, x) {
                return Ok(x);
            }
            x = x + 1;
        }
        Err(StoreError::Full(RType::Scene))
    }

    fn scene_number_taken(&self, room: &ResourceLink, x: u32) -> (r: bool)
        ensures
            r == scene_number_used(self.nodes(), self.aux_indices(), *room, x),
    {
        let mut i: usize = 0;
        while i < self.res.len()
            invariant
                0 <= i <= self.res@.len(),
                forall|a: int, j: int|
                    0 <= a < i && 0 <= j < self.aux_indices().len() ==> !((
                    #[trigger] self.nodes()[a]).link.rtype == RType::Scene && self.nodes()[a].owner
                        == Some(*room) && (#[trigger] self.aux_indices()[j]).0
                        == self.nodes()[a].link.rid && self.aux_indices()[j].1 == Some(x)),
            decreases self.res@.len() - i,
        {
            let n = &self.res[i];
            assert(self.nodes()[i as int] == n@);
            if n.link.rtype == RType::Scene && n.owner == Some(*room) {
                let mut j: usize = 0;
                while j < self.aux.len()
                    invariant
                        0 <= j <= self.aux@.len(),
                        0 <= i < self.res@.len(),
                        self.nodes()[i as int] == n@,
                        n.link.rtype == RType::Scene && n.owner == Some(*room),
                        forall|b: int|
                            0 <= b < j ==> !((#[trigger] self.aux_indices()[b]).0
                                == self.nodes()[i as int].link.rid && self.aux_indices()[b].1
                                == Some(x)),
                    decreases self.aux@.len() - j,
                {
                    assert(self.aux_indices()[j as int] == (self.aux@[j as int].0, self.aux@[j as int].1.index));
                    if self.aux[j].0 == n.link.rid && self.aux[j].1.index == Some(x) {
                        return true;
                    }
                    j = j + 1;
                }
            }
            i = i + 1;
        }
        false
    }

    /// Sets the side data of a resource, replacing what it had.
    pub fn aux_set(&mut self, rid: u128, aux: AuxData)
        requires
            old(self).wf(),
        ensures
            final(self).wf(),
            final(self).nodes() == old(self).nodes(),
            final(self).v1_ids() == old(self).v1_ids(),
            final(self).event_stream() == old(self).event_stream(),
            exists|j: int| 0 <= j < final(self).aux_indices().len() && (#[trigger] final(self).aux_indices()[j]) == (rid, aux.index),
    {
        let index = aux.index;
        let mut i: usize = 0;
        while i < self.aux.len()
            invariant
                0 <= i <= self.aux@.len(),
                self.res == old(self).res,
                self.id_v1 == old(self).id_v1,
                self.events == old(self).events,
                self.wf(),
            decreases self.aux@.len() - i,
        {
            if self.aux[i].0 == rid {
                self.aux[i].1 = aux;
                proof {
                    assert(self.aux@[i as int].0 == rid);
                    assert(self.aux_indices()[i as int] == (self.aux@[i as int].0, self.aux@[i as int].1.index));
                    assert(self.nodes() == old(self).nodes());
                    assert(self.v1_ids() == old(self).v1_ids());
                    assert(self.event_stream() == old(self).event_stream());
                }
                return;
            }
            i = i + 1;
        }
        self.aux.push((rid, aux));
        proof {
            assert(self.aux_indices()[self.aux@.len() - 1] == (rid, index));
        }
    }

    /// The legacy index of a resource.
    pub fn get_id_v1_index(&self, rid: u128) -> (r: Result<u32, StoreError>)
        ensures
            match r {
                Ok(n) => exists|i: int| 0 <= i < self.v1_ids().len() && (#[trigger] self.v1_ids()[i]) == (n, rid),
                Err(e) => e == StoreError::NotFound(rid) && forall|i: int|
                    0 <= i < self.v1_ids().len() ==> (#[trigger] self.v1_ids()[i]).1 != rid,
            },
    {
        let mut i: usize = 0;
        while i < self.id_v1.len()
            invariant
                0 <= i <= self.id_v1@.len(),
                forall|j: int| 0 <= j < i ==> (#[trigger] self.v1_ids()[j]).1 != rid,
            decreases self.id_v1@.len() - i,
        {
            if self.id_v1[i].1 == rid {
                assert(self.v1_ids()[i as int] == (self.id_v1@[i as int].0, rid));
                return Ok(self.id_v1[i].0);
            }
            i = i + 1;
        }
        Err(StoreError::NotFound(rid))
    }

    /// The id of the resource with this legacy index.
    pub fn from_id_v1(&self, n: u32) -> (r: Result<u128, StoreError>)
        ensures
            match r {
                Ok(rid) => exists|i: int| 0 <= i < self.v1_ids().len() && (#[trigger] self.v1_ids()[i]) == (n, rid),
                Err(e) => e == StoreError::V1NotFound(n) && forall|i: int|
                    0 <= i < self.v1_ids().len() ==> (#[trigger] self.v1_ids()[i]).0 != n,
            },
    {
        let mut i: usize = 0;
        while i < self.id_v1.len()
            invariant
                0 <= i <= self.id_v1@.len(),
                forall|j: int| 0 <= j < i ==> (#[trigger] self.v1_ids()[j]).0 != n,
            decreases self.id_v1@.len() - i,
        {
            if self.id_v1[i].0 == n {
                assert(self.v1_ids()[i as int] == (n, self.id_v1@[i as int].1));
                return Ok(self.id_v1[i].1);
            }
            i = i + 1;
        }
        Err(StoreError::V1NotFound(n))
    }

    /// Gives a resource a legacy index: the smallest one from 1 up that is
    /// free. A resource that has one keeps it.
    pub fn assign_id_v1(&mut self, rid: u128) -> (r: Result<u32, StoreError>)
        requires
            old(self).wf(),
        ensures
            final(self).wf(),
            final(self).nodes() == old(self).nodes(),
            final(self).event_stream() == old(self).event_stream(),
            !has_rid(old(self).nodes(), rid) ==> r == Err::<u32, StoreError>(StoreError::NotFound(rid))
                && final(self).v1_ids() == old(self).v1_ids(),
            has_rid(old(self).nodes(), rid) && old(self).v1_ids().len() < u32::MAX - 1 ==> r is Ok,
            has_rid(old(self).nodes(), rid) && has_v1_id(old(self).v1_ids(), rid) ==> r is Ok
                && final(self).v1_ids() == old(self).v1_ids() && exists|i: int|
                0 <= i < old(self).v1_ids().len() && (#[trigger] old(self).v1_ids()[i]) == (r->Ok_0, rid),
            has_rid(old(self).nodes(), rid) && !has_v1_id(old(self).v1_ids(), rid) && r is Ok
                ==> final(self).v1_ids() == old(self).v1_ids().push((r->Ok_0, rid)) && smallest_free_v1(
                old(self).v1_ids(),
                r->Ok_0,
            ),
            r is Err && has_rid(old(self).nodes(), rid) ==> r == Err::<u32, StoreError>(StoreError::Full(RType::Light))
                && final(self).v1_ids() == old(self).v1_ids(),
    {
        if !self.contains(rid) {
            return Err(StoreError::NotFound(rid));
        }
        match self.get_id_v1_index(rid) {
            Ok(n) => {
                return Ok(n);
            },
            Err(_) => {},
        }
        let mut n: u32 = 1;
        while n < u32::MAX
            invariant
                1 <= n <= u32::MAX,
                self.wf(),
                self.res == old(self).res,
                self.events == old(self).events,
                self.aux == old(self).aux,
                self.id_v1 == old(self).id_v1,
                has_rid(self.nodes(), rid),
                forall|i: int| 0 <= i < self.v1_ids().len() ==> (#[trigger] self.v1_ids()[i]).1 != rid,
                forall|m: u32| 1 <= m < n ==> v1_index_used(self.v1_ids(), m),
            decreases u32::MAX - n,
        {
            match self.from_id_v1(n) {
                Err(_) => {
                    let ghost before = self.id_v1@;
                    assert(!v1_index_used(before, n));
                    self.id_v1.push((n, rid));
                    proof {
                        assert(self.v1_ids()[before.len() as int] == (n, rid));
                        assert forall|i: int, j: int| 0 <= i < j < self.v1_ids().len() implies (
                        #[trigger] self.v1_ids()[i]).0 != (#[trigger] self.v1_ids()[j]).0
                            && self.v1_ids()[i].1 != self.v1_ids()[j].1 by {
                            assert(self.v1_ids()[i] == before[i]);
                            if j < before.len() {
                                assert(self.v1_ids()[j] == before[j]);
                            }
                        }
                        assert forall|i: int| 0 <= i < self.v1_ids().len() implies has_rid(
                            self.nodes(),
                            (#[trigger] self.v1_ids()[i]).1,
                        ) by {
                            if i < before.len() {
                                assert(self.v1_ids()[i] == before[i]);
                            }
                        }
                    }
                    return Ok(n);
                },
                Ok(_) => {},
            }
            n = n + 1;
        }
        proof {
            lemma_v1_full(self.v1_ids());
        }
        Err(StoreError::Full(RType::Light))
    }
}


/// The legacy index `n` is taken.
pub open spec fn v1_index_used(s: Seq<(u32, u128)>, n: u32) -> bool {
    exists|i: int| 0 <= i < s.len() && (#[trigger] s[i]).0 == n
}

/// The resource `rid` has a legacy index.
pub open spec fn has_v1_id(s: Seq<(u32, u128)>, rid: u128) -> bool {
    exists|i: int| 0 <= i < s.len() && (#[trigger] s[i]).1 == rid
}

/// `n` is the smallest free legacy index from 1 up.
pub open spec fn smallest_free_v1(s: Seq<(u32, u128)>, n: u32) -> bool {
    1 <= n && !v1_index_used(s, n) && forall|m: u32| 1 <= m < n ==> v1_index_used(s, m)
}

/// Where every index from 1 below `u32::MAX` is taken, there are that many
/// entries.
proof fn lemma_v1_full(s: Seq<(u32, u128)>)
    requires
        forall|m: u32| 1 <= m < u32::MAX ==> v1_index_used(s, m),
    ensures
        s.len() >= u32::MAX - 1,
{
    let idx = s.map_values(|e: (u32, u128)| e.0 as int);
    let taken = idx.to_set();
    let range = vstd::set_lib::set_int_range(1, u32::MAX as int);
    vstd::set_lib::lemma_int_range(1, u32::MAX as int);
    assert forall|x: int| range.contains(x) implies taken.contains(x) by {
        let m = x as u32;
        assert(v1_index_used(s, m));
        let i = choose|i: int| 0 <= i < s.len() && (#[trigger] s[i]).0 == m;
        assert(idx[i] == x);
    }
    idx.lemma_cardinality_of_set();
    vstd::set_lib::lemma_len_subset(range, taken);
}

/// `s` without the links to the ids of `gone`.
pub open spec fn keep_links(s: Seq<ResourceLink>, gone: Set<u128>) -> Seq<ResourceLink>
    decreases s.len(),
{
    if s.len() == 0 {
        Seq::empty()
    } else {
        let r = keep_links(s.drop_last(), gone);
        if gone.contains(s.last().rid) {
            r
        } else {
            r.push(s.last())
        }
    }
}

/// The ids of the resources of `before` that are gone in `after`.
pub open spec fn removed_rids(before: Seq<ResView>, after: Seq<ResView>) -> Set<u128> {
    Set::new(|x: u128| has_rid(before, x) && !has_rid(after, x))
}

/// What deleting `link` from `before` leaves: `link` is gone, no resource
/// left is owned by a removed one or holds a link to one, and every
/// resource left was there before.
pub open spec fn deleted_from(before: Seq<ResView>, after: Seq<ResView>, link: ResourceLink) -> bool {
    &&& !has_rid(after, link.rid)
    &&& forall|i: int| 0 <= i < after.len() ==> has_node_like(before, #[trigger] after[i])
    &&& forall|i: int|
        0 <= i < after.len() && (#[trigger] after[i]).owner is Some ==> !removed_rids(
            before,
            after,
        ).contains(after[i].owner->0.rid)
    &&& forall|i: int, k: int|
        0 <= i < after.len() && 0 <= k < (#[trigger] after[i]).links.len() ==> !removed_rids(
            before,
            after,
        ).contains((#[trigger] after[i].links[k]).rid)
}

pub proof fn lemma_keep_links_shape(s: Seq<ResourceLink>, gone: Set<u128>)
    ensures
        forall|k: int|
            0 <= k < keep_links(s, gone).len() ==> !gone.contains(
                (#[trigger] keep_links(s, gone)[k]).rid,
            ) && s.contains(keep_links(s, gone)[k]),
    decreases s.len(),
{
    if s.len() > 0 {
        lemma_keep_links_shape(s.drop_last(), gone);
        let r = keep_links(s.drop_last(), gone);
        assert forall|k: int| 0 <= k < keep_links(s, gone).len() implies !gone.contains(
            (#[trigger] keep_links(s, gone)[k]).rid,
        ) && s.contains(keep_links(s, gone)[k]) by {
            if k < r.len() {
                assert(keep_links(s, gone)[k] == r[k]);
                let m = choose|m: int| 0 <= m < s.drop_last().len() && s.drop_last()[m] == r[k];
                assert(s[m] == r[k]);
            } else {
                assert(s[s.len() - 1] == s.last());
            }
        }
    }
}

fn links_without(links: &Vec<ResourceLink>, rid: u128) -> (r: Vec<ResourceLink>)
    ensures
        r@ == keep_links(links@, set![rid]),
{
    let mut out: Vec<ResourceLink> = Vec::new();
    let mut i: usize = 0;
    while i < links.len()
        invariant
            0 <= i <= links@.len(),
            out@ == keep_links(links@.subrange(0, i as int), set![rid]),
        decreases links@.len() - i,
    {
        proof {
            let s = links@.subrange(0, i + 1);
            assert(s.drop_last() =~= links@.subrange(0, i as int));
            assert(s.last() == links@[i as int]);
        }
        if links[i].rid != rid {
            out.push(links[i]);
        }
        i = i + 1;
    }
    proof {
        assert(links@.subrange(0, links@.len() as int) =~= links@);
    }
    out
}

/// The state of a cascading delete of `link` from `o`: `c` is what is left,
/// `d` the ids deleted so far, and `pending` the links still to delete.
#[verifier::opaque]
pub open spec fn delete_inv(
    o: Seq<ResView>,
    c: Seq<ResView>,
    d: Set<u128>,
    pending: Seq<ResourceLink>,
    link: ResourceLink,
) -> bool {
    &&& rids_unique(c)
    &&& forall|i: int| 0 <= i < c.len() ==> !d.contains((#[trigger] c[i]).link.rid)
    &&& forall|i: int, k: int|
        0 <= i < c.len() && 0 <= k < (#[trigger] c[i]).links.len() ==> !d.contains(
            (#[trigger] c[i].links[k]).rid,
        )
    &&& forall|i: int|
        0 <= i < c.len() && (#[trigger] c[i]).owner is Some && d.contains(c[i].owner->0.rid)
            ==> exists|w: int| 0 <= w < pending.len() && (#[trigger] pending[w]).rid == c[i].link.rid
    &&& d.contains(link.rid) || exists|w: int|
        0 <= w < pending.len() && (#[trigger] pending[w]).rid == link.rid
    &&& forall|i: int| 0 <= i < c.len() ==> has_node_like(o, #[trigger] c[i])
    &&& forall|x: u128| #[trigger] d.contains(x) ==> has_rid(o, x)
    &&& forall|j: int|
        0 <= j < o.len() && !d.contains((#[trigger] o[j]).link.rid) ==> has_rid(c, o[j].link.rid)
}

proof fn lemma_delete_start(o: Seq<ResView>, link: ResourceLink)
    requires
        rids_unique(o),
    ensures
        delete_inv(o, o, Set::empty(), seq![link], link),
{
    reveal(delete_inv);
    assert(seq![link][0] == link);
    assert forall|i: int| 0 <= i < o.len() implies has_node_like(o, #[trigger] o[i]) by {
        assert forall|k: int| 0 <= k < o[i].links.len() implies o[i].links.contains(#[trigger] o[i].links[k]) by {}
        assert(links_within(o[i].links, o[i].links));
    }
}

proof fn lemma_delete_skip(
    o: Seq<ResView>,
    c: Seq<ResView>,
    d: Set<u128>,
    pb: Seq<ResourceLink>,
    link: ResourceLink,
)
    requires
        delete_inv(o, c, d, pb, link),
        pb.len() > 0,
        !has_rid(c, pb.last().rid),
        has_rid(o, link.rid),
    ensures
        delete_inv(o, c, d, pb.drop_last(), link),
{
    reveal(delete_inv);
    let l = pb.last();
    let pe = pb.drop_last();
    assert forall|a: int|
        0 <= a < c.len() && (#[trigger] c[a]).owner is Some && d.contains(c[a].owner->0.rid)
        implies exists|w: int| 0 <= w < pe.len() && (#[trigger] pe[w]).rid == c[a].link.rid by {
        let w = choose|w: int| 0 <= w < pb.len() && (#[trigger] pb[w]).rid == c[a].link.rid;
        if w == pb.len() - 1 {
            assert(c[a].link.rid == l.rid);
        } else {
            assert(pe[w] == pb[w]);
        }
    }
    if !d.contains(link.rid) {
        let w = choose|w: int| 0 <= w < pb.len() && (#[trigger] pb[w]).rid == link.rid;
        if w == pb.len() - 1 {
            let j = choose|j: int| 0 <= j < o.len() && (#[trigger] o[j]).link.rid == link.rid;
            assert(has_rid(c, o[j].link.rid));
        } else {
            assert(pe[w] == pb[w]);
        }
    }
}

#[verifier::rlimit(50)]
proof fn lemma_delete_step(
    o: Seq<ResView>,
    c0: Seq<ResView>,
    d0: Set<u128>,
    pb: Seq<ResourceLink>,
    link: ResourceLink,
    i: int,
    c2: Seq<ResView>,
    pe: Seq<ResourceLink>,
)
    requires
        delete_inv(o, c0, d0, pb, link),
        pb.len() > 0,
        0 <= i < c0.len(),
        c0[i].link.rid == pb.last().rid,
        c2.len() == c0.len() - 1,
        forall|a: int|
            0 <= a < c2.len() ==> (#[trigger] c2[a]).link == c0[if a < i {
                a
            } else {
                a + 1
            }].link && c2[a].owner == c0[if a < i {
                a
            } else {
                a + 1
            }].owner && c2[a].data == c0[if a < i {
                a
            } else {
                a + 1
            }].data && c2[a].links == keep_links(
                c0[if a < i {
                    a
                } else {
                    a + 1
                }].links,
                set![pb.last().rid],
            ),
        pe.len() >= pb.len() - 1,
        pe.subrange(0, pb.len() - 1) == pb.drop_last(),
        forall|a: int|
            0 <= a < c2.len() && (#[trigger] c2[a]).owner is Some && c2[a].owner->0.rid
                == pb.last().rid ==> exists|w: int|
                0 <= w < pe.len() && (#[trigger] pe[w]).rid == c2[a].link.rid,
    ensures
        delete_inv(o, c2, d0.insert(pb.last().rid), pe, link),
{
    reveal(delete_inv);
    let r = pb.last().rid;
    let d = d0.insert(r);
    assert forall|a: int| 0 <= a < c2.len() implies (#[trigger] c2[a]).link.rid != r && !d0.contains(
        c2[a].link.rid,
    ) && has_node_like(o, c2[a]) by {
        let b = if a < i {
            a
        } else {
            a + 1
        };
        assert(b != i);
        assert(c0[b].link.rid != c0[i].link.rid);
        assert(has_node_like(o, c0[b]));
        let j = choose|j: int|
            0 <= j < o.len() && (#[trigger] o[j]).link == c0[b].link && o[j].owner == c0[b].owner
                && o[j].data == c0[b].data && links_within(c0[b].links, o[j].links);
        lemma_keep_links_shape(c0[b].links, set![r]);
        assert forall|k: int| 0 <= k < c2[a].links.len() implies o[j].links.contains(#[trigger] c2[a].links[k]) by {
            assert(c0[b].links.contains(c2[a].links[k]));
            let m = choose|m: int| 0 <= m < c0[b].links.len() && c0[b].links[m] == c2[a].links[k];
            assert(o[j].links.contains(c0[b].links[m]));
        }
        assert(o[j].link == c2[a].link && o[j].owner == c2[a].owner);
    }
    assert forall|a: int, b: int| 0 <= a < b < c2.len() implies (#[trigger] c2[a]).link.rid != (
    #[trigger] c2[b]).link.rid by {
        let a0 = if a < i {
            a
        } else {
            a + 1
        };
        let b0 = if b < i {
            b
        } else {
            b + 1
        };
        assert(c0[a0].link.rid != c0[b0].link.rid);
    }
    assert forall|a: int, k: int| 0 <= a < c2.len() && 0 <= k < (#[trigger] c2[a]).links.len() implies !d.contains(
        (#[trigger] c2[a].links[k]).rid,
    ) by {
        let b = if a < i {
            a
        } else {
            a + 1
        };
        lemma_keep_links_shape(c0[b].links, set![r]);
        let m = choose|m: int| 0 <= m < c0[b].links.len() && c0[b].links[m] == c2[a].links[k];
        assert(!d0.contains(c0[b].links[m].rid));
    }
    assert forall|a: int|
        0 <= a < c2.len() && (#[trigger] c2[a]).owner is Some && d.contains(c2[a].owner->0.rid)
        implies exists|w: int| 0 <= w < pe.len() && (#[trigger] pe[w]).rid == c2[a].link.rid by {
        let b = if a < i {
            a
        } else {
            a + 1
        };
        if c2[a].owner->0.rid != r {
            assert(c0[b].owner == c2[a].owner);
            let w = choose|w: int| 0 <= w < pb.len() && (#[trigger] pb[w]).rid == c0[b].link.rid;
            if w == pb.len() - 1 {
                assert(c0[b].link.rid == c0[i].link.rid);
            } else {
                assert(pe[w] == pe.subrange(0, pb.len() - 1)[w]);
                assert(pb.drop_last()[w] == pb[w]);
            }
        }
    }
    assert forall|x: u128| #[trigger] d.contains(x) implies has_rid(o, x) by {
        if x == r {
            assert(has_node_like(o, c0[i]));
            let j = choose|j: int|
                0 <= j < o.len() && (#[trigger] o[j]).link == c0[i].link && o[j].owner == c0[i].owner
                    && o[j].data == c0[i].data && links_within(c0[i].links, o[j].links);
            assert(o[j].link.rid == x);
        }
    }
    assert forall|j: int| 0 <= j < o.len() && !d.contains((#[trigger] o[j]).link.rid) implies has_rid(
        c2,
        o[j].link.rid,
    ) by {
        let b = choose|b: int| 0 <= b < c0.len() && (#[trigger] c0[b]).link.rid == o[j].link.rid;
        assert(b != i);
        let a = if b < i {
            b
        } else {
            b - 1
        };
        assert(c2[a].link == c0[b].link);
    }
    if !d.contains(link.rid) {
        let w = choose|w: int| 0 <= w < pb.len() && (#[trigger] pb[w]).rid == link.rid;
        assert(w != pb.len() - 1);
        assert(pe[w] == pe.subrange(0, pb.len() - 1)[w]);
        assert(pb.drop_last()[w] == pb[w]);
    }
}

proof fn lemma_delete_end(o: Seq<ResView>, c: Seq<ResView>, d: Set<u128>, link: ResourceLink)
    requires
        delete_inv(o, c, d, Seq::empty(), link),
    ensures
        deleted_from(o, c, link),
        rids_unique(c),
{
    reveal(delete_inv);
    assert forall|x: u128| removed_rids(o, c).contains(x) implies d.contains(x) by {
        let j = choose|j: int| 0 <= j < o.len() && (#[trigger] o[j]).link.rid == x;
    }
    assert(d.contains(link.rid));
}

impl Resources {
    fn purge_links(&mut self, rid: u128)
        ensures
            final(self).aux == old(self).aux,
            final(self).nodes().len() == old(self).nodes().len(),
            forall|a: int|
                0 <= a < final(self).nodes().len() ==> (#[trigger] final(self).nodes()[a]).link
                    == old(self).nodes()[a].link && final(self).nodes()[a].owner == old(
                    self,
                ).nodes()[a].owner && final(self).nodes()[a].data == old(self).nodes()[a].data
                    && final(self).nodes()[a].links == keep_links(
                    old(self).nodes()[a].links,
                    set![rid],
                ),
            final(self).v1_ids() == old(self).v1_ids(),
            final(self).event_stream() == old(self).event_stream(),
    {
        let mut k: usize = 0;
        while k < self.res.len()
            invariant
                0 <= k <= self.res@.len(),
                self.res@.len() == old(self).res@.len(),
                self.id_v1 == old(self).id_v1,
                self.events == old(self).events,
                self.aux == old(self).aux,
                forall|a: int|
                    0 <= a < self.res@.len() ==> (#[trigger] self.nodes()[a]).link == old(
                        self,
                    ).nodes()[a].link && self.nodes()[a].owner == old(self).nodes()[a].owner
                        && self.nodes()[a].data == old(self).nodes()[a].data,
                forall|a: int|
                    0 <= a < k ==> (#[trigger] self.nodes()[a]).links == keep_links(
                        old(self).nodes()[a].links,
                        set![rid],
                    ),
                forall|a: int|
                    k <= a < self.res@.len() ==> (#[trigger] self.nodes()[a]).links == old(
                        self,
                    ).nodes()[a].links,
            decreases self.res@.len() - k,
        {
            let ghost before = self.nodes();
            let nl = links_without(&self.res[k].links, rid);
            let ghost nlv = nl@;
            self.res[k].links = nl;
            proof {
                assert forall|a: int| 0 <= a < self.res@.len() implies #[trigger] self.nodes()[a]
                    == (if a == k { ResView { links: nlv, ..before[a] } } else { before[a] }) by {
                    assert(self.nodes()[a] == self.res@[a]@);
                }
            }
            k = k + 1;
        }
    }

    /// The links of the resources whose owner has this id.
    fn owned_by(&self, rid: u128, pending: &mut Vec<ResourceLink>)
        ensures
            final(pending)@.len() >= old(pending)@.len(),
            final(pending)@.subrange(0, old(pending)@.len() as int) == old(pending)@,
            forall|w: int|
                old(pending)@.len() <= w < final(pending)@.len() ==> exists|a: int|
                    0 <= a < self.nodes().len() && (#[trigger] self.nodes()[a]).link == (
                    #[trigger] final(pending)@[w]) && self.nodes()[a].owner is Some
                        && self.nodes()[a].owner->0.rid == rid,
            forall|a: int|
                0 <= a < self.nodes().len() && (#[trigger] self.nodes()[a]).owner is Some
                    && self.nodes()[a].owner->0.rid == rid ==> exists|w: int|
                    0 <= w < final(pending)@.len() && (#[trigger] final(pending)@[w]).rid
                        == self.nodes()[a].link.rid,
    {
        let ghost p0 = pending@;
        let mut k: usize = 0;
        while k < self.res.len()
            invariant
                0 <= k <= self.res@.len(),
                pending@.len() >= p0.len(),
                pending@.subrange(0, p0.len() as int) == p0,
                forall|w: int|
                    p0.len() <= w < pending@.len() ==> exists|a: int|
                        0 <= a < self.nodes().len() && (#[trigger] self.nodes()[a]).link == (
                        #[trigger] pending@[w]) && self.nodes()[a].owner is Some
                            && self.nodes()[a].owner->0.rid == rid,
                forall|a: int|
                    0 <= a < k && (#[trigger] self.nodes()[a]).owner is Some
                        && self.nodes()[a].owner->0.rid == rid ==> exists|w: int|
                        0 <= w < pending@.len() && (#[trigger] pending@[w]).rid
                            == self.nodes()[a].link.rid,
            decreases self.res@.len() - k,
        {
            assert(self.nodes()[k as int] == self.res@[k as int]@);
            match self.res[k].owner {
                Some(ow) => {
                    if ow.rid == rid {
                        let ghost before = pending@;
                        pending.push(self.res[k].link);
                        proof {
                            assert(pending@[pending@.len() - 1] == self.nodes()[k as int].link);
                            assert(pending@.subrange(0, p0.len() as int) =~= before.subrange(0, p0.len() as int));
                            assert forall|w: int| 0 <= w < before.len() implies pending@[w] == before[w] by {}
                        }
                    }
                },
                None => {},
            }
            k = k + 1;
        }
    }

    /// Deletes the resource with the id of `link` and, in turn, every
    /// resource owned by a deleted one; every link to a deleted resource is
    /// taken out of the resources left, and so is its legacy index. Each
    /// deleted resource is announced by a delete event.
    #[verifier::rlimit(50)]
    pub fn delete(&mut self, link: &ResourceLink) -> (r: Result<(), StoreError>)
        requires
            old(self).wf(),
            old(self).event_stream().spec_next_id() + old(self).nodes().len() < u64::MAX,
        ensures
            final(self).wf(),
            !has_rid(old(self).nodes(), link.rid) ==> r == Err::<(), StoreError>(
                StoreError::NotFound(link.rid),
            ) && final(self).nodes() == old(self).nodes() && final(self).event_stream() == old(
                self,
            ).event_stream() && final(self).v1_ids() == old(self).v1_ids(),
            has_rid(old(self).nodes(), link.rid) ==> r is Ok && deleted_from(
                old(self).nodes(),
                final(self).nodes(),
                *link,
            ),
            final(self).event_stream().spec_next_id() == old(self).event_stream().spec_next_id() + (
            old(self).nodes().len() - final(self).nodes().len()),
            final(self).aux_indices() == old(self).aux_indices(),
    {
        if !self.contains(link.rid) {
            return Err(StoreError::NotFound(link.rid));
        }
        let ghost o = self.nodes();
        assert(has_rid(o, link.rid));
        let ghost mut d: Set<u128> = Set::empty();
        let mut pending: Vec<ResourceLink> = Vec::new();
        pending.push(*link);
        proof {
            assert(pending@ =~= seq![*link]);
            lemma_delete_start(o, *link);
        }
        while pending.len() > 0
            invariant
                delete_inv(o, self.nodes(), d, pending@, *link),
                has_rid(o, link.rid),
                self.event_stream().wf(),
                self.event_stream().spec_next_id() + self.nodes().len() < u64::MAX,
                self.event_stream().spec_next_id() + self.nodes().len() == old(self).event_stream().spec_next_id() + old(self).nodes().len(),
                self.aux == old(self).aux,
                ids_unique(self.v1_ids()),
            decreases self.res@.len(), pending@.len(),
        {
            let ghost pb = pending@;
            let l = pending.pop().unwrap();
            proof {
                assert(pb.last() == l);
                assert(pending@ =~= pb.drop_last());
            }
            match self.index_of(l.rid) {
                None => {
                    proof {
                        lemma_delete_skip(o, self.nodes(), d, pb, *link);
                    }
                },
                Some(i) => {
                    let ghost c0 = self.nodes();
                    let gone = self.res.remove(i);
                    let ghost c1 = self.nodes();
                    proof {
                        assert(c1 =~= c0.remove(i as int));
                    }
                    self.purge_links(l.rid);
                    self.owned_by(l.rid, &mut pending);
                    self.events.hue_event(EventKind::Delete, gone.link);
                    proof {
                        lemma_delete_step(o, c0, d, pb, *link, i as int, self.nodes(), pending@);
                        d = d.insert(l.rid);
                    }
                },
            }
        }
        proof {
            assert(pending@ =~= Seq::<ResourceLink>::empty());
            lemma_delete_end(o, self.nodes(), d, *link);
        }
        self.drop_stale_ids();
        Ok(())
    }
}

impl Resources {
    /// Drops the legacy indices of ids that no resource has any more.
    fn drop_stale_ids(&mut self)
        requires
            rids_unique(old(self).nodes()),
            ids_unique(old(self).v1_ids()),
            old(self).event_stream().wf(),
        ensures
            final(self).wf(),
            final(self).nodes() == old(self).nodes(),
            final(self).event_stream() == old(self).event_stream(),
            final(self).aux == old(self).aux,
    {
        let mut out: Vec<(u32, u128)> = Vec::new();
        let ghost mut from: Seq<int> = Seq::empty();
        let mut i: usize = 0;
        while i < self.id_v1.len()
            invariant
                0 <= i <= self.id_v1@.len(),
                from.len() == out@.len(),
                forall|k: int| 0 <= k < from.len() ==> 0 <= #[trigger] from[k] < i && out@[k] == self.id_v1@[from[k]],
                forall|a: int, b: int| 0 <= a < b < from.len() ==> #[trigger] from[a] < #[trigger] from[b],
                forall|k: int| 0 <= k < out@.len() ==> has_rid(self.nodes(), (#[trigger] out@[k]).1),
            decreases self.id_v1@.len() - i,
        {
            let e = self.id_v1[i];
            if self.contains(e.1) {
                out.push(e);
                proof {
                    from = from.push(i as int);
                }
            }
            i = i + 1;
        }
        proof {
            assert forall|a: int, b: int| 0 <= a < b < out@.len() implies (#[trigger] out@[a]).0
                != (#[trigger] out@[b]).0 && out@[a].1 != out@[b].1 by {
                assert(from[a] < from[b]);
            }
        }
        self.id_v1 = out;
    }
}


/// After a delete of `link`, no resource left holds a link to it or is
/// owned by it, and every resource that it owned is gone.
pub proof fn lemma_delete_cascade(before: Seq<ResView>, after: Seq<ResView>, link: ResourceLink)
    requires
        rids_unique(before),
        has_rid(before, link.rid),
        deleted_from(before, after, link),
    ensures
        forall|i: int, k: int|
            0 <= i < after.len() && 0 <= k < (#[trigger] after[i]).links.len() ==> (
            #[trigger] after[i].links[k]).rid != link.rid,
        forall|i: int|
            0 <= i < after.len() && (#[trigger] after[i]).owner is Some ==> after[i].owner->0.rid
                != link.rid,
        forall|j: int|
            0 <= j < before.len() && (#[trigger] before[j]).owner == Some(link) ==> !has_rid(
                after,
                before[j].link.rid,
            ),
{
    assert(removed_rids(before, after).contains(link.rid));
    assert forall|j: int|
        0 <= j < before.len() && (#[trigger] before[j]).owner == Some(link) implies !has_rid(
        after,
        before[j].link.rid,
    ) by {
        if has_rid(after, before[j].link.rid) {
            let i = choose|i: int| 0 <= i < after.len() && (#[trigger] after[i]).link.rid == before[j].link.rid;
            assert(has_node_like(before, after[i]));
            let j2 = choose|j2: int|
                0 <= j2 < before.len() && (#[trigger] before[j2]).link == after[i].link
                    && before[j2].owner == after[i].owner && before[j2].data == after[i].data && links_within(after[i].links, before[j2].links);
            assert(j2 == j);
        }
    }
}


fn same_links(a: &Vec<ResourceLink>, b: &Vec<ResourceLink>) -> (r: bool)
    ensures
        r == (a@ == b@),
{
    if a.len() != b.len() {
        return false;
    }
    let mut i: usize = 0;
    while i < a.len()
        invariant
            0 <= i <= a@.len(),
            a@.len() == b@.len(),
            forall|j: int| 0 <= j < i ==> a@[j] == b@[j],
        decreases a@.len() - i,
    {
        if a[i] != b[i] {
            return false;
        }
        i = i + 1;
    }
    proof {
        assert(a@ =~= b@);
    }
    true
}

/// The link of the bridge, of its device, and of its internet connectivity.
pub open spec fn bridge_links(bridge_id: Seq<char>) -> (ResourceLink, ResourceLink, ResourceLink) {
    let bridge = ResourceLink { rid: derived_id(RType::Bridge, key_bytes_of_str(bridge_id)), rtype: RType::Bridge };
    let dev = ResourceLink { rid: derived_id(RType::Device, key_bytes_of_id(bridge.rid)), rtype: RType::Device };
    let ic = ResourceLink {
        rid: derived_id(RType::InternetConnectivity, key_bytes_of_id(bridge.rid)),
        rtype: RType::InternetConnectivity,
    };
    (bridge, dev, ic)
}

/// The bridge device is there, the internet connectivity is there, and the
/// device lists it among its links.
pub open spec fn core_complete(nodes: Seq<ResView>, bridge_id: Seq<char>) -> bool {
    let (_, dev, ic) = bridge_links(bridge_id);
    has_rid(nodes, ic.rid) && exists|i: int|
        0 <= i < nodes.len() && (#[trigger] nodes[i]).link.rid == dev.rid && nodes[i].links.contains(ic)
}

/// `after` is `before` with the links of the resource at `i` replaced.
pub open spec fn links_replaced(before: Seq<ResView>, after: Seq<ResView>, i: int, links: Seq<ResourceLink>) -> bool {
    after == before.update(i, ResView { links, ..before[i] })
}

/// No event where the links stay the same; one update event where they change.
pub open spec fn event_for_change(before: HueEventStream, after: HueEventStream, n: ResView, links: Seq<ResourceLink>) -> bool {
    &&& n.links == links ==> after == before
    &&& n.links != links ==> after.spec_next_id() == before.spec_next_id() + 1
        && after.retained().last() == (HueEvent { id: before.spec_next_id(), kind: EventKind::Update, link: n.link })
}

impl Resources {
    /// Replaces the links a resource holds. An update event is emitted only
    /// when they changed.
    pub fn update_links(&mut self, rid: u128, links: Vec<ResourceLink>) -> (r: Result<(), StoreError>)
        requires
            old(self).wf(),
            old(self).event_stream().spec_next_id() < u64::MAX,
        ensures
            final(self).wf(),
            final(self).v1_ids() == old(self).v1_ids(),
            final(self).aux_indices() == old(self).aux_indices(),
            !has_rid(old(self).nodes(), rid) ==> r == Err::<(), StoreError>(StoreError::NotFound(rid))
                && final(self).nodes() == old(self).nodes() && final(self).event_stream() == old(
                self,
            ).event_stream(),
            has_rid(old(self).nodes(), rid) ==> r is Ok && exists|i: int|
                0 <= i < old(self).nodes().len() && (#[trigger] old(self).nodes()[i]).link.rid == rid
                    && links_replaced(old(self).nodes(), final(self).nodes(), i, links@)
                    && event_for_change(old(self).event_stream(), final(self).event_stream(), old(self).nodes()[i], links@),
    {
        match self.index_of(rid) {
            None => Err(StoreError::NotFound(rid)),
            Some(i) => {
                let ghost before = self.nodes();
                let changed = !same_links(&self.res[i].links, &links);
                let link = self.res[i].link;
                let ghost lv = links@;
                self.res[i].links = links;
                proof {
                    assert(self.nodes() =~= before.update(i as int, ResView { links: lv, ..before[i as int] }));
                    assert forall|a: int, b: int| 0 <= a < b < self.nodes().len() implies (
                    #[trigger] self.nodes()[a]).link.rid != (#[trigger] self.nodes()[b]).link.rid by {
                        assert(self.nodes()[a].link == before[a].link);
                        assert(self.nodes()[b].link == before[b].link);
                    }
                    assert forall|k: int| 0 <= k < self.v1_ids().len() implies has_rid(
                        self.nodes(),
                        (#[trigger] self.v1_ids()[k]).1,
                    ) by {
                        let j = choose|j: int| 0 <= j < before.len() && (#[trigger] before[j]).link.rid == self.v1_ids()[k].1;
                        assert(self.nodes()[j].link == before[j].link);
                    }
                }
                if changed {
                    self.events.hue_event(EventKind::Update, link);
                }
                Ok(())
            },
        }
    }

    /// Adds any core resource of the bridge that newer Hue apps expect and an
    /// older store lacks: the internet connectivity of the bridge device,
    /// listed among the device's links. Nothing is done where the bridge
    /// device is missing, and nothing changes where all is there already.
    pub fn ensure_core_bridge_resources(&mut self, bridge_id: &str)
        requires
            old(self).wf(),
            old(self).event_stream().spec_next_id() + 2 < u64::MAX,
        ensures
            final(self).wf(),
            has_rid(old(self).nodes(), bridge_links(bridge_id@).1.rid) ==> core_complete(
                final(self).nodes(),
                bridge_id@,
            ),
            !has_rid(old(self).nodes(), bridge_links(bridge_id@).1.rid) || core_complete(
                old(self).nodes(),
                bridge_id@,
            ) ==> final(self).nodes() == old(self).nodes() && final(self).event_stream() == old(
                self,
            ).event_stream(),
            final(self).v1_ids() == old(self).v1_ids(),
            final(self).aux_indices() == old(self).aux_indices(),
            final(self).event_stream().spec_next_id() <= old(self).event_stream().spec_next_id() + 2,
            has_rid(old(self).nodes(), bridge_links(bridge_id@).1.rid) && !has_rid(
                old(self).nodes(),
                bridge_links(bridge_id@).2.rid,
            ) ==> final(self).nodes().len() == old(self).nodes().len() + 1 && final(self).nodes().last()
                == (ResView {
                link: bridge_links(bridge_id@).2,
                owner: Some(bridge_links(bridge_id@).1),
                links: Seq::empty(),
                data: DataView::Other,
            }),
            forall|j: int|
                0 <= j < old(self).nodes().len() ==> (#[trigger] final(self).nodes()[j]).link == old(
                    self,
                ).nodes()[j].link && (old(self).nodes()[j].link.rid != bridge_links(bridge_id@).1.rid
                    ==> final(self).nodes()[j] == old(self).nodes()[j]),
    {
        let link_bridge = RType::Bridge.deterministic(bridge_id);
        let link_dev = RType::Device.deterministic_from_id(link_bridge.rid);
        let link_ic = RType::InternetConnectivity.deterministic_from_id(link_bridge.rid);
        let i = match self.index_of(link_dev.rid) {
            None => {
                return;
            },
            Some(i) => i,
        };
        let ghost n0 = self.nodes();
        if !self.contains(link_ic.rid) {
            self.add(StoredResource { link: link_ic, owner: Some(link_dev), links: Vec::new(), data: ResourceData::Other });
            proof {
                assert(self.nodes()[i as int] == n0[i as int]);
                assert(self.nodes()[n0.len() as int].link == link_ic);
            }
        }
        let ghost n1 = self.nodes();
        assert(i < n1.len());
        assert(n1[i as int].link.rid == link_dev.rid);
        let mut links: Vec<ResourceLink> = Vec::new();
        let mut has_ic = false;
        let mut k: usize = 0;
        while k < self.res[i].links.len()
            invariant
                0 <= i < self.res@.len(),
                n1 == self.nodes(),
                0 <= k <= n1[i as int].links.len(),
                links@ == n1[i as int].links.subrange(0, k as int),
                has_ic == n1[i as int].links.subrange(0, k as int).contains(link_ic),
            decreases n1[i as int].links.len() - k,
        {
            let l = self.res[i].links[k];
            proof {
                let s0 = n1[i as int].links.subrange(0, k as int);
                let s1 = s0.push(l);
                assert(n1[i as int].links.subrange(0, k + 1) =~= s1);
                assert(s1[k as int] == l);
                if s0.contains(link_ic) {
                    let m = choose|m: int| 0 <= m < s0.len() && s0[m] == link_ic;
                    assert(s1[m] == link_ic);
                }
                if s1.contains(link_ic) && l != link_ic {
                    let m = choose|m: int| 0 <= m < s1.len() && s1[m] == link_ic;
                    assert(s0[m] == link_ic);
                }
            }
            if l == link_ic {
                has_ic = true;
            }
            links.push(l);
            k = k + 1;
        }
        proof {
            assert(n1[i as int].links.subrange(0, n1[i as int].links.len() as int) =~= n1[i as int].links);
        }
        if !has_ic {
            links.push(link_ic);
            let ghost lv = links@;
            let _ = self.update_links(link_dev.rid, links);
            proof {
                assert(lv[lv.len() - 1] == link_ic);
                assert(self.nodes()[i as int].links == lv);
                assert(self.nodes()[i as int].links.contains(link_ic));
                assert(has_rid(n1, link_ic.rid));
                let j = choose|j: int| 0 <= j < n1.len() && (#[trigger] n1[j]).link.rid == link_ic.rid;
                assert(self.nodes()[j].link == n1[j].link);
            }
        }
    }
}


/// The links of the core resources of a bridge: the bridge, its home, the
/// devices of both, the entertainment service, the zigbee device discovery,
/// the zigbee and internet connectivity, and the home's grouped light.
pub open spec fn core_links(bridge_id: Seq<char>) -> Seq<ResourceLink> {
    let bridge = ResourceLink { rid: derived_id(RType::Bridge, key_bytes_of_str(bridge_id)), rtype: RType::Bridge };
    let home = ResourceLink {
        rid: derived_id(RType::BridgeHome, key_bytes_of_str(bridge_id + seq!['H', 'O', 'M', 'E'])),
        rtype: RType::BridgeHome,
    };
    let of_bridge = |t: RType| ResourceLink { rid: derived_id(t, key_bytes_of_id(bridge.rid)), rtype: t };
    seq![
        bridge,
        home,
        of_bridge(RType::Device),
        ResourceLink { rid: derived_id(RType::Device, key_bytes_of_id(home.rid)), rtype: RType::Device },
        of_bridge(RType::Entertainment),
        of_bridge(RType::ZigbeeDeviceDiscovery),
        of_bridge(RType::ZigbeeConnectivity),
        of_bridge(RType::InternetConnectivity),
        ResourceLink { rid: derived_id(RType::GroupedLight, key_bytes_of_id(home.rid)), rtype: RType::GroupedLight },
    ]
}

impl Resources {
    fn add_kept(&mut self, resource: StoredResource, core: Ghost<Seq<ResView>>, k: Ghost<int>, fresh: Ghost<bool>)
        requires
            old(self).wf(),
            old(self).event_stream().spec_next_id() < u64::MAX,
            0 <= k@ < core@.len(),
            resource@ == core@[k@],
            fresh@ ==> old(self).nodes() == core@.take(k@),
            fresh@ ==> forall|a: int, b: int| 0 <= a < b < core@.len() ==> (#[trigger] core@[a]).link.rid != (#[trigger] core@[b]).link.rid,
        ensures
            final(self).wf(),
            final(self).event_stream().spec_next_id() <= old(self).event_stream().spec_next_id() + 1,
            has_rid(final(self).nodes(), resource.link.rid),
            forall|x: u128| has_rid(old(self).nodes(), x) ==> has_rid(final(self).nodes(), x),
            final(self).v1_ids() == old(self).v1_ids(),
            final(self).aux_indices() == old(self).aux_indices(),
            fresh@ ==> final(self).nodes() == core@.take(k@ + 1),
            final(self).nodes().len() >= old(self).nodes().len(),
            forall|j: int| 0 <= j < old(self).nodes().len() ==> #[trigger] final(self).nodes()[j] == old(self).nodes()[j],
    {
        let ghost before = self.nodes();
        let ghost l = resource.link;
        let ghost rv = resource@;
        self.add(resource);
        proof {
            if !has_rid(before, l.rid) {
                assert(self.nodes()[before.len() as int].link == l);
            }
            assert forall|x: u128| has_rid(before, x) implies has_rid(self.nodes(), x) by {
                let j = choose|j: int| 0 <= j < before.len() && (#[trigger] before[j]).link.rid == x;
                assert(self.nodes()[j] == before[j]);
            }
            if fresh@ {
                assert forall|j: int| 0 <= j < before.len() implies (#[trigger] before[j]).link.rid != l.rid by {
                    assert(before[j] == core@[j]);
                }
                assert(core@.take(k@ + 1) =~= core@.take(k@).push(rv));
            }
        }
    }

    /// Creates the core resources of a bridge, with ids derived from the
    /// bridge id (see `core_nodes`): the bridge device, listing the bridge,
    /// the zigbee and internet connectivity, the entertainment service and
    /// the zigbee device discovery, which it owns; the bridge; the device of
    /// the bridge home, listing the bridge; the bridge home, listing the
    /// bridge device and its grouped light, which it owns. Resources whose
    /// id is taken already are left as they are. On an empty store whose
    /// nine derived ids differ, exactly these nine are there afterwards, and
    /// every link among them leads to one of them.
    #[verifier::spinoff_prover]
    #[verifier::rlimit(40)]
    pub fn add_bridge(&mut self, bridge_id: &str)
        requires
            old(self).wf(),
            old(self).event_stream().spec_next_id() + 9 < u64::MAX,
        ensures
            final(self).wf(),
            forall|k: int| 0 <= k < 9 ==> has_rid(final(self).nodes(), (#[trigger] core_links(bridge_id@)[k]).rid),
            forall|x: u128| has_rid(old(self).nodes(), x) ==> has_rid(final(self).nodes(), x),
            final(self).v1_ids() == old(self).v1_ids(),
            final(self).aux_indices() == old(self).aux_indices(),
            final(self).event_stream().spec_next_id() <= old(self).event_stream().spec_next_id() + 9,
            old(self).nodes().len() == 0 && core_distinct(bridge_id@) ==> final(self).nodes() == core_nodes(bridge_id@)
                && integrity(final(self).nodes()),
            final(self).nodes().len() >= old(self).nodes().len(),
            forall|j: int| 0 <= j < old(self).nodes().len() ==> #[trigger] final(self).nodes()[j] == old(self).nodes()[j],
    {
        let link_bridge = RType::Bridge.deterministic(bridge_id);
        let mut home_key = String::from_str(bridge_id);
        home_key.append("HOME");
        proof {
            reveal_strlit("HOME");
            assert(home_key@ =~= bridge_id@ + seq!['H', 'O', 'M', 'E']);
        }
        let link_home = RType::BridgeHome.deterministic(home_key.as_str());
        let link_dev = RType::Device.deterministic_from_id(link_bridge.rid);
        let link_home_dev = RType::Device.deterministic_from_id(link_home.rid);
        let link_ent = RType::Entertainment.deterministic_from_id(link_bridge.rid);
        let link_zbdd = RType::ZigbeeDeviceDiscovery.deterministic_from_id(link_bridge.rid);
        let link_zbc = RType::ZigbeeConnectivity.deterministic_from_id(link_bridge.rid);
        let link_ic = RType::InternetConnectivity.deterministic_from_id(link_bridge.rid);
        let link_glight = RType::GroupedLight.deterministic_from_id(link_home.rid);
        let ghost want = core_links(bridge_id@);
        let ghost core = core_nodes(bridge_id@);
        let ghost fresh = self.nodes().len() == 0 && core_distinct(bridge_id@);
        proof {
            assert(want[0] == link_bridge);
            assert(want[1] == link_home);
            assert(want[2] == link_dev);
            assert(want[3] == link_home_dev);
            assert(want[4] == link_ent);
            assert(want[5] == link_zbdd);
            assert(want[6] == link_zbc);
            assert(want[7] == link_ic);
            assert(want[8] == link_glight);
            if fresh {
                assert(self.nodes() =~= core.take(0));
            }
        }
        let mut dev_links: Vec<ResourceLink> = Vec::new();
        dev_links.push(link_bridge);
        dev_links.push(link_zbc);
        dev_links.push(link_ic);
        dev_links.push(link_ent);
        dev_links.push(link_zbdd);
        assert(dev_links@ =~= core[0].links);
        self.add_kept(StoredResource { link: link_dev, owner: None, links: dev_links, data: ResourceData::Other }, Ghost(core), Ghost(0), Ghost(fresh));
        let e1: Vec<ResourceLink> = Vec::new();
        assert(e1@ =~= core[1].links);
        self.add_kept(StoredResource { link: link_bridge, owner: Some(link_dev), links: e1, data: ResourceData::Other }, Ghost(core), Ghost(1), Ghost(fresh));
        let mut home_dev_links: Vec<ResourceLink> = Vec::new();
        home_dev_links.push(link_bridge);
        assert(home_dev_links@ =~= core[2].links);
        self.add_kept(StoredResource { link: link_home_dev, owner: None, links: home_dev_links, data: ResourceData::Other }, Ghost(core), Ghost(2), Ghost(fresh));
        let mut home_links: Vec<ResourceLink> = Vec::new();
        home_links.push(link_dev);
        home_links.push(link_glight);
        assert(home_links@ =~= core[3].links);
        self.add_kept(StoredResource { link: link_home, owner: None, links: home_links, data: ResourceData::Other }, Ghost(core), Ghost(3), Ghost(fresh));
        let e4: Vec<ResourceLink> = Vec::new();
        assert(e4@ =~= core[4].links);
        self.add_kept(StoredResource { link: link_zbdd, owner: Some(link_dev), links: e4, data: ResourceData::Other }, Ghost(core), Ghost(4), Ghost(fresh));
        let e5: Vec<ResourceLink> = Vec::new();
        assert(e5@ =~= core[5].links);
        self.add_kept(StoredResource { link: link_zbc, owner: Some(link_dev), links: e5, data: ResourceData::Other }, Ghost(core), Ghost(5), Ghost(fresh));
        let e6: Vec<ResourceLink> = Vec::new();
        assert(e6@ =~= core[6].links);
        self.add_kept(StoredResource { link: link_ic, owner: Some(link_dev), links: e6, data: ResourceData::Other }, Ghost(core), Ghost(6), Ghost(fresh));
        let e7: Vec<ResourceLink> = Vec::new();
        assert(e7@ =~= core[7].links);
        self.add_kept(StoredResource { link: link_ent, owner: Some(link_dev), links: e7, data: ResourceData::Other }, Ghost(core), Ghost(7), Ghost(fresh));
        let e8: Vec<ResourceLink> = Vec::new();
        assert(e8@ =~= core[8].links);
        self.add_kept(StoredResource { link: link_glight, owner: Some(link_home), links: e8, data: ResourceData::Other }, Ghost(core), Ghost(8), Ghost(fresh));
        proof {
            assert forall|k: int| 0 <= k < 9 implies has_rid(self.nodes(), (#[trigger] want[k]).rid) by {
                if k == 0 {
                } else if k == 1 {
                } else if k == 2 {
                } else if k == 3 {
                } else if k == 4 {
                } else if k == 5 {
                } else if k == 6 {
                } else if k == 7 {
                } else {
                }
            }
            if fresh {
                assert(core.take(9) =~= core);
                lemma_core_integrity(bridge_id@);
            }
        }
    }
}

/// The nine core resources of a bridge, in the order they are added (see
/// `core_links` for the links).
pub open spec fn core_nodes(bridge_id: Seq<char>) -> Seq<ResView> {
    let l = core_links(bridge_id);
    seq![
        ResView { link: l[2], owner: None, links: seq![l[0], l[6], l[7], l[4], l[5]], data: DataView::Other },
        ResView { link: l[0], owner: Some(l[2]), links: Seq::empty(), data: DataView::Other },
        ResView { link: l[3], owner: None, links: seq![l[0]], data: DataView::Other },
        ResView { link: l[1], owner: None, links: seq![l[2], l[8]], data: DataView::Other },
        ResView { link: l[5], owner: Some(l[2]), links: Seq::empty(), data: DataView::Other },
        ResView { link: l[6], owner: Some(l[2]), links: Seq::empty(), data: DataView::Other },
        ResView { link: l[7], owner: Some(l[2]), links: Seq::empty(), data: DataView::Other },
        ResView { link: l[4], owner: Some(l[2]), links: Seq::empty(), data: DataView::Other },
        ResView { link: l[8], owner: Some(l[1]), links: Seq::empty(), data: DataView::Other },
    ]
}

/// The nine ids derived for a bridge differ from each other.
pub open spec fn core_distinct(bridge_id: Seq<char>) -> bool {
    forall|a: int, b: int|
        0 <= a < b < 9 ==> (#[trigger] core_nodes(bridge_id)[a]).link.rid != (#[trigger] core_nodes(bridge_id)[b]).link.rid
}

/// Every link among the core resources of a bridge leads to one of them.
pub proof fn lemma_core_integrity(bridge_id: Seq<char>)
    ensures
        integrity(core_nodes(bridge_id)),
{
    let c = core_nodes(bridge_id);
    assert(c.len() == 9);
    assert(has_link(c, c[0].link));
    assert(has_link(c, c[1].link));
    assert(has_link(c, c[2].link));
    assert(has_link(c, c[3].link));
    assert(has_link(c, c[4].link));
    assert(has_link(c, c[5].link));
    assert(has_link(c, c[6].link));
    assert(has_link(c, c[7].link));
    assert(has_link(c, c[8].link));
    assert forall|i: int| 0 <= i < c.len() implies (forall|k: int|
        0 <= k < (#[trigger] c[i]).links.len() ==> has_link(c, #[trigger] c[i].links[k]))
        && (c[i].owner is Some ==> has_link(c, c[i].owner->0)) by {
        assert forall|k: int| 0 <= k < c[i].links.len() implies has_link(c, #[trigger] c[i].links[k]) by {
            if i == 0 {
                if k == 0 {
                    assert(c[0].links[k] == c[1].link);
                } else if k == 1 {
                    assert(c[0].links[k] == c[5].link);
                } else if k == 2 {
                    assert(c[0].links[k] == c[6].link);
                } else if k == 3 {
                    assert(c[0].links[k] == c[7].link);
                } else {
                    assert(c[0].links[k] == c[4].link);
                }
            } else if i == 2 {
                assert(c[2].links[k] == c[1].link);
            } else if i == 3 {
                if k == 0 {
                    assert(c[3].links[k] == c[0].link);
                } else {
                    assert(c[3].links[k] == c[8].link);
                }
            }
        }
        if c[i].owner is Some {
            if i == 8 {
                assert(c[8].owner->0 == c[3].link);
            } else {
                assert(c[i].owner->0 == c[0].link);
            }
        }
    }
}

/// Deleting keeps referential integrity: where every link held in the
/// store led to a resource of the store before, it still does after.
pub proof fn lemma_delete_keeps_integrity(before: Seq<ResView>, after: Seq<ResView>, link: ResourceLink)
    requires
        rids_unique(before),
        integrity(before),
        deleted_from(before, after, link),
    ensures
        integrity(after),
{
    assert forall|l: ResourceLink| has_link(before, l) && !removed_rids(before, after).contains(l.rid) implies has_link(after, l) by {
        let m = choose|m: int| 0 <= m < before.len() && (#[trigger] before[m]).link == l;
        assert(has_rid(before, l.rid));
        let i = choose|i: int| 0 <= i < after.len() && (#[trigger] after[i]).link.rid == l.rid;
        assert(has_node_like(before, after[i]));
        let j = choose|j: int|
            0 <= j < before.len() && (#[trigger] before[j]).link == after[i].link && before[j].owner
                == after[i].owner && before[j].data == after[i].data && links_within(after[i].links, before[j].links);
        assert(j == m);
    }
    assert forall|i: int| 0 <= i < after.len() implies (forall|k: int|
        0 <= k < (#[trigger] after[i]).links.len() ==> has_link(after, #[trigger] after[i].links[k]))
        && (after[i].owner is Some ==> has_link(after, after[i].owner->0)) by {
        assert(has_node_like(before, after[i]));
        let j = choose|j: int|
            0 <= j < before.len() && (#[trigger] before[j]).link == after[i].link && before[j].owner
                == after[i].owner && before[j].data == after[i].data && links_within(after[i].links, before[j].links);
        assert forall|k: int| 0 <= k < after[i].links.len() implies has_link(after, #[trigger] after[i].links[k]) by {
            let l = after[i].links[k];
            assert(before[j].links.contains(l));
            let m = choose|m: int| 0 <= m < before[j].links.len() && before[j].links[m] == l;
            assert(has_link(before, before[j].links[m]));
        }
        if after[i].owner is Some {
            assert(has_link(before, before[j].owner->0));
        }
    }
}


/// The index of the last resource with this id, or -1.
pub open spec fn rid_index(s: Seq<ResView>, rid: u128) -> int
    decreases s.len(),
{
    if s.len() == 0 {
        -1
    } else if s.last().link.rid == rid {
        s.len() - 1
    } else {
        rid_index(s.drop_last(), rid)
    }
}

/// The resources after `v` is put: it replaces the one with its id, or is
/// added at the end.
pub open spec fn put_result(s: Seq<ResView>, v: ResView) -> Seq<ResView> {
    if rid_index(s, v.link.rid) >= 0 {
        s.update(rid_index(s, v.link.rid), v)
    } else {
        s.push(v)
    }
}

/// `s` holds exactly the resource `v`.
pub open spec fn has_node(s: Seq<ResView>, v: ResView) -> bool {
    exists|i: int| 0 <= i < s.len() && s[i] == v
}

pub proof fn lemma_rid_index(s: Seq<ResView>, rid: u128)
    ensures
        -1 <= rid_index(s, rid) < s.len(),
        rid_index(s, rid) >= 0 ==> s[rid_index(s, rid)].link.rid == rid,
        rid_index(s, rid) < 0 <==> !has_rid(s, rid),
        rids_unique(s) && has_rid(s, rid) ==> forall|j: int|
            0 <= j < s.len() && (#[trigger] s[j]).link.rid == rid ==> j == rid_index(s, rid),
    decreases s.len(),
{
    if s.len() > 0 {
        lemma_rid_index(s.drop_last(), rid);
        let d = s.drop_last();
        if has_rid(d, rid) {
            let j = choose|j: int| 0 <= j < d.len() && (#[trigger] d[j]).link.rid == rid;
            assert(s[j] == d[j]);
        }
        if has_rid(s, rid) && s.last().link.rid != rid {
            let j = choose|j: int| 0 <= j < s.len() && (#[trigger] s[j]).link.rid == rid;
            assert(j < s.len() - 1);
            assert(d[j] == s[j]);
        }
        if rids_unique(s) && has_rid(s, rid) {
            assert forall|j: int| 0 <= j < s.len() && (#[trigger] s[j]).link.rid == rid implies j == rid_index(s, rid) by {
                if s.last().link.rid != rid {
                    assert(d[j] == s[j]);
                    assert(rids_unique(d)) by {
                        assert forall|a: int, b: int| 0 <= a < b < d.len() implies (#[trigger] d[a]).link.rid != (#[trigger] d[b]).link.rid by {
                            assert(d[a] == s[a] && d[b] == s[b]);
                        }
                    }
                } else {
                    assert(s[s.len() - 1].link.rid == rid);
                }
            }
        }
    }
}

/// Putting `v` keeps every resource with another id where it was, and
/// leaves `v` there.
pub proof fn lemma_put_result(s: Seq<ResView>, v: ResView)
    ensures
        has_node(put_result(s, v), v),
        put_result(s, v).len() >= s.len(),
        put_result(s, v).len() <= s.len() + 1,
        forall|j: int|
            0 <= j < s.len() && s[j].link.rid != v.link.rid ==> #[trigger] put_result(s, v)[j] == s[j],
        forall|x: ResView| has_node(s, x) && x.link.rid != v.link.rid ==> has_node(put_result(s, v), x),
{
    lemma_rid_index(s, v.link.rid);
    let r = put_result(s, v);
    let k = rid_index(s, v.link.rid);
    if k >= 0 {
        assert(r[k] == v);
    } else {
        assert(r[s.len() as int] == v);
    }
    assert forall|x: ResView| has_node(s, x) && x.link.rid != v.link.rid implies has_node(r, x) by {
        let j = choose|j: int| 0 <= j < s.len() && s[j] == x;
        assert(r[j] == s[j]);
    }
}

/// Putting a resource that is there already changes nothing.
pub proof fn lemma_put_present(s: Seq<ResView>, v: ResView)
    requires
        rids_unique(s),
        has_node(s, v),
    ensures
        put_result(s, v) == s,
{
    lemma_rid_index(s, v.link.rid);
    let j = choose|j: int| 0 <= j < s.len() && s[j] == v;
    assert(has_rid(s, v.link.rid));
    assert(j == rid_index(s, v.link.rid));
    assert(s.update(j, v) =~= s);
}

fn same_text(a: &String, b: &String) -> (r: bool)
    ensures
        r == (a@ == b@),
{
    *a == *b
}

fn same_data(a: &ResourceData, b: &ResourceData) -> (r: bool)
    ensures
        r == (a@ == b@),
{
    match (a, b) {
        (ResourceData::Other, ResourceData::Other) => true,
        (ResourceData::Light(x), ResourceData::Light(y)) => *x == *y,
        (
            ResourceData::Device { manufacturer: m1, model_id: i1, name: n1 },
            ResourceData::Device { manufacturer: m2, model_id: i2, name: n2 },
        ) => same_text(m1, m2) && same_text(i1, i2) && same_text(n1, n2),
        (ResourceData::Zigbee { mac_address: a1 }, ResourceData::Zigbee { mac_address: a2 }) => same_text(a1, a2),
        (ResourceData::Grouped { on: o1, dimming: d1 }, ResourceData::Grouped { on: o2, dimming: d2 }) => *o1 == *o2 && *d1 == *d2,
        _ => false,
    }
}

impl Resources {
    /// Puts a resource into the store: it replaces the one with its id, or
    /// is added. An add event announces a new one, an update event a changed
    /// one; an unchanged one emits nothing.
    pub fn put(&mut self, resource: StoredResource)
        requires
            old(self).wf(),
            old(self).event_stream().spec_next_id() < u64::MAX,
        ensures
            final(self).wf(),
            final(self).nodes() == put_result(old(self).nodes(), resource@),
            final(self).v1_ids() == old(self).v1_ids(),
            final(self).aux_indices() == old(self).aux_indices(),
            has_node(old(self).nodes(), resource@) ==> final(self).event_stream() == old(self).event_stream(),
            final(self).event_stream().spec_next_id() <= old(self).event_stream().spec_next_id() + 1,
            !has_rid(old(self).nodes(), resource.link.rid) ==> final(self).event_stream().retained().last() == (HueEvent {
                id: old(self).event_stream().spec_next_id(),
                kind: EventKind::Add,
                link: resource.link,
            }),
            has_rid(old(self).nodes(), resource.link.rid) && !has_node(old(self).nodes(), resource@)
                ==> final(self).event_stream().spec_next_id() == old(self).event_stream().spec_next_id() + 1
                && final(self).event_stream().retained().last() == (HueEvent {
                id: old(self).event_stream().spec_next_id(),
                kind: EventKind::Update,
                link: resource.link,
            }),
    {
        let ghost before = self.nodes();
        let ghost rv = resource@;
        proof {
            lemma_rid_index(before, rv.link.rid);
        }
        match self.index_of(resource.link.rid) {
            None => {
                self.add(resource);
                proof {
                    if has_node(before, rv) {
                        let j = choose|j: int| 0 <= j < before.len() && before[j] == rv;
                        assert(before[j].link.rid == rv.link.rid);
                    }
                }
            },
            Some(i) => {
                proof {
                    assert(i as int == rid_index(before, rv.link.rid));
                }
                let unchanged = self.res[i].link == resource.link && self.res[i].owner == resource.owner
                    && same_links(&self.res[i].links, &resource.links) && same_data(&self.res[i].data, &resource.data);
                let link = resource.link;
                self.res[i] = resource;
                proof {
                    assert(self.nodes() =~= before.update(i as int, rv));
                    assert forall|a: int, b: int| 0 <= a < b < self.nodes().len() implies (
                    #[trigger] self.nodes()[a]).link.rid != (#[trigger] self.nodes()[b]).link.rid by {
                        assert(self.nodes()[a].link.rid == before[a].link.rid);
                        assert(self.nodes()[b].link.rid == before[b].link.rid);
                    }
                    assert forall|k: int| 0 <= k < self.v1_ids().len() implies has_rid(
                        self.nodes(),
                        (#[trigger] self.v1_ids()[k]).1,
                    ) by {
                        let j = choose|j: int| 0 <= j < before.len() && (#[trigger] before[j]).link.rid == self.v1_ids()[k].1;
                        assert(self.nodes()[j].link.rid == before[j].link.rid);
                    }
                    if has_node(before, rv) {
                        let j = choose|j: int| 0 <= j < before.len() && before[j] == rv;
                        assert(j == i);
                    }
                }
                if !unchanged {
                    self.events.hue_event(EventKind::Update, link);
                }
            },
        }
    }
}


/// Every resource of `a` is, but for links taken out, one of `b`.
pub open spec fn nodes_within(a: Seq<ResView>, b: Seq<ResView>) -> bool {
    forall|i: int| 0 <= i < a.len() ==> has_node_like(b, #[trigger] a[i])
}

pub proof fn lemma_nodes_within_trans(a: Seq<ResView>, b: Seq<ResView>, c: Seq<ResView>)
    requires
        nodes_within(a, b),
        nodes_within(b, c),
    ensures
        nodes_within(a, c),
{
    assert forall|i: int| 0 <= i < a.len() implies has_node_like(c, #[trigger] a[i]) by {
        let j = choose|j: int|
            0 <= j < b.len() && (#[trigger] b[j]).link == a[i].link && b[j].owner == a[i].owner
                && b[j].data == a[i].data && links_within(a[i].links, b[j].links);
        assert(has_node_like(c, b[j]));
        let k = choose|k: int|
            0 <= k < c.len() && (#[trigger] c[k]).link == b[j].link && c[k].owner == b[j].owner
                && c[k].data == b[j].data && links_within(b[j].links, c[k].links);
        assert forall|m: int| 0 <= m < a[i].links.len() implies c[k].links.contains(#[trigger] a[i].links[m]) by {
            assert(b[j].links.contains(a[i].links[m]));
            let q = choose|q: int| 0 <= q < b[j].links.len() && b[j].links[q] == a[i].links[m];
            assert(c[k].links.contains(b[j].links[q]));
        }
    }
}

pub proof fn lemma_nodes_within_refl(a: Seq<ResView>)
    ensures
        nodes_within(a, a),
{
    assert forall|i: int| 0 <= i < a.len() implies has_node_like(a, #[trigger] a[i]) by {
        assert forall|k: int| 0 <= k < a[i].links.len() implies a[i].links.contains(#[trigger] a[i].links[k]) by {}
        assert(links_within(a[i].links, a[i].links));
    }
}

} // verus!
