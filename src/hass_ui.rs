use vstd::prelude::*;
use vstd::string::StrSliceExecFns;
use vstd::string::StringExecFns;

use crate::keyed::{
    keys_unique, lemma_map_of_at, lemma_map_of_dom, lemma_map_of_push, lemma_map_of_update, map_of,
};
use crate::text::{
    trim_start, trim_end, is_id_char,
    contains_text, eq_ignore_case, has_infix, lower, lower_text, sanitize, sanitized, trim_text,
    trimmed, is_canonical_id, lemma_trimmed_idempotent, lemma_sanitized_canonical,
    lemma_canonical_fixed, text_eq_ignore_case,
};

verus! {

#[derive(Clone, Copy, Debug, PartialEq, Eq, Structural)]
pub enum HassSensorKind {
    Motion,
    Contact,
    Ignore,
}

#[derive(Clone, Copy, Debug, PartialEq, Eq, Structural)]
pub enum HassSwitchMode {
    Plug,
    Light,
}

#[derive(Clone, Copy, Debug, PartialEq, Eq, Structural)]
pub enum HassLightArchetype {
    ClassicBulb,
    SultanBulb,
    CandleBulb,
    SpotBulb,
    VintageBulb,
    FloodBulb,
    CeilingRound,
    CeilingSquare,
    PendantRound,
    PendantLong,
    FloorShade,
    FloorLantern,
    TableShade,
    WallSpot,
    WallLantern,
    RecessedCeiling,
    HueLightstrip,
    HuePlay,
    HueGo,
    HueBloom,
    HueIris,
    HueSigne,
    HueTube,
}

#[derive(Clone, Copy, Debug, PartialEq, Eq, Structural)]
pub enum HassFakeCloudMode {
    Off,
    Connected,
    Outage,
    Custom,
}

#[derive(Clone, Copy, Debug, PartialEq, Eq, Structural)]
pub enum HassPortalCommunication {
    Connected,
    Disconnected,
    Error,
}

#[derive(Clone, Copy, Debug, PartialEq, Eq, Structural)]
pub enum HassPortalConnectionState {
    Connected,
    Disconnected,
    Connecting,
}

#[derive(Clone, Copy, Debug, PartialEq, Eq, Structural)]
pub enum HassPortalAction {
    NoAction,
    LinkButton,
}

/// The portal status that the bridge reports to Hue apps.
#[derive(Clone, Copy, Debug, PartialEq, Eq, Structural)]
pub struct HassFakeCloudState {
    pub internet: bool,
    pub signedon: bool,
    pub incoming: bool,
    pub outgoing: bool,
    pub communication: HassPortalCommunication,
    pub connectionstate: HassPortalConnectionState,
    pub legacy: bool,
    pub trusted: bool,
    pub action: HassPortalAction,
}

/// The portal status with no cloud at all.
pub open spec fn offline_cloud() -> HassFakeCloudState {
    HassFakeCloudState {
        internet: false,
        signedon: false,
        incoming: false,
        outgoing: false,
        communication: HassPortalCommunication::Disconnected,
        connectionstate: HassPortalConnectionState::Disconnected,
        legacy: false,
        trusted: true,
        action: HassPortalAction::NoAction,
    }
}

impl HassFakeCloudState {
    pub fn default() -> (r: Self)
        ensures
            r == offline_cloud(),
    {
        HassFakeCloudState {
            internet: false,
            signedon: false,
            incoming: false,
            outgoing: false,
            communication: HassPortalCommunication::Disconnected,
            connectionstate: HassPortalConnectionState::Disconnected,
            legacy: false,
            trusted: true,
            action: HassPortalAction::NoAction,
        }
    }
}

/// A room of the Home Assistant side, as the user configured it.
#[derive(Debug)]
pub struct HassRoomConfig {
    pub id: String,
    pub name: String,
    pub source_area: Option<String>,
    pub auto_created: bool,
}

pub ghost struct RoomView {
    pub id: Seq<char>,
    pub name: Seq<char>,
    pub source_area: Option<Seq<char>>,
    pub auto_created: bool,
}

pub open spec fn opt_view(o: Option<String>) -> Option<Seq<char>> {
    match o {
        Some(s) => Some(s@),
        None => None,
    }
}

impl View for HassRoomConfig {
    type V = RoomView;

    open spec fn view(&self) -> RoomView {
        RoomView {
            id: self.id@,
            name: self.name@,
            source_area: opt_view(self.source_area),
            auto_created: self.auto_created,
        }
    }
}

/// What the user chose for one entity; `None` leaves the choice to the rules.
#[derive(Debug)]
pub struct HassEntityPreference {
    pub visible: Option<bool>,
    pub room_id: Option<String>,
    pub alias: Option<String>,
    pub sensor_kind: Option<HassSensorKind>,
    pub sensor_enabled: Option<bool>,
    pub switch_mode: Option<HassSwitchMode>,
    pub light_archetype: Option<HassLightArchetype>,
}

pub ghost struct PrefView {
    pub visible: Option<bool>,
    pub room_id: Option<Seq<char>>,
    pub alias: Option<Seq<char>>,
    pub sensor_kind: Option<HassSensorKind>,
    pub sensor_enabled: Option<bool>,
    pub switch_mode: Option<HassSwitchMode>,
    pub light_archetype: Option<HassLightArchetype>,
}

impl View for HassEntityPreference {
    type V = PrefView;

    open spec fn view(&self) -> PrefView {
        PrefView {
            visible: self.visible,
            room_id: opt_view(self.room_id),
            alias: opt_view(self.alias),
            sensor_kind: self.sensor_kind,
            sensor_enabled: self.sensor_enabled,
            switch_mode: self.switch_mode,
            light_archetype: self.light_archetype,
        }
    }
}

pub open spec fn empty_pref() -> PrefView {
    PrefView {
        visible: None,
        room_id: None,
        alias: None,
        sensor_kind: None,
        sensor_enabled: None,
        switch_mode: None,
        light_archetype: None,
    }
}

/// The configuration document of the Home Assistant integration.
///
/// `entity_preferences` maps entity ids to preferences: each id occurs once.
#[derive(Debug)]
pub struct HassUiConfig {
    pub hidden_entity_ids: Vec<String>,
    pub exclude_entity_ids: Vec<String>,
    pub exclude_name_patterns: Vec<String>,
    pub include_unavailable: bool,
    pub rooms: Vec<HassRoomConfig>,
    pub entity_preferences: Vec<(String, HassEntityPreference)>,
    pub ignored_area_names: Vec<String>,
    pub default_add_new_devices_to_hue: bool,
    pub sync_hass_areas_to_rooms: bool,
    pub fake_cloud_mode: HassFakeCloudMode,
    pub fake_cloud_custom: HassFakeCloudState,
    pub hass_timezone: Option<String>,
    pub hass_lat: Option<String>,
    pub hass_long: Option<String>,
}

pub ghost struct UiConfigView {
    pub hidden_entity_ids: Seq<Seq<char>>,
    pub exclude_entity_ids: Seq<Seq<char>>,
    pub exclude_name_patterns: Seq<Seq<char>>,
    pub include_unavailable: bool,
    pub rooms: Seq<RoomView>,
    pub entity_preferences: Map<Seq<char>, PrefView>,
    pub ignored_area_names: Seq<Seq<char>>,
    pub default_add_new_devices_to_hue: bool,
    pub sync_hass_areas_to_rooms: bool,
    pub fake_cloud_mode: HassFakeCloudMode,
    pub fake_cloud_custom: HassFakeCloudState,
    pub hass_timezone: Option<Seq<char>>,
    pub hass_lat: Option<Seq<char>>,
    pub hass_long: Option<Seq<char>>,
}

pub open spec fn strs_view(v: Seq<String>) -> Seq<Seq<char>> {
    v.map_values(|s: String| s@)
}

pub open spec fn rooms_view(v: Seq<HassRoomConfig>) -> Seq<RoomView> {
    v.map_values(|r: HassRoomConfig| r@)
}

pub open spec fn entries_view(v: Seq<(String, HassEntityPreference)>) -> Seq<(Seq<char>, PrefView)> {
    v.map_values(|e: (String, HassEntityPreference)| (e.0@, e.1@))
}

impl View for HassUiConfig {
    type V = UiConfigView;

    open spec fn view(&self) -> UiConfigView {
        UiConfigView {
            hidden_entity_ids: strs_view(self.hidden_entity_ids@),
            exclude_entity_ids: strs_view(self.exclude_entity_ids@),
            exclude_name_patterns: strs_view(self.exclude_name_patterns@),
            include_unavailable: self.include_unavailable,
            rooms: rooms_view(self.rooms@),
            entity_preferences: map_of(entries_view(self.entity_preferences@)),
            ignored_area_names: strs_view(self.ignored_area_names@),
            default_add_new_devices_to_hue: self.default_add_new_devices_to_hue,
            sync_hass_areas_to_rooms: self.sync_hass_areas_to_rooms,
            fake_cloud_mode: self.fake_cloud_mode,
            fake_cloud_custom: self.fake_cloud_custom,
            hass_timezone: opt_view(self.hass_timezone),
            hass_lat: opt_view(self.hass_lat),
            hass_long: opt_view(self.hass_long),
        }
    }
}

/// A list of texts, each trimmed, the empty ones dropped.
pub open spec fn clean_list(l: Seq<Seq<char>>) -> Seq<Seq<char>>
    decreases l.len(),
{
    if l.len() == 0 {
        Seq::empty()
    } else {
        let r = clean_list(l.drop_last());
        if trimmed(l.last()).len() > 0 {
            r.push(trimmed(l.last()))
        } else {
            r
        }
    }
}

/// An optional text, trimmed, and none if empty.
pub open spec fn clean_opt(o: Option<Seq<char>>) -> Option<Seq<char>> {
    match o {
        Some(s) => if trimmed(s).len() > 0 {
            Some(trimmed(s))
        } else {
            None
        },
        None => None,
    }
}

/// The id a room is known by: its own id sanitized, or else its name sanitized.
pub open spec fn room_key(r: RoomView) -> Seq<char> {
    if sanitized(r.id).len() > 0 {
        sanitized(r.id)
    } else {
        sanitized(r.name)
    }
}

pub open spec fn has_room(rs: Seq<RoomView>, id: Seq<char>) -> bool {
    exists|j: int| 0 <= j < rs.len() && (#[trigger] rs[j]).id == id
}

/// The rooms with normalized ids, names and areas; a room whose id is empty
/// or already taken is dropped.
pub open spec fn norm_rooms(rs: Seq<RoomView>) -> Seq<RoomView>
    decreases rs.len(),
{
    if rs.len() == 0 {
        Seq::empty()
    } else {
        let prev = norm_rooms(rs.drop_last());
        let r = rs.last();
        let id = room_key(r);
        if id.len() == 0 || has_room(prev, id) {
            prev
        } else {
            prev.push(
                RoomView {
                    id,
                    name: trimmed(r.name),
                    source_area: clean_opt(r.source_area),
                    auto_created: r.auto_created,
                },
            )
        }
    }
}

pub open spec fn default_room_id() -> Seq<char> {
    seq!['h', 'o', 'm', 'e', '-', 'a', 's', 's', 'i', 's', 't', 'a', 'n', 't']
}

pub open spec fn default_room() -> RoomView {
    RoomView {
        id: default_room_id(),
        name: seq!['H', 'o', 'm', 'e', ' ', 'A', 's', 's', 'i', 's', 't', 'a', 'n', 't'],
        source_area: None,
        auto_created: false,
    }
}

/// The rooms, with the default room put first when no room has its id.
pub open spec fn with_default_room(rs: Seq<RoomView>) -> Seq<RoomView> {
    if has_room(rs, default_room_id()) {
        rs
    } else {
        seq![default_room()] + rs
    }
}

/// A preference marked hidden unless it already says whether it is visible.
pub open spec fn hide_pref(p: PrefView) -> PrefView {
    if p.visible is None {
        PrefView { visible: Some(false), ..p }
    } else {
        p
    }
}

pub open spec fn mark_hidden(m: Map<Seq<char>, PrefView>, k: Seq<char>) -> Map<Seq<char>, PrefView> {
    if m.contains_key(k) {
        m.insert(k, hide_pref(m[k]))
    } else {
        m.insert(k, hide_pref(empty_pref()))
    }
}

pub open spec fn mark_all_hidden(m: Map<Seq<char>, PrefView>, ids: Seq<Seq<char>>) -> Map<
    Seq<char>,
    PrefView,
>
    decreases ids.len(),
{
    if ids.len() == 0 {
        m
    } else {
        mark_hidden(mark_all_hidden(m, ids.drop_last()), ids.last())
    }
}

/// A preference whose room is unknown loses its room, and whose alias is
/// cleaned.
pub open spec fn tidy_pref(p: PrefView, rooms: Seq<RoomView>) -> PrefView {
    PrefView {
        room_id: match p.room_id {
            Some(r) => if has_room(rooms, r) {
                Some(r)
            } else {
                None
            },
            None => None,
        },
        alias: clean_opt(p.alias),
        ..p
    }
}

/// A preference that holds at least one choice.
pub open spec fn substantive(p: PrefView) -> bool {
    p.visible is Some || p.room_id is Some || p.alias is Some || p.sensor_kind is Some
        || p.sensor_enabled is Some || p.switch_mode is Some || p.light_archetype is Some
}

pub open spec fn keep_pref(k: Seq<char>, p: PrefView, rooms: Seq<RoomView>) -> bool {
    trimmed(k).len() > 0 && substantive(tidy_pref(p, rooms))
}

/// The preferences tidied, those with a blank entity id or no choice dropped.
pub open spec fn tidy_prefs(m: Map<Seq<char>, PrefView>, rooms: Seq<RoomView>) -> Map<
    Seq<char>,
    PrefView,
> {
    Map::new(
        |k: Seq<char>| m.contains_key(k) && keep_pref(k, m[k], rooms),
        |k: Seq<char>| tidy_pref(m[k], rooms),
    )
}

/// The normal form of a configuration document.
pub open spec fn normalized(v: UiConfigView) -> UiConfigView {
    let hidden = clean_list(v.hidden_entity_ids);
    let exclude = clean_list(v.exclude_entity_ids);
    let rooms = with_default_room(norm_rooms(v.rooms));
    UiConfigView {
        hidden_entity_ids: hidden,
        exclude_entity_ids: exclude,
        exclude_name_patterns: clean_list(v.exclude_name_patterns),
        rooms,
        entity_preferences: tidy_prefs(
            mark_all_hidden(v.entity_preferences, hidden + exclude),
            rooms,
        ),
        ignored_area_names: clean_list(v.ignored_area_names),
        hass_timezone: clean_opt(v.hass_timezone),
        hass_lat: clean_opt(v.hass_lat),
        hass_long: clean_opt(v.hass_long),
        ..v
    }
}

fn clean_strings(v: &Vec<String>) -> (r: Vec<String>)
    ensures
        strs_view(r@) == clean_list(strs_view(v@)),
{
    let mut r: Vec<String> = Vec::new();
    let mut i: usize = 0;
    while i < v.len()
        invariant
            0 <= i <= v@.len(),
            strs_view(r@) == clean_list(strs_view(v@.subrange(0, i as int))),
        decreases v@.len() - i,
    {
        let t = trim_text(v[i].as_str());
        proof {
            let s = strs_view(v@.subrange(0, i + 1));
            assert(s.drop_last() =~= strs_view(v@.subrange(0, i as int)));
            assert(s.last() == v@[i as int]@);
        }
        if t.as_str().unicode_len() > 0 {
            r.push(t);
            proof {
                assert(strs_view(r@) =~= clean_list(strs_view(v@.subrange(0, i as int))).push(
                    trimmed(v@[i as int]@),
                ));
            }
        }
        i = i + 1;
    }
    proof {
        assert(v@.subrange(0, v@.len() as int) =~= v@);
    }
    r
}

fn clean_option(o: &Option<String>) -> (r: Option<String>)
    ensures
        opt_view(r) == clean_opt(opt_view(*o)),
{
    match o {
        Some(s) => {
            let t = trim_text(s.as_str());
            if t.as_str().unicode_len() > 0 {
                Some(t)
            } else {
                None
            }
        },
        None => None,
    }
}

fn clone_opt_text(o: &Option<String>) -> (r: Option<String>)
    ensures
        opt_view(r) == opt_view(*o),
{
    match o {
        Some(s) => Some(s.clone()),
        None => None,
    }
}

pub(crate) fn rooms_contain(rs: &Vec<HassRoomConfig>, id: &String) -> (r: bool)
    ensures
        r == has_room(rooms_view(rs@), id@),
{
    let mut i: usize = 0;
    while i < rs.len()
        invariant
            0 <= i <= rs@.len(),
            forall|j: int| 0 <= j < i ==> rs@[j].id@ != id@,
        decreases rs@.len() - i,
    {
        if rs[i].id == *id {
            proof {
                assert(rooms_view(rs@)[i as int].id == id@);
            }
            return true;
        }
        i = i + 1;
    }
    proof {
        assert forall|j: int| 0 <= j < rooms_view(rs@).len() implies (#[trigger] rooms_view(
            rs@,
        )[j]).id != id@ by {
            assert(rooms_view(rs@)[j] == rs@[j]@);
        }
    }
    false
}

fn normalize_rooms(rs: &Vec<HassRoomConfig>) -> (r: Vec<HassRoomConfig>)
    ensures
        rooms_view(r@) == norm_rooms(rooms_view(rs@)),
{
    let mut out: Vec<HassRoomConfig> = Vec::new();
    let mut i: usize = 0;
    while i < rs.len()
        invariant
            0 <= i <= rs@.len(),
            rooms_view(out@) == norm_rooms(rooms_view(rs@.subrange(0, i as int))),
        decreases rs@.len() - i,
    {
        let room = &rs[i];
        proof {
            let s = rooms_view(rs@.subrange(0, i + 1));
            assert(s.drop_last() =~= rooms_view(rs@.subrange(0, i as int)));
            assert(s.last() == rs@[i as int]@);
        }
        let mut id = sanitize(room.id.as_str());
        if id.as_str().unicode_len() == 0 {
            id = sanitize(room.name.as_str());
        }
        if id.as_str().unicode_len() > 0 && !rooms_contain(&out, &id) {
            let nr = HassRoomConfig {
                id,
                name: trim_text(room.name.as_str()),
                source_area: clean_option(&room.source_area),
                auto_created: room.auto_created,
            };
            out.push(nr);
            proof {
                assert(rooms_view(out@) =~= norm_rooms(rooms_view(rs@.subrange(0, i as int))).push(
                    nr@,
                ));
            }
        }
        i = i + 1;
    }
    proof {
        assert(rs@.subrange(0, rs@.len() as int) =~= rs@);
    }
    out
}


fn find_entry(ps: &Vec<(String, HassEntityPreference)>, k: &String) -> (r: Option<usize>)
    ensures
        match r {
            Some(i) => i < ps@.len() && entries_view(ps@)[i as int].0 == k@,
            None => !map_of(entries_view(ps@)).contains_key(k@),
        },
{
    let mut i: usize = 0;
    while i < ps.len()
        invariant
            0 <= i <= ps@.len(),
            forall|j: int| 0 <= j < i ==> (#[trigger] entries_view(ps@)[j]).0 != k@,
        decreases ps@.len() - i,
    {
        if ps[i].0 == *k {
            return Some(i);
        }
        i = i + 1;
    }
    proof {
        lemma_map_of_dom(entries_view(ps@), k@);
    }
    None
}

fn empty_preference() -> (r: HassEntityPreference)
    ensures
        r@ == empty_pref(),
{
    HassEntityPreference {
        visible: None,
        room_id: None,
        alias: None,
        sensor_kind: None,
        sensor_enabled: None,
        switch_mode: None,
        light_archetype: None,
    }
}

/// The entry of `k`, added empty if missing; returns its index.
fn entry_or_default(ps: &mut Vec<(String, HassEntityPreference)>, k: &String) -> (i: usize)
    requires
        keys_unique(entries_view(old(ps)@)),
    ensures
        keys_unique(entries_view(final(ps)@)),
        i < final(ps)@.len(),
        entries_view(final(ps)@)[i as int].0 == k@,
        entries_view(final(ps)@)[i as int].1 == base_pref(map_of(entries_view(old(ps)@)), k@),
        map_of(entries_view(final(ps)@)) == map_of(entries_view(old(ps)@)).insert(
            k@,
            base_pref(map_of(entries_view(old(ps)@)), k@),
        ),
{
    match find_entry(ps, k) {
        Some(i) => {
            proof {
                lemma_map_of_at(entries_view(ps@), i as int);
                assert(map_of(entries_view(ps@)).insert(k@, base_pref(map_of(entries_view(ps@)), k@))
                    =~= map_of(entries_view(ps@)));
            }
            i
        },
        None => {
            let ghost before = entries_view(ps@);
            ps.push((k.clone(), empty_preference()));
            proof {
                lemma_map_of_push(before, k@, empty_pref());
                assert(entries_view(ps@) =~= before.push((k@, empty_pref())));
            }
            ps.len() - 1
        },
    }
}

/// The preference of `k`, or the empty one.
pub open spec fn base_pref(m: Map<Seq<char>, PrefView>, k: Seq<char>) -> PrefView {
    if m.contains_key(k) {
        m[k]
    } else {
        empty_pref()
    }
}

fn mark_entry_hidden(ps: &mut Vec<(String, HassEntityPreference)>, k: &String)
    requires
        keys_unique(entries_view(old(ps)@)),
    ensures
        keys_unique(entries_view(final(ps)@)),
        map_of(entries_view(final(ps)@)) == mark_hidden(map_of(entries_view(old(ps)@)), k@),
{
    let ghost m0 = map_of(entries_view(ps@));
    let i = entry_or_default(ps, k);
    let ghost s1 = entries_view(ps@);
    if ps[i].1.visible.is_none() {
        ps[i].1.visible = Some(false);
    }
    proof {
        assert(entries_view(ps@) =~= s1.update(i as int, (s1[i as int].0, hide_pref(s1[i as int].1))));
        lemma_map_of_update(s1, i as int, hide_pref(s1[i as int].1));
        assert(map_of(entries_view(ps@)) =~= mark_hidden(m0, k@));
    }
}

fn mark_list_hidden(ps: &mut Vec<(String, HassEntityPreference)>, ids: &Vec<String>)
    requires
        keys_unique(entries_view(old(ps)@)),
    ensures
        keys_unique(entries_view(final(ps)@)),
        map_of(entries_view(final(ps)@)) == mark_all_hidden(
            map_of(entries_view(old(ps)@)),
            strs_view(ids@),
        ),
{
    let ghost m0 = map_of(entries_view(ps@));
    let mut i: usize = 0;
    while i < ids.len()
        invariant
            0 <= i <= ids@.len(),
            keys_unique(entries_view(ps@)),
            map_of(entries_view(ps@)) == mark_all_hidden(m0, strs_view(ids@.subrange(0, i as int))),
        decreases ids@.len() - i,
    {
        mark_entry_hidden(ps, &ids[i]);
        proof {
            let s = strs_view(ids@.subrange(0, i + 1));
            assert(s.drop_last() =~= strs_view(ids@.subrange(0, i as int)));
            assert(s.last() == ids@[i as int]@);
        }
        i = i + 1;
    }
    proof {
        assert(ids@.subrange(0, ids@.len() as int) =~= ids@);
    }
}

proof fn lemma_mark_all_append(m: Map<Seq<char>, PrefView>, a: Seq<Seq<char>>, b: Seq<Seq<char>>)
    ensures
        mark_all_hidden(m, a + b) == mark_all_hidden(mark_all_hidden(m, a), b),
    decreases b.len(),
{
    if b.len() == 0 {
        assert(a + b =~= a);
    } else {
        assert((a + b).drop_last() =~= a + b.drop_last());
        lemma_mark_all_append(m, a, b.drop_last());
    }
}

fn tidy_entries(ps: &Vec<(String, HassEntityPreference)>, rooms: &Vec<HassRoomConfig>) -> (r: Vec<
    (String, HassEntityPreference),
>)
    requires
        keys_unique(entries_view(ps@)),
    ensures
        keys_unique(entries_view(r@)),
        map_of(entries_view(r@)) == tidy_prefs(map_of(entries_view(ps@)), rooms_view(rooms@)),
{
    let ghost rv = rooms_view(rooms@);
    let mut out: Vec<(String, HassEntityPreference)> = Vec::new();
    let mut i: usize = 0;
    while i < ps.len()
        invariant
            0 <= i <= ps@.len(),
            rv == rooms_view(rooms@),
            keys_unique(entries_view(ps@)),
            keys_unique(entries_view(out@)),
            map_of(entries_view(out@)) == tidy_prefs(
                map_of(entries_view(ps@.subrange(0, i as int))),
                rv,
            ),
        decreases ps@.len() - i,
    {
        let ghost pre = entries_view(ps@.subrange(0, i as int));
        let ghost cur = entries_view(ps@.subrange(0, i + 1));
        proof {
            assert(cur.drop_last() =~= pre);
            assert(cur.last() == entries_view(ps@)[i as int]);
            assert forall|j: int| 0 <= j < pre.len() implies (#[trigger] pre[j]).0 != cur.last().0 by {
                assert(pre[j] == entries_view(ps@)[j]);
            }
            lemma_map_of_dom(pre, cur.last().0);
        }
        let key = &ps[i].0;
        let p = &ps[i].1;
        let room_id = match &p.room_id {
            Some(r) => if rooms_contain(rooms, r) {
                Some(r.clone())
            } else {
                None
            },
            None => None,
        };
        let q = HassEntityPreference {
            visible: p.visible,
            room_id,
            alias: clean_option(&p.alias),
            sensor_kind: p.sensor_kind,
            sensor_enabled: p.sensor_enabled,
            switch_mode: p.switch_mode,
            light_archetype: p.light_archetype,
        };
        assert(q@ == tidy_pref(p@, rv));
        let keep = trim_text(key.as_str()).as_str().unicode_len() > 0 && (q.visible.is_some()
            || q.room_id.is_some() || q.alias.is_some() || q.sensor_kind.is_some()
            || q.sensor_enabled.is_some() || q.switch_mode.is_some()
            || q.light_archetype.is_some());
        if keep {
            let ghost before = entries_view(out@);
            proof {
                assert(!map_of(before).contains_key(key@));
            }
            out.push((key.clone(), q));
            proof {
                lemma_map_of_push(before, key@, tidy_pref(p@, rv));
                assert(entries_view(out@) =~= before.push((key@, tidy_pref(p@, rv))));
                assert(map_of(entries_view(out@)) =~= tidy_prefs(map_of(cur), rv));
            }
        } else {
            proof {
                assert(map_of(entries_view(out@)) =~= tidy_prefs(map_of(cur), rv));
            }
        }
        i = i + 1;
    }
    proof {
        assert(ps@.subrange(0, ps@.len() as int) =~= ps@);
    }
    out
}


impl HassUiConfig {
    /// Each entity id has at most one preference.
    pub open spec fn wf(&self) -> bool {
        keys_unique(entries_view(self.entity_preferences@))
    }

    /// The id of the room that always exists.
    pub fn default_room_id() -> (r: String)
        ensures
            r@ == default_room_id(),
    {
        let r = String::from_str("home-assistant");
        proof {
            reveal_strlit("home-assistant");
            assert(r@ =~= default_room_id());
        }
        r
    }

    pub fn default_include_unavailable() -> (r: bool)
        ensures
            r,
    {
        true
    }

    /// New installs hide everything until it is explicitly added to Hue.
    pub fn default_add_new() -> (r: bool)
        ensures
            !r,
    {
        false
    }

    pub fn default_sync_areas() -> (r: bool)
        ensures
            r,
    {
        true
    }

    pub fn default_fake_cloud_mode() -> (r: HassFakeCloudMode)
        ensures
            r == HassFakeCloudMode::Off,
    {
        HassFakeCloudMode::Off
    }

    /// The identifier form of a text (see `sanitized`).
    pub fn sanitize_id(text: &str) -> (r: String)
        ensures
            r@ == sanitized(text@),
    {
        sanitize(text)
    }

    /// Puts the default room first unless a room already has its id.
    pub fn ensure_default_room(&mut self)
        requires
            old(self).wf(),
        ensures
            final(self).wf(),
            final(self)@ == (UiConfigView { rooms: with_default_room(old(self)@.rooms), ..old(self)@ }),
    {
        let id = Self::default_room_id();
        if !rooms_contain(&self.rooms, &id) {
            let name = String::from_str("Home Assistant");
            proof {
                reveal_strlit("Home Assistant");
                assert(name@ =~= default_room().name);
            }
            let room = HassRoomConfig { id, name, source_area: None, auto_created: false };
            let ghost before = self.rooms@;
            self.rooms.insert(0, room);
            proof {
                assert(rooms_view(self.rooms@) =~= seq![default_room()] + rooms_view(before));
            }
        }
    }

    /// Brings the document to its normal form: texts trimmed and blanks
    /// dropped, room ids sanitized and unique with the default room present,
    /// hidden and excluded entities marked invisible, and preferences tidied.
    pub fn normalize(&mut self)
        requires
            old(self).wf(),
        ensures
            final(self).wf(),
            final(self)@ == normalized(old(self)@),
    {
        let ghost v0 = self@;
        self.hidden_entity_ids = clean_strings(&self.hidden_entity_ids);
        self.exclude_entity_ids = clean_strings(&self.exclude_entity_ids);
        self.exclude_name_patterns = clean_strings(&self.exclude_name_patterns);
        self.ignored_area_names = clean_strings(&self.ignored_area_names);
        self.hass_timezone = clean_option(&self.hass_timezone);
        self.hass_lat = clean_option(&self.hass_lat);
        self.hass_long = clean_option(&self.hass_long);
        self.rooms = normalize_rooms(&self.rooms);
        self.ensure_default_room();
        mark_list_hidden(&mut self.entity_preferences, &self.hidden_entity_ids);
        mark_list_hidden(&mut self.entity_preferences, &self.exclude_entity_ids);
        proof {
            lemma_mark_all_append(
                v0.entity_preferences,
                clean_list(v0.hidden_entity_ids),
                clean_list(v0.exclude_entity_ids),
            );
        }
        self.entity_preferences = tidy_entries(&self.entity_preferences, &self.rooms);
        proof {
            assert(self@ == normalized(v0));
        }
    }
}


/// A list that cleaning leaves as it is: every text trimmed and non-empty.
pub open spec fn clean_fixed(l: Seq<Seq<char>>) -> bool {
    forall|i: int| 0 <= i < l.len() ==> trimmed(#[trigger] l[i]) == l[i] && l[i].len() > 0
}

proof fn lemma_clean_list_fixed(l: Seq<Seq<char>>)
    ensures
        clean_fixed(clean_list(l)),
    decreases l.len(),
{
    if l.len() > 0 {
        lemma_clean_list_fixed(l.drop_last());
        lemma_trimmed_idempotent(l.last());
        let r = clean_list(l.drop_last());
        if trimmed(l.last()).len() > 0 {
            assert forall|i: int| 0 <= i < r.len() + 1 implies trimmed(#[trigger] r.push(trimmed(l.last()))[i])
                == r.push(trimmed(l.last()))[i] && r.push(trimmed(l.last()))[i].len() > 0 by {
                if i < r.len() {
                    assert(r.push(trimmed(l.last()))[i] == r[i]);
                }
            }
        }
    }
}

proof fn lemma_clean_list_id(l: Seq<Seq<char>>)
    requires
        clean_fixed(l),
    ensures
        clean_list(l) == l,
    decreases l.len(),
{
    if l.len() > 0 {
        let d = l.drop_last();
        assert forall|i: int| 0 <= i < d.len() implies trimmed(#[trigger] d[i]) == d[i] && d[i].len() > 0 by {
            assert(d[i] == l[i]);
        }
        lemma_clean_list_id(d);
        assert(l.last() == l[l.len() - 1]);
        assert(d.push(l.last()) =~= l);
    }
}

proof fn lemma_clean_opt_idempotent(o: Option<Seq<char>>)
    ensures
        clean_opt(clean_opt(o)) == clean_opt(o),
{
    if let Some(s) = o {
        lemma_trimmed_idempotent(s);
    }
}

/// Rooms that normalizing leaves as they are.
pub open spec fn rooms_fixed(rs: Seq<RoomView>) -> bool {
    &&& forall|i: int|
        0 <= i < rs.len() ==> is_canonical_id((#[trigger] rs[i]).id) && rs[i].id.len() > 0
            && trimmed(rs[i].name) == rs[i].name && clean_opt(rs[i].source_area)
            == rs[i].source_area
    &&& forall|i: int, j: int| 0 <= i < j < rs.len() ==> (#[trigger] rs[i]).id != (#[trigger] rs[j]).id
}

proof fn lemma_norm_rooms_fixed(rs: Seq<RoomView>)
    ensures
        rooms_fixed(norm_rooms(rs)),
    decreases rs.len(),
{
    if rs.len() > 0 {
        lemma_norm_rooms_fixed(rs.drop_last());
        let prev = norm_rooms(rs.drop_last());
        let r = rs.last();
        let id = room_key(r);
        if !(id.len() == 0 || has_room(prev, id)) {
            lemma_sanitized_canonical(r.id);
            lemma_sanitized_canonical(r.name);
            lemma_trimmed_idempotent(r.name);
            lemma_clean_opt_idempotent(r.source_area);
            let nr = RoomView {
                id,
                name: trimmed(r.name),
                source_area: clean_opt(r.source_area),
                auto_created: r.auto_created,
            };
            let out = prev.push(nr);
            assert forall|i: int| 0 <= i < out.len() implies is_canonical_id((#[trigger] out[i]).id)
                && out[i].id.len() > 0 && trimmed(out[i].name) == out[i].name && clean_opt(
                out[i].source_area,
            ) == out[i].source_area by {
                if i < prev.len() {
                    assert(out[i] == prev[i]);
                }
            }
            assert forall|i: int, j: int| 0 <= i < j < out.len() implies (#[trigger] out[i]).id
                != (#[trigger] out[j]).id by {
                assert(out[i] == prev[i]);
                if j < prev.len() {
                    assert(out[j] == prev[j]);
                }
            }
        }
    }
}

proof fn lemma_norm_rooms_id(rs: Seq<RoomView>)
    requires
        rooms_fixed(rs),
    ensures
        norm_rooms(rs) == rs,
    decreases rs.len(),
{
    if rs.len() > 0 {
        let d = rs.drop_last();
        assert forall|i: int| 0 <= i < d.len() implies is_canonical_id((#[trigger] d[i]).id)
            && d[i].id.len() > 0 && trimmed(d[i].name) == d[i].name && clean_opt(d[i].source_area)
            == d[i].source_area by {
            assert(d[i] == rs[i]);
        }
        assert forall|i: int, j: int| 0 <= i < j < d.len() implies (#[trigger] d[i]).id != (
        #[trigger] d[j]).id by {
            assert(d[i] == rs[i] && d[j] == rs[j]);
        }
        lemma_norm_rooms_id(d);
        let r = rs.last();
        assert(r == rs[rs.len() - 1]);
        lemma_canonical_fixed(r.id);
        assert(room_key(r) == r.id);
        assert forall|j: int| 0 <= j < d.len() implies (#[trigger] d[j]).id != r.id by {
            assert(d[j] == rs[j]);
        }
        assert(d.push(r) =~= rs);
    }
}

proof fn lemma_default_room_fixed()
    ensures
        is_canonical_id(default_room_id()),
        default_room_id().len() > 0,
        trimmed(default_room().name) == default_room().name,
{
    let d = default_room_id();
    assert forall|i: int| 0 <= i < d.len() implies (is_id_char(#[trigger] d[i]) || d[i] == '-')
        && (i < d.len() - 1 && d[i] == '-' ==> d[i + 1] != '-') by {
        if i == 0 {
        } else if i == 1 {
        } else if i == 2 {
        } else if i == 3 {
        } else if i == 4 {
            assert(d[5] == 'a');
        } else if i == 5 {
        } else if i == 6 {
        } else if i == 7 {
        } else if i == 8 {
        } else if i == 9 {
        } else if i == 10 {
        } else if i == 11 {
        } else if i == 12 {
        } else {
        }
    }
    assert(d.last() == d[13]);
    let name = default_room().name;
    assert(name[0] == 'H');
    assert(trim_start(name) == name);
    assert(name.last() == 't');
    assert(trim_end(name) == name);
}

proof fn lemma_with_default_fixed(rs: Seq<RoomView>)
    requires
        rooms_fixed(rs),
    ensures
        rooms_fixed(with_default_room(rs)),
        has_room(with_default_room(rs), default_room_id()),
{
    lemma_default_room_fixed();
    if !has_room(rs, default_room_id()) {
        let out = seq![default_room()] + rs;
        assert(out[0] == default_room());
        assert forall|i: int| 0 <= i < out.len() implies is_canonical_id((#[trigger] out[i]).id)
            && out[i].id.len() > 0 && trimmed(out[i].name) == out[i].name && clean_opt(
            out[i].source_area,
        ) == out[i].source_area by {
            if i > 0 {
                assert(out[i] == rs[i - 1]);
            }
        }
        assert forall|i: int, j: int| 0 <= i < j < out.len() implies (#[trigger] out[i]).id != (
        #[trigger] out[j]).id by {
            assert(out[j] == rs[j - 1]);
            if i > 0 {
                assert(out[i] == rs[i - 1]);
            }
        }
    }
}

/// Every id of `ids` has a preference that says whether it is visible.
pub open spec fn all_marked(m: Map<Seq<char>, PrefView>, ids: Seq<Seq<char>>) -> bool {
    forall|i: int|
        0 <= i < ids.len() ==> m.contains_key(#[trigger] ids[i]) && m[ids[i]].visible is Some
}

proof fn lemma_mark_all_marks(m: Map<Seq<char>, PrefView>, ids: Seq<Seq<char>>)
    ensures
        all_marked(mark_all_hidden(m, ids), ids),
    decreases ids.len(),
{
    if ids.len() > 0 {
        let d = ids.drop_last();
        lemma_mark_all_marks(m, d);
        let m1 = mark_all_hidden(m, d);
        assert forall|i: int| 0 <= i < ids.len() implies mark_all_hidden(m, ids).contains_key(
            #[trigger] ids[i],
        ) && mark_all_hidden(m, ids)[ids[i]].visible is Some by {
            if i < d.len() {
                assert(ids[i] == d[i]);
                assert(m1.contains_key(d[i]));
            }
        }
    }
}

proof fn lemma_mark_all_noop(m: Map<Seq<char>, PrefView>, ids: Seq<Seq<char>>)
    requires
        all_marked(m, ids),
    ensures
        mark_all_hidden(m, ids) == m,
    decreases ids.len(),
{
    if ids.len() > 0 {
        let d = ids.drop_last();
        assert forall|i: int| 0 <= i < d.len() implies m.contains_key(#[trigger] d[i])
            && m[d[i]].visible is Some by {
            assert(d[i] == ids[i]);
        }
        lemma_mark_all_noop(m, d);
        assert(ids.last() == ids[ids.len() - 1]);
        assert(mark_hidden(m, ids.last()) =~= m);
    }
}

proof fn lemma_tidy_keeps_marked(m: Map<Seq<char>, PrefView>, ids: Seq<Seq<char>>, rooms: Seq<RoomView>)
    requires
        all_marked(m, ids),
        clean_fixed(ids),
    ensures
        all_marked(tidy_prefs(m, rooms), ids),
{
    assert forall|i: int| 0 <= i < ids.len() implies tidy_prefs(m, rooms).contains_key(
        #[trigger] ids[i],
    ) && tidy_prefs(m, rooms)[ids[i]].visible is Some by {
        assert(trimmed(ids[i]) == ids[i] && ids[i].len() > 0);
    }
}

proof fn lemma_tidy_idempotent(m: Map<Seq<char>, PrefView>, rooms: Seq<RoomView>)
    ensures
        tidy_prefs(tidy_prefs(m, rooms), rooms) == tidy_prefs(m, rooms),
{
    let t = tidy_prefs(m, rooms);
    assert forall|k: Seq<char>| #[trigger] t.contains_key(k) implies tidy_pref(t[k], rooms) == t[k] by {
        lemma_clean_opt_idempotent(m[k].alias);
    }
    assert(tidy_prefs(t, rooms) =~= t);
}

/// Normalizing a normalized document changes nothing.
pub proof fn lemma_normalize_idempotent(v: UiConfigView)
    ensures
        normalized(normalized(v)) == normalized(v),
{
    let n = normalized(v);
    lemma_clean_list_fixed(v.hidden_entity_ids);
    lemma_clean_list_fixed(v.exclude_entity_ids);
    lemma_clean_list_fixed(v.exclude_name_patterns);
    lemma_clean_list_fixed(v.ignored_area_names);
    lemma_clean_list_id(n.hidden_entity_ids);
    lemma_clean_list_id(n.exclude_entity_ids);
    lemma_clean_list_id(n.exclude_name_patterns);
    lemma_clean_list_id(n.ignored_area_names);
    lemma_clean_opt_idempotent(v.hass_timezone);
    lemma_clean_opt_idempotent(v.hass_lat);
    lemma_clean_opt_idempotent(v.hass_long);
    lemma_norm_rooms_fixed(v.rooms);
    lemma_with_default_fixed(norm_rooms(v.rooms));
    lemma_norm_rooms_id(n.rooms);
    let ids = n.hidden_entity_ids + n.exclude_entity_ids;
    assert(clean_fixed(ids)) by {
        assert forall|i: int| 0 <= i < ids.len() implies trimmed(#[trigger] ids[i]) == ids[i]
            && ids[i].len() > 0 by {
            if i < n.hidden_entity_ids.len() {
                assert(ids[i] == n.hidden_entity_ids[i]);
            } else {
                assert(ids[i] == n.exclude_entity_ids[i - n.hidden_entity_ids.len()]);
            }
        }
    }
    lemma_mark_all_marks(v.entity_preferences, ids);
    lemma_tidy_keeps_marked(mark_all_hidden(v.entity_preferences, ids), ids, n.rooms);
    lemma_mark_all_noop(n.entity_preferences, ids);
    lemma_tidy_idempotent(mark_all_hidden(v.entity_preferences, ids), n.rooms);
    assert(normalized(n) == n);
}


/// The document with the preference of `k` replaced by `p`.
pub open spec fn with_pref(v: UiConfigView, k: Seq<char>, p: PrefView) -> UiConfigView {
    UiConfigView { entity_preferences: v.entity_preferences.insert(k, p), ..v }
}

/// Some text of `l` equals `k` up to ASCII case.
pub open spec fn any_eq_ignore_case(l: Seq<Seq<char>>, k: Seq<char>) -> bool {
    exists|i: int| 0 <= i < l.len() && eq_ignore_case(#[trigger] l[i], k)
}

/// `l` without the texts equal to `k` up to ASCII case.
pub open spec fn without_text(l: Seq<Seq<char>>, k: Seq<char>) -> Seq<Seq<char>>
    decreases l.len(),
{
    if l.len() == 0 {
        Seq::empty()
    } else {
        let r = without_text(l.drop_last(), k);
        if eq_ignore_case(l.last(), k) {
            r
        } else {
            r.push(l.last())
        }
    }
}

/// Some non-empty pattern of `l` occurs, ASCII case ignored, in the entity id
/// or in the name.
pub open spec fn pattern_matches(l: Seq<Seq<char>>, id: Seq<char>, name: Seq<char>) -> bool {
    exists|i: int|
        0 <= i < l.len() && (#[trigger] l[i]).len() > 0 && (has_infix(lower(id), lower(l[i]))
            || has_infix(lower(name), lower(l[i])))
}

/// The entity is hidden by its preference or listed as hidden or excluded.
pub open spec fn manually_hidden(v: UiConfigView, id: Seq<char>) -> bool {
    base_pref(v.entity_preferences, id).visible == Some(false) || any_eq_ignore_case(
        v.hidden_entity_ids,
        id,
    ) || any_eq_ignore_case(v.exclude_entity_ids, id)
}

/// Whether an entity goes to Hue: an unavailable one only where unavailable
/// ones are included; then an explicit visibility decides; then the hidden
/// and excluded lists and the name patterns exclude it; else the default
/// for new devices decides.
pub open spec fn included(v: UiConfigView, id: Seq<char>, name: Seq<char>, available: bool) -> bool {
    if !v.include_unavailable && !available {
        false
    } else if base_pref(v.entity_preferences, id).visible is Some {
        base_pref(v.entity_preferences, id).visible->0
    } else if manually_hidden(v, id) {
        false
    } else if pattern_matches(v.exclude_name_patterns, id, name) {
        false
    } else {
        v.default_add_new_devices_to_hue
    }
}

/// The id of the first room made for an area of this name (ASCII case ignored).
pub open spec fn area_room(rs: Seq<RoomView>, area: Seq<char>) -> Option<Seq<char>>
    decreases rs.len(),
{
    if rs.len() == 0 {
        None
    } else if rs[0].source_area is Some && eq_ignore_case(rs[0].source_area->0, area) {
        Some(rs[0].id)
    } else {
        area_room(rs.drop_first(), area)
    }
}

/// The name of the first room with this id, or the id itself.
pub open spec fn name_of_room(rs: Seq<RoomView>, id: Seq<char>) -> Seq<char>
    decreases rs.len(),
{
    if rs.len() == 0 {
        id
    } else if rs[0].id == id {
        rs[0].name
    } else {
        name_of_room(rs.drop_first(), id)
    }
}

/// The portal status shown for each fake-cloud mode.
pub open spec fn fake_cloud_of(mode: HassFakeCloudMode, custom: HassFakeCloudState) -> HassFakeCloudState {
    match mode {
        HassFakeCloudMode::Off => offline_cloud(),
        HassFakeCloudMode::Connected => HassFakeCloudState {
            internet: true,
            signedon: true,
            incoming: true,
            outgoing: true,
            communication: HassPortalCommunication::Connected,
            connectionstate: HassPortalConnectionState::Connected,
            legacy: false,
            trusted: true,
            action: HassPortalAction::NoAction,
        },
        HassFakeCloudMode::Outage => HassFakeCloudState {
            internet: false,
            signedon: true,
            incoming: false,
            outgoing: false,
            communication: HassPortalCommunication::Disconnected,
            connectionstate: HassPortalConnectionState::Disconnected,
            legacy: false,
            trusted: true,
            action: HassPortalAction::NoAction,
        },
        HassFakeCloudMode::Custom => custom,
    }
}

/// The document of a new install.
pub open spec fn default_config() -> UiConfigView {
    UiConfigView {
        hidden_entity_ids: Seq::empty(),
        exclude_entity_ids: Seq::empty(),
        exclude_name_patterns: Seq::empty(),
        include_unavailable: true,
        rooms: seq![default_room()],
        entity_preferences: Map::empty(),
        ignored_area_names: Seq::empty(),
        default_add_new_devices_to_hue: false,
        sync_hass_areas_to_rooms: true,
        fake_cloud_mode: HassFakeCloudMode::Off,
        fake_cloud_custom: offline_cloud(),
        hass_timezone: None,
        hass_lat: None,
        hass_long: None,
    }
}

fn list_has_ignore_case(l: &Vec<String>, k: &str) -> (r: bool)
    ensures
        r == any_eq_ignore_case(strs_view(l@), k@),
{
    let mut i: usize = 0;
    while i < l.len()
        invariant
            0 <= i <= l@.len(),
            forall|j: int| 0 <= j < i ==> !eq_ignore_case(#[trigger] strs_view(l@)[j], k@),
        decreases l@.len() - i,
    {
        if text_eq_ignore_case(l[i].as_str(), k) {
            assert(eq_ignore_case(strs_view(l@)[i as int], k@));
            return true;
        }
        i = i + 1;
    }
    false
}

fn remove_text(l: &Vec<String>, k: &str) -> (r: Vec<String>)
    ensures
        strs_view(r@) == without_text(strs_view(l@), k@),
{
    let mut out: Vec<String> = Vec::new();
    let mut i: usize = 0;
    while i < l.len()
        invariant
            0 <= i <= l@.len(),
            strs_view(out@) == without_text(strs_view(l@.subrange(0, i as int)), k@),
        decreases l@.len() - i,
    {
        proof {
            let s = strs_view(l@.subrange(0, i + 1));
            assert(s.drop_last() =~= strs_view(l@.subrange(0, i as int)));
            assert(s.last() == l@[i as int]@);
        }
        if !text_eq_ignore_case(l[i].as_str(), k) {
            let ghost before = out@;
            out.push(l[i].clone());
            proof {
                assert(strs_view(out@) =~= strs_view(before).push(l@[i as int]@));
            }
        }
        i = i + 1;
    }
    proof {
        assert(l@.subrange(0, l@.len() as int) =~= l@);
    }
    out
}

fn patterns_match(l: &Vec<String>, id_lc: &String, name_lc: &String, id: &str, name: &str) -> (r:
    bool)
    requires
        id_lc@ == lower(id@),
        name_lc@ == lower(name@),
    ensures
        r == pattern_matches(strs_view(l@), id@, name@),
{
    let mut i: usize = 0;
    while i < l.len()
        invariant
            0 <= i <= l@.len(),
            id_lc@ == lower(id@),
            name_lc@ == lower(name@),
            forall|j: int|
                0 <= j < i ==> !((#[trigger] strs_view(l@)[j]).len() > 0 && (has_infix(
                    lower(id@),
                    lower(strs_view(l@)[j]),
                ) || has_infix(lower(name@), lower(strs_view(l@)[j])))),
        decreases l@.len() - i,
    {
        assert(strs_view(l@)[i as int] == l@[i as int]@);
        if l[i].as_str().unicode_len() > 0 {
            let pat = lower_text(l[i].as_str());
            if contains_text(id_lc.as_str(), pat.as_str()) || contains_text(
                name_lc.as_str(),
                pat.as_str(),
            ) {
                return true;
            }
        }
        i = i + 1;
    }
    false
}

impl HassUiConfig {
    /// The document of a new install.
    pub fn default() -> (r: Self)
        ensures
            r.wf(),
            r@ == default_config(),
    {
        let mut cfg = HassUiConfig {
            hidden_entity_ids: Vec::new(),
            exclude_entity_ids: Vec::new(),
            exclude_name_patterns: Vec::new(),
            include_unavailable: Self::default_include_unavailable(),
            rooms: Vec::new(),
            entity_preferences: Vec::new(),
            ignored_area_names: Vec::new(),
            default_add_new_devices_to_hue: Self::default_add_new(),
            sync_hass_areas_to_rooms: Self::default_sync_areas(),
            fake_cloud_mode: Self::default_fake_cloud_mode(),
            fake_cloud_custom: HassFakeCloudState::default(),
            hass_timezone: None,
            hass_lat: None,
            hass_long: None,
        };
        proof {
            assert(strs_view(cfg.hidden_entity_ids@) =~= Seq::empty());
            assert(strs_view(cfg.exclude_entity_ids@) =~= Seq::empty());
            assert(strs_view(cfg.exclude_name_patterns@) =~= Seq::empty());
            assert(strs_view(cfg.ignored_area_names@) =~= Seq::empty());
            assert(rooms_view(cfg.rooms@) =~= Seq::empty());
            assert(entries_view(cfg.entity_preferences@) =~= Seq::empty());
            assert(!has_room(Seq::empty(), default_room_id()));
            assert(seq![default_room()] + Seq::<RoomView>::empty() =~= seq![default_room()]);
        }
        cfg.ensure_default_room();
        cfg
    }

    /// Whether the entity is hidden by its preference or listed as hidden or
    /// excluded (ASCII case ignored).
    pub fn is_manually_hidden(&self, entity_id: &str) -> (r: bool)
        requires
            self.wf(),
        ensures
            r == manually_hidden(self@, entity_id@),
    {
        let key = String::from_str(entity_id);
        match find_entry(&self.entity_preferences, &key) {
            Some(i) => {
                proof {
                    lemma_map_of_at(entries_view(self.entity_preferences@), i as int);
                }
                if self.entity_preferences[i].1.visible == Some(false) {
                    return true;
                }
            },
            None => {},
        }
        list_has_ignore_case(&self.hidden_entity_ids, entity_id) || list_has_ignore_case(
            &self.exclude_entity_ids,
            entity_id,
        )
    }

    /// The preference of an entity, if it has one.
    fn preference(&self, entity_id: &str) -> (r: Option<&HassEntityPreference>)
        requires
            self.wf(),
        ensures
            match r {
                Some(p) => self@.entity_preferences.contains_key(entity_id@)
                    && self@.entity_preferences[entity_id@] == p@,
                None => !self@.entity_preferences.contains_key(entity_id@),
            },
    {
        let key = String::from_str(entity_id);
        match find_entry(&self.entity_preferences, &key) {
            Some(i) => {
                proof {
                    lemma_map_of_at(entries_view(self.entity_preferences@), i as int);
                }
                Some(&self.entity_preferences[i].1)
            },
            None => None,
        }
    }

    /// Marks the entity hidden or visible, drops it from the hidden and
    /// excluded lists, and lists it as hidden when it is.
    pub fn set_entity_hidden(&mut self, entity_id: &str, hidden: bool)
        requires
            old(self).wf(),
        ensures
            final(self).wf(),
            final(self)@ == normalized(
                UiConfigView {
                    hidden_entity_ids: if hidden {
                        without_text(old(self)@.hidden_entity_ids, entity_id@).push(entity_id@)
                    } else {
                        without_text(old(self)@.hidden_entity_ids, entity_id@)
                    },
                    exclude_entity_ids: without_text(old(self)@.exclude_entity_ids, entity_id@),
                    ..with_pref(
                        old(self)@,
                        entity_id@,
                        PrefView {
                            visible: Some(!hidden),
                            ..base_pref(old(self)@.entity_preferences, entity_id@)
                        },
                    )
                },
            ),
    {
        let key = String::from_str(entity_id);
        let ghost m0 = self@.entity_preferences;
        let i = entry_or_default(&mut self.entity_preferences, &key);
        let ghost s1 = entries_view(self.entity_preferences@);
        self.entity_preferences[i].1.visible = Some(!hidden);
        proof {
            let p = PrefView { visible: Some(!hidden), ..base_pref(m0, entity_id@) };
            assert(entries_view(self.entity_preferences@) =~= s1.update(i as int, (s1[i as int].0, p)));
            lemma_map_of_update(s1, i as int, p);
            assert(self@.entity_preferences =~= m0.insert(entity_id@, p));
        }
        self.hidden_entity_ids = remove_text(&self.hidden_entity_ids, entity_id);
        self.exclude_entity_ids = remove_text(&self.exclude_entity_ids, entity_id);
        if hidden {
            self.hidden_entity_ids.push(key);
            proof {
                assert(strs_view(self.hidden_entity_ids@) =~= without_text(
                    strs_view(old(self).hidden_entity_ids@),
                    entity_id@,
                ).push(entity_id@));
            }
        }
        self.normalize();
    }

    /// Assigns the entity to a room, or clears its room.
    pub fn set_entity_room(&mut self, entity_id: &str, room_id: Option<String>)
        requires
            old(self).wf(),
        ensures
            final(self).wf(),
            final(self)@ == normalized(
                with_pref(
                    old(self)@,
                    entity_id@,
                    PrefView {
                        room_id: opt_view(room_id),
                        ..base_pref(old(self)@.entity_preferences, entity_id@)
                    },
                ),
            ),
    {
        let key = String::from_str(entity_id);
        let ghost m0 = self@.entity_preferences;
        let ghost rv = opt_view(room_id);
        let i = entry_or_default(&mut self.entity_preferences, &key);
        let ghost s1 = entries_view(self.entity_preferences@);
        self.entity_preferences[i].1.room_id = room_id;
        proof {
            let p = PrefView { room_id: rv, ..base_pref(m0, entity_id@) };
            assert(entries_view(self.entity_preferences@) =~= s1.update(i as int, (s1[i as int].0, p)));
            lemma_map_of_update(s1, i as int, p);
            assert(self@.entity_preferences =~= m0.insert(entity_id@, p));
        }
        self.normalize();
    }

    /// Sets the entity's alias, trimmed; a blank one clears it.
    pub fn set_entity_alias(&mut self, entity_id: &str, alias: Option<String>)
        requires
            old(self).wf(),
        ensures
            final(self).wf(),
            final(self)@ == normalized(
                with_pref(
                    old(self)@,
                    entity_id@,
                    PrefView {
                        alias: clean_opt(opt_view(alias)),
                        ..base_pref(old(self)@.entity_preferences, entity_id@)
                    },
                ),
            ),
    {
        let key = String::from_str(entity_id);
        let ghost m0 = self@.entity_preferences;
        let cleaned = clean_option(&alias);
        let ghost av = opt_view(cleaned);
        let i = entry_or_default(&mut self.entity_preferences, &key);
        let ghost s1 = entries_view(self.entity_preferences@);
        self.entity_preferences[i].1.alias = cleaned;
        proof {
            let p = PrefView { alias: av, ..base_pref(m0, entity_id@) };
            assert(entries_view(self.entity_preferences@) =~= s1.update(i as int, (s1[i as int].0, p)));
            lemma_map_of_update(s1, i as int, p);
            assert(self@.entity_preferences =~= m0.insert(entity_id@, p));
        }
        self.normalize();
    }

    /// Sets or clears the sensor kind chosen for the entity.
    pub fn set_entity_sensor_kind(&mut self, entity_id: &str, sensor_kind: Option<HassSensorKind>)
        requires
            old(self).wf(),
        ensures
            final(self).wf(),
            final(self)@ == normalized(
                with_pref(
                    old(self)@,
                    entity_id@,
                    PrefView { sensor_kind, ..base_pref(old(self)@.entity_preferences, entity_id@) },
                ),
            ),
    {
        let key = String::from_str(entity_id);
        let ghost m0 = self@.entity_preferences;
        let i = entry_or_default(&mut self.entity_preferences, &key);
        let ghost s1 = entries_view(self.entity_preferences@);
        self.entity_preferences[i].1.sensor_kind = sensor_kind;
        proof {
            let p = PrefView { sensor_kind, ..base_pref(m0, entity_id@) };
            assert(entries_view(self.entity_preferences@) =~= s1.update(i as int, (s1[i as int].0, p)));
            lemma_map_of_update(s1, i as int, p);
            assert(self@.entity_preferences =~= m0.insert(entity_id@, p));
        }
        self.normalize();
    }

    /// Enables or disables the entity's sensor.
    pub fn set_entity_sensor_enabled(&mut self, entity_id: &str, enabled: bool)
        requires
            old(self).wf(),
        ensures
            final(self).wf(),
            final(self)@ == normalized(
                with_pref(
                    old(self)@,
                    entity_id@,
                    PrefView {
                        sensor_enabled: Some(enabled),
                        ..base_pref(old(self)@.entity_preferences, entity_id@)
                    },
                ),
            ),
    {
        let key = String::from_str(entity_id);
        let ghost m0 = self@.entity_preferences;
        let i = entry_or_default(&mut self.entity_preferences, &key);
        let ghost s1 = entries_view(self.entity_preferences@);
        self.entity_preferences[i].1.sensor_enabled = Some(enabled);
        proof {
            let p = PrefView { sensor_enabled: Some(enabled), ..base_pref(m0, entity_id@) };
            assert(entries_view(self.entity_preferences@) =~= s1.update(i as int, (s1[i as int].0, p)));
            lemma_map_of_update(s1, i as int, p);
            assert(self@.entity_preferences =~= m0.insert(entity_id@, p));
        }
        self.normalize();
    }

    /// Sets or clears how a switch entity is presented.
    pub fn set_entity_switch_mode(&mut self, entity_id: &str, switch_mode: Option<HassSwitchMode>)
        requires
            old(self).wf(),
        ensures
            final(self).wf(),
            final(self)@ == normalized(
                with_pref(
                    old(self)@,
                    entity_id@,
                    PrefView { switch_mode, ..base_pref(old(self)@.entity_preferences, entity_id@) },
                ),
            ),
    {
        let key = String::from_str(entity_id);
        let ghost m0 = self@.entity_preferences;
        let i = entry_or_default(&mut self.entity_preferences, &key);
        let ghost s1 = entries_view(self.entity_preferences@);
        self.entity_preferences[i].1.switch_mode = switch_mode;
        proof {
            let p = PrefView { switch_mode, ..base_pref(m0, entity_id@) };
            assert(entries_view(self.entity_preferences@) =~= s1.update(i as int, (s1[i as int].0, p)));
            lemma_map_of_update(s1, i as int, p);
            assert(self@.entity_preferences =~= m0.insert(entity_id@, p));
        }
        self.normalize();
    }

    /// Sets or clears the light archetype shown for the entity.
    pub fn set_entity_light_archetype(
        &mut self,
        entity_id: &str,
        light_archetype: Option<HassLightArchetype>,
    )
        requires
            old(self).wf(),
        ensures
            final(self).wf(),
            final(self)@ == normalized(
                with_pref(
                    old(self)@,
                    entity_id@,
                    PrefView {
                        light_archetype,
                        ..base_pref(old(self)@.entity_preferences, entity_id@)
                    },
                ),
            ),
    {
        let key = String::from_str(entity_id);
        let ghost m0 = self@.entity_preferences;
        let i = entry_or_default(&mut self.entity_preferences, &key);
        let ghost s1 = entries_view(self.entity_preferences@);
        self.entity_preferences[i].1.light_archetype = light_archetype;
        proof {
            let p = PrefView { light_archetype, ..base_pref(m0, entity_id@) };
            assert(entries_view(self.entity_preferences@) =~= s1.update(i as int, (s1[i as int].0, p)));
            lemma_map_of_update(s1, i as int, p);
            assert(self@.entity_preferences =~= m0.insert(entity_id@, p));
        }
        self.normalize();
    }

    /// The room the entity's preference names, if any.
    pub fn entity_room_preference(&self, entity_id: &str) -> (r: Option<String>)
        requires
            self.wf(),
        ensures
            opt_view(r) == base_pref(self@.entity_preferences, entity_id@).room_id,
    {
        match self.preference(entity_id) {
            Some(p) => clone_opt_text(&p.room_id),
            None => None,
        }
    }

    /// The entity's alias, if it has one.
    pub fn entity_alias(&self, entity_id: &str) -> (r: Option<String>)
        requires
            self.wf(),
        ensures
            opt_view(r) == base_pref(self@.entity_preferences, entity_id@).alias,
    {
        match self.preference(entity_id) {
            Some(p) => clone_opt_text(&p.alias),
            None => None,
        }
    }

    /// The sensor kind chosen for the entity, else the detected one.
    pub fn sensor_kind(&self, entity_id: &str, detected: HassSensorKind) -> (r: HassSensorKind)
        requires
            self.wf(),
        ensures
            r == match base_pref(self@.entity_preferences, entity_id@).sensor_kind {
                Some(k) => k,
                None => detected,
            },
    {
        match self.preference(entity_id) {
            Some(p) => match p.sensor_kind {
                Some(k) => k,
                None => detected,
            },
            None => detected,
        }
    }

    /// Whether the entity's sensor is enabled; it is unless disabled.
    pub fn sensor_enabled(&self, entity_id: &str) -> (r: bool)
        requires
            self.wf(),
        ensures
            r == match base_pref(self@.entity_preferences, entity_id@).sensor_enabled {
                Some(b) => b,
                None => true,
            },
    {
        match self.preference(entity_id) {
            Some(p) => match p.sensor_enabled {
                Some(b) => b,
                None => true,
            },
            None => true,
        }
    }

    /// How a switch entity is presented; a plug unless chosen otherwise.
    pub fn switch_mode(&self, entity_id: &str) -> (r: HassSwitchMode)
        requires
            self.wf(),
        ensures
            r == match base_pref(self@.entity_preferences, entity_id@).switch_mode {
                Some(m) => m,
                None => HassSwitchMode::Plug,
            },
    {
        match self.preference(entity_id) {
            Some(p) => match p.switch_mode {
                Some(m) => m,
                None => HassSwitchMode::Plug,
            },
            None => HassSwitchMode::Plug,
        }
    }

    /// The light archetype shown for the entity; a classic bulb unless chosen
    /// otherwise.
    pub fn light_archetype(&self, entity_id: &str) -> (r: HassLightArchetype)
        requires
            self.wf(),
        ensures
            r == match base_pref(self@.entity_preferences, entity_id@).light_archetype {
                Some(a) => a,
                None => HassLightArchetype::ClassicBulb,
            },
    {
        match self.preference(entity_id) {
            Some(p) => match p.light_archetype {
                Some(a) => a,
                None => HassLightArchetype::ClassicBulb,
            },
            None => HassLightArchetype::ClassicBulb,
        }
    }

    /// The id of the first room made for the area (ASCII case ignored).
    pub fn room_for_area(&self, area_name: &str) -> (r: Option<String>)
        ensures
            opt_view(r) == area_room(self@.rooms, area_name@),
    {
        let ghost rv = self@.rooms;
        assert(rv.subrange(0, rv.len() as int) =~= rv);
        let mut i: usize = 0;
        while i < self.rooms.len()
            invariant
                0 <= i <= self.rooms@.len(),
                rv == rooms_view(self.rooms@),
                area_room(rv, area_name@) == area_room(rv.subrange(i as int, rv.len() as int), area_name@),
            decreases self.rooms@.len() - i,
        {
            let ghost rest = rv.subrange(i as int, rv.len() as int);
            assert(rest[0] == self.rooms@[i as int]@);
            assert(rest.drop_first() =~= rv.subrange(i + 1, rv.len() as int));
            match &self.rooms[i].source_area {
                Some(src) => {
                    if text_eq_ignore_case(src.as_str(), area_name) {
                        return Some(self.rooms[i].id.clone());
                    }
                },
                None => {},
            }
            i = i + 1;
        }
        None
    }

    /// The name of the room with this id, or the id itself.
    pub fn room_name(&self, room_id: &str) -> (r: String)
        ensures
            r@ == name_of_room(self@.rooms, room_id@),
    {
        let ghost rv = self@.rooms;
        let key = String::from_str(room_id);
        assert(rv.subrange(0, rv.len() as int) =~= rv);
        let mut i: usize = 0;
        while i < self.rooms.len()
            invariant
                0 <= i <= self.rooms@.len(),
                rv == rooms_view(self.rooms@),
                key@ == room_id@,
                name_of_room(rv, room_id@) == name_of_room(rv.subrange(i as int, rv.len() as int), room_id@),
            decreases self.rooms@.len() - i,
        {
            let ghost rest = rv.subrange(i as int, rv.len() as int);
            assert(rest[0] == self.rooms@[i as int]@);
            assert(rest.drop_first() =~= rv.subrange(i + 1, rv.len() as int));
            if self.rooms[i].id == key {
                return self.rooms[i].name.clone();
            }
            i = i + 1;
        }
        key
    }

    /// Records where Home Assistant is, as it reported it.
    pub fn set_hass_location(
        &mut self,
        timezone: Option<String>,
        lat: Option<String>,
        long: Option<String>,
    )
        requires
            old(self).wf(),
        ensures
            final(self).wf(),
            final(self)@ == normalized(
                UiConfigView {
                    hass_timezone: opt_view(timezone),
                    hass_lat: opt_view(lat),
                    hass_long: opt_view(long),
                    ..old(self)@
                },
            ),
    {
        self.hass_timezone = timezone;
        self.hass_lat = lat;
        self.hass_long = long;
        self.normalize();
    }

    /// The portal status to report, by fake-cloud mode.
    pub fn effective_fake_cloud(&self) -> (r: HassFakeCloudState)
        ensures
            r == fake_cloud_of(self.fake_cloud_mode, self.fake_cloud_custom),
    {
        match self.fake_cloud_mode {
            HassFakeCloudMode::Off => HassFakeCloudState::default(),
            HassFakeCloudMode::Connected => HassFakeCloudState {
                internet: true,
                signedon: true,
                incoming: true,
                outgoing: true,
                communication: HassPortalCommunication::Connected,
                connectionstate: HassPortalConnectionState::Connected,
                legacy: false,
                trusted: true,
                action: HassPortalAction::NoAction,
            },
            HassFakeCloudMode::Outage => HassFakeCloudState {
                internet: false,
                signedon: true,
                incoming: false,
                outgoing: false,
                communication: HassPortalCommunication::Disconnected,
                connectionstate: HassPortalConnectionState::Disconnected,
                legacy: false,
                trusted: true,
                action: HassPortalAction::NoAction,
            },
            HassFakeCloudMode::Custom => self.fake_cloud_custom,
        }
    }

    /// Whether the entity goes to Hue (see `included`).
    pub fn should_include(&self, entity_id: &str, display_name: &str, available: bool) -> (r: bool)
        requires
            self.wf(),
        ensures
            r == included(self@, entity_id@, display_name@, available),
    {
        if !self.include_unavailable && !available {
            return false;
        }
        let entity_id_lc = lower_text(entity_id);
        let name_lc = lower_text(display_name);
        match self.preference(entity_id) {
            Some(p) => match p.visible {
                Some(v) => {
                    return v;
                },
                None => {},
            },
            None => {},
        }
        if self.is_manually_hidden(entity_id) {
            return false;
        }
        if patterns_match(
            &self.exclude_name_patterns,
            &entity_id_lc,
            &name_lc,
            entity_id,
            display_name,
        ) {
            return false;
        }
        self.default_add_new_devices_to_hue
    }
}

/// An explicit visibility of an entity decides whether it is included,
/// whatever the lists and patterns say, as long as it is available or
/// unavailable entities are included.
pub proof fn lemma_visibility_precedence(
    v: UiConfigView,
    id: Seq<char>,
    name: Seq<char>,
    available: bool,
)
    requires
        v.entity_preferences.contains_key(id),
        v.entity_preferences[id].visible is Some,
        v.include_unavailable || available,
    ensures
        included(v, id, name, available) == v.entity_preferences[id].visible->0,
{
}

} // verus!
