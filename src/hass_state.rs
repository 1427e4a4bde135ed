use vstd::prelude::*;
use vstd::string::StrSliceExecFns;
use vstd::string::StringExecFns;

use crate::area_rooms::{first_free, free_room_id};
use crate::hass_import::HassEntityKind;
use crate::hass_ui::{
    default_room_id, entries_view, PrefView, normalized, opt_view, rooms_view, strs_view, HassLightArchetype,
    HassRoomConfig, HassSensorKind, HassSwitchMode, HassUiConfig, RoomView, UiConfigView,
};
use crate::keyed::{keys_unique, map_of};
use crate::patina::HassPatinaState;
use crate::text::{sanitize, sanitized, trim_text, trimmed};

verus! {

/// One Home Assistant entity as the last sync saw it, hidden ones included.
#[derive(Debug)]
pub struct HassEntitySummary {
    pub entity_id: String,
    pub domain: HassEntityKind,
    pub name: String,
    pub state: String,
    pub available: bool,
    pub included: bool,
    pub hidden: bool,
    pub area_name: Option<String>,
    pub room_id: String,
    pub room_name: String,
    pub mapped_type: String,
    pub supports_brightness: bool,
    pub supports_color: bool,
    pub supports_color_temp: bool,
    pub switch_mode: Option<HassSwitchMode>,
    pub sensor_kind: Option<HassSensorKind>,
    pub light_archetype: Option<HassLightArchetype>,
    pub enabled: bool,
}

/// How the last sync went.
#[derive(Debug)]
pub struct HassSyncStatus {
    pub last_sync_at: Option<String>,
    pub last_sync_result: Option<String>,
    pub sync_in_progress: bool,
    pub last_sync_duration_ms: Option<u64>,
}

/// The number of log lines kept.
pub const MAX_LOG_LINES: usize = 200;

/// The state of the Home Assistant integration that the user interface
/// works on: the configuration document, the patina, the entities of the
/// last sync, the log, and the sync status.
#[derive(Debug)]
pub struct HassUiState {
    pub config: HassUiConfig,
    pub patina: HassPatinaState,
    pub entities: Vec<HassEntitySummary>,
    pub logs: Vec<String>,
    pub sync: HassSyncStatus,
}

pub open spec fn room_word() -> Seq<char> {
    seq!['r', 'o', 'o', 'm']
}

/// The id a new room named `name` is made from: the name sanitized, or
/// `room` where that is empty.
pub open spec fn room_base(name: Seq<char>) -> Seq<char> {
    if sanitized(name).len() > 0 {
        sanitized(name)
    } else {
        room_word()
    }
}

/// The rooms without those with this id.
pub open spec fn rooms_without(rs: Seq<RoomView>, id: Seq<char>) -> Seq<RoomView>
    decreases rs.len(),
{
    if rs.len() == 0 {
        Seq::empty()
    } else if rs.last().id == id {
        rooms_without(rs.drop_last(), id)
    } else {
        rooms_without(rs.drop_last(), id).push(rs.last())
    }
}

/// The area of the first room with this id, if it has one.
pub open spec fn area_of_room(rs: Seq<RoomView>, id: Seq<char>) -> Option<Seq<char>>
    decreases rs.len(),
{
    if rs.len() == 0 {
        None
    } else if rs[0].id == id {
        rs[0].source_area
    } else {
        area_of_room(rs.drop_first(), id)
    }
}

/// A preference that named the room `id` names none.
pub open spec fn unroomed(p: PrefView, id: Seq<char>) -> PrefView {
    if p.room_id == Some(id) {
        PrefView { room_id: None, ..p }
    } else {
        p
    }
}

/// The document without the room `id`: its area, if it was made for one,
/// is ignored from now on, and preferences naming it lose their room.
pub open spec fn without_room(v: UiConfigView, id: Seq<char>) -> UiConfigView {
    UiConfigView {
        rooms: rooms_without(v.rooms, id),
        ignored_area_names: match area_of_room(v.rooms, id) {
            Some(a) => v.ignored_area_names.push(a),
            None => v.ignored_area_names,
        },
        entity_preferences: Map::new(
            |k: Seq<char>| v.entity_preferences.contains_key(k),
            |k: Seq<char>| unroomed(v.entity_preferences[k], id),
        ),
        ..v
    }
}

proof fn lemma_map_of_unroomed(s: Seq<(Seq<char>, PrefView)>, id: Seq<char>)
    ensures
        map_of(s.map_values(|e: (Seq<char>, PrefView)| (e.0, unroomed(e.1, id)))) == Map::new(
            |k: Seq<char>| map_of(s).contains_key(k),
            |k: Seq<char>| unroomed(map_of(s)[k], id),
        ),
    decreases s.len(),
{
    let g = |e: (Seq<char>, PrefView)| (e.0, unroomed(e.1, id));
    if s.len() > 0 {
        lemma_map_of_unroomed(s.drop_last(), id);
        assert(s.map_values(g).drop_last() =~= s.drop_last().map_values(g));
    }
    assert(map_of(s.map_values(g)) =~= Map::new(
        |k: Seq<char>| map_of(s).contains_key(k),
        |k: Seq<char>| unroomed(map_of(s)[k], id),
    ));
}

proof fn lemma_without_room_view(v0: UiConfigView, v1: UiConfigView, id: Seq<char>)
    requires
        v1.rooms == rooms_without(v0.rooms, id),
        v1.ignored_area_names == without_room(v0, id).ignored_area_names,
        v1.entity_preferences == Map::new(
            |k: Seq<char>| v0.entity_preferences.contains_key(k),
            |k: Seq<char>| unroomed(v0.entity_preferences[k], id),
        ),
        v1 == (UiConfigView {
            rooms: v1.rooms,
            ignored_area_names: v1.ignored_area_names,
            entity_preferences: v1.entity_preferences,
            ..v0
        }),
    ensures
        v1 == without_room(v0, id),
{
}

proof fn lemma_unroomed_entries(
    e0: Seq<(Seq<char>, PrefView)>,
    e1: Seq<(Seq<char>, PrefView)>,
    id: Seq<char>,
)
    requires
        keys_unique(e0),
        e1 == e0.map_values(|e: (Seq<char>, PrefView)| (e.0, unroomed(e.1, id))),
    ensures
        keys_unique(e1),
        map_of(e1) == Map::new(
            |k: Seq<char>| map_of(e0).contains_key(k),
            |k: Seq<char>| unroomed(map_of(e0)[k], id),
        ),
{
    lemma_map_of_unroomed(e0, id);
    assert forall|a: int, b: int| 0 <= a < b < e1.len() implies #[trigger] e1[a].0 != #[trigger] e1[b].0 by {
        assert(e1[a].0 == e0[a].0 && e1[b].0 == e0[b].0);
    }
}

fn unroom_entries(ps: &mut Vec<(String, crate::hass_ui::HassEntityPreference)>, id: &String)
    ensures
        entries_view(final(ps)@) == entries_view(old(ps)@).map_values(
            |e: (Seq<char>, PrefView)| (e.0, unroomed(e.1, id@)),
        ),
{
    let ghost v0 = entries_view(ps@);
    let mut i: usize = 0;
    while i < ps.len()
        invariant
            0 <= i <= ps@.len(),
            ps@.len() == v0.len(),
            forall|j: int| 0 <= j < i ==> #[trigger] entries_view(ps@)[j] == (v0[j].0, unroomed(v0[j].1, id@)),
            forall|j: int| i <= j < v0.len() ==> #[trigger] entries_view(ps@)[j] == v0[j],
        decreases ps@.len() - i,
    {
        let ghost before = ps@;
        assert(entries_view(before)[i as int] == (before[i as int].0@, before[i as int].1@));
        let clear = match &ps[i].1.room_id {
            Some(r) => *r == *id,
            None => false,
        };
        if clear {
            ps[i].1.room_id = None;
        }
        proof {
            assert forall|j: int| 0 <= j < ps@.len() && j != i implies #[trigger] entries_view(ps@)[j]
                == entries_view(before)[j] by {
                assert(ps@[j] == before[j]);
            }
            assert(entries_view(ps@)[i as int] == (ps@[i as int].0@, ps@[i as int].1@));
        }
        i = i + 1;
    }
    proof {
        assert(entries_view(ps@) =~= v0.map_values(|e: (Seq<char>, PrefView)| (e.0, unroomed(e.1, id@))));
    }
}

fn remove_rooms_with_id(rooms: &Vec<HassRoomConfig>, id: &String) -> (r: (Vec<HassRoomConfig>, Option<String>))
    ensures
        rooms_view(r.0@) == rooms_without(rooms_view(rooms@), id@),
        opt_view(r.1) == area_of_room(rooms_view(rooms@), id@),
{
    let ghost rv = rooms_view(rooms@);
    let mut out: Vec<HassRoomConfig> = Vec::new();
    let mut area: Option<String> = None;
    let mut found = false;
    let mut i: usize = 0;
    assert(rv.subrange(0, rv.len() as int) =~= rv);
    while i < rooms.len()
        invariant
            0 <= i <= rooms@.len(),
            rv == rooms_view(rooms@),
            rooms_view(out@) == rooms_without(rv.subrange(0, i as int), id@),
            found ==> opt_view(area) == area_of_room(rv, id@),
            !found ==> area is None,
            !found ==> area_of_room(rv, id@) == area_of_room(rv.subrange(i as int, rv.len() as int), id@),
        decreases rooms@.len() - i,
    {
        let room = &rooms[i];
        proof {
            let s = rv.subrange(0, i + 1);
            assert(s.drop_last() =~= rv.subrange(0, i as int));
            assert(s.last() == room@);
            let rest = rv.subrange(i as int, rv.len() as int);
            assert(rest[0] == room@);
            assert(rest.drop_first() =~= rv.subrange(i + 1, rv.len() as int));
        }
        if room.id == *id {
            if !found {
                proof {
                    let rest = rv.subrange(i as int, rv.len() as int);
                    assert(area_of_room(rest, id@) == rest[0].source_area);
                }
                area = match &room.source_area {
                    Some(a) => Some(a.clone()),
                    None => None,
                };
                found = true;
            }
        } else {
            let ghost before = out@;
            out.push(
                HassRoomConfig {
                    id: room.id.clone(),
                    name: room.name.clone(),
                    source_area: match &room.source_area {
                        Some(a) => Some(a.clone()),
                        None => None,
                    },
                    auto_created: room.auto_created,
                },
            );
            proof {
                assert(rooms_view(out@) =~= rooms_view(before).push(room@));
                let rest = rv.subrange(i as int, rv.len() as int);
                assert(rest[0].id != id@);
                assert(area_of_room(rest, id@) == area_of_room(rest.drop_first(), id@));
            }
        }
        i = i + 1;
    }
    proof {
        assert(rv.subrange(0, rv.len() as int) =~= rv);
        if !found {
            assert(rv.subrange(rv.len() as int, rv.len() as int) =~= Seq::<RoomView>::empty());
        }
    }
    (out, area)
}

/// The room with the given name if it has this id.
pub open spec fn renamed(r: RoomView, id: Seq<char>, name: Seq<char>) -> RoomView {
    if r.id == id {
        RoomView { name, ..r }
    } else {
        r
    }
}

fn rename_in(rooms: &mut Vec<HassRoomConfig>, id: &String, name: &String)
    ensures
        rooms_view(final(rooms)@) == rooms_view(old(rooms)@).map_values(
            |r: RoomView| renamed(r, id@, name@),
        ),
{
    let ghost v0 = rooms_view(rooms@);
    let mut i: usize = 0;
    while i < rooms.len()
        invariant
            0 <= i <= rooms@.len(),
            rooms@.len() == v0.len(),
            forall|j: int| 0 <= j < i ==> #[trigger] rooms_view(rooms@)[j] == renamed(v0[j], id@, name@),
            forall|j: int| i <= j < v0.len() ==> #[trigger] rooms_view(rooms@)[j] == v0[j],
        decreases rooms@.len() - i,
    {
        let ghost before = rooms@;
        assert(rooms_view(before)[i as int] == before[i as int]@);
        if rooms[i].id == *id {
            rooms[i].name = name.clone();
        }
        proof {
            assert forall|j: int| 0 <= j < rooms@.len() && j != i implies #[trigger] rooms_view(rooms@)[j]
                == rooms_view(before)[j] by {
                assert(rooms@[j] == before[j]);
            }
            assert(rooms_view(rooms@)[i as int] == rooms@[i as int]@);
        }
        i = i + 1;
    }
    proof {
        assert(rooms_view(rooms@) =~= v0.map_values(|r: RoomView| renamed(r, id@, name@)));
    }
}

impl HassUiState {
    pub open spec fn wf(&self) -> bool {
        self.config.wf() && self.patina.wf()
    }

    /// Appends a log line; only the last `MAX_LOG_LINES` are kept.
    pub fn push_log(&mut self, line: String)
        ensures
            strs_view(final(self).logs@) == if old(self).logs@.len() + 1 > MAX_LOG_LINES {
                strs_view(old(self).logs@).push(line@).subrange(
                    old(self).logs@.len() + 1 - MAX_LOG_LINES,
                    old(self).logs@.len() + 1int,
                )
            } else {
                strs_view(old(self).logs@).push(line@)
            },
            final(self).config == old(self).config,
    {
        let ghost before = strs_view(self.logs@).push(line@);
        self.logs.push(line);
        proof {
            assert(strs_view(self.logs@) =~= before);
        }
        if self.logs.len() > MAX_LOG_LINES {
            let at = self.logs.len() - MAX_LOG_LINES;
            let ghost all = self.logs@;
            let tail = self.logs.split_off(at);
            self.logs = tail;
            proof {
                assert(strs_view(self.logs@) =~= before.subrange(at as int, all.len() as int));
            }
        }
    }

    /// Adds a room named after the trimmed name, under the first free id
    /// made from it; a blank name adds nothing. The room added is returned.
    pub fn add_room(&mut self, room_name: &str) -> (r: Option<HassRoomConfig>)
        requires
            old(self).wf(),
            old(self).config@.rooms.len() < usize::MAX,
        ensures
            final(self).wf(),
            trimmed(room_name@).len() == 0 ==> r is None && final(self).config@ == old(self).config@,
            trimmed(room_name@).len() > 0 ==> r is Some && first_free(
                old(self).config@.rooms,
                room_base(trimmed(room_name@)),
                r->0.id@,
            ) && r->0@ == (RoomView {
                id: r->0.id@,
                name: trimmed(room_name@),
                source_area: None,
                auto_created: false,
            }) && final(self).config@ == normalized(
                UiConfigView { rooms: old(self).config@.rooms.push(r->0@), ..old(self).config@ },
            ),
    {
        let name = trim_text(room_name);
        if name.as_str().unicode_len() == 0 {
            return None;
        }
        let mut base = sanitize(name.as_str());
        if base.as_str().unicode_len() == 0 {
            base = String::from_str("room");
            proof {
                reveal_strlit("room");
                assert(base@ =~= room_word());
            }
        }
        let id = free_room_id(&self.config.rooms, &base);
        let room = HassRoomConfig { id: id.clone(), name: name.clone(), source_area: None, auto_created: false };
        let copy = HassRoomConfig { id, name, source_area: None, auto_created: false };
        let ghost before = self.config.rooms@;
        let ghost v0 = self.config@;
        self.config.rooms.push(room);
        proof {
            assert(rooms_view(self.config.rooms@) =~= rooms_view(before).push(copy@));
        }
        self.config.normalize();
        Some(copy)
    }

    /// Renames a room to the trimmed name; a blank name changes nothing.
    pub fn rename_room(&mut self, room_id: &str, name: &str)
        requires
            old(self).wf(),
        ensures
            final(self).wf(),
            trimmed(name@).len() == 0 ==> final(self).config@ == old(self).config@,
            trimmed(name@).len() > 0 ==> final(self).config@ == normalized(
                UiConfigView {
                    rooms: old(self).config@.rooms.map_values(
                        |r: RoomView| renamed(r, room_id@, trimmed(name@)),
                    ),
                    ..old(self).config@
                },
            ),
    {
        let trimmed_name = trim_text(name);
        if trimmed_name.as_str().unicode_len() == 0 {
            return;
        }
        let key = String::from_str(room_id);
        let ghost v0 = self.config@;
        rename_in(&mut self.config.rooms, &key, &trimmed_name);
        proof {
            assert(self.config@ =~= (UiConfigView {
                rooms: v0.rooms.map_values(|r: RoomView| renamed(r, room_id@, trimmed(name@))),
                ..v0
            }));
        }
        self.config.normalize();
    }

    /// Removes a room; the default room stays. Its area, if it was made for
    /// one, is ignored from now on, and preferences naming it lose their room.
    #[verifier::spinoff_prover]
    #[verifier::rlimit(30)]
    pub fn remove_room(&mut self, room_id: &str)
        requires
            old(self).wf(),
        ensures
            final(self).wf(),
            room_id@ == default_room_id() ==> final(self).config@ == old(self).config@,
            room_id@ != default_room_id() ==> final(self).config@ == normalized(
                without_room(old(self).config@, room_id@),
            ),
    {
        let key = String::from_str(room_id);
        let default_id = HassUiConfig::default_room_id();
        if key == default_id {
            return;
        }
        let ghost v0 = self.config@;
        let (rooms, area) = remove_rooms_with_id(&self.config.rooms, &key);
        self.config.rooms = rooms;
        let ghost ig0 = self.config.ignored_area_names@;
        match area {
            Some(a) => {
                let ghost av = a@;
                self.config.ignored_area_names.push(a);
                proof {
                    assert(strs_view(self.config.ignored_area_names@) =~= strs_view(ig0).push(av));
                }
            },
            None => {},
        }
        let ghost ig1 = strs_view(self.config.ignored_area_names@);
        assert(ig1 == without_room(v0, room_id@).ignored_area_names);
        let ghost e0 = entries_view(self.config.entity_preferences@);
        unroom_entries(&mut self.config.entity_preferences, &key);
        proof {
            lemma_unroomed_entries(e0, entries_view(self.config.entity_preferences@), room_id@);
            lemma_without_room_view(v0, self.config@, room_id@);
        }
        self.config.normalize();
    }

    /// Marks a sync as running since `now`.
    pub fn mark_sync_started(&mut self, now: String)
        ensures
            final(self).sync.sync_in_progress,
            opt_view(final(self).sync.last_sync_at) == Some(now@),
            opt_view(final(self).sync.last_sync_result) == Some(seq!['r', 'u', 'n', 'n', 'i', 'n', 'g']),
            final(self).sync.last_sync_duration_ms == old(self).sync.last_sync_duration_ms,
            final(self).config == old(self).config,
    {
        self.sync.sync_in_progress = true;
        let running = String::from_str("running");
        proof {
            reveal_strlit("running");
            assert(running@ =~= seq!['r', 'u', 'n', 'n', 'i', 'n', 'g']);
        }
        self.sync.last_sync_result = Some(running);
        self.sync.last_sync_at = Some(now);
    }

    /// Marks the sync as done at `now`, with its duration or its error.
    pub fn mark_sync_finished(&mut self, now: String, result: Result<u64, String>)
        ensures
            !final(self).sync.sync_in_progress,
            opt_view(final(self).sync.last_sync_at) == Some(now@),
            match result {
                Ok(ms) => final(self).sync.last_sync_duration_ms == Some(ms) && opt_view(
                    final(self).sync.last_sync_result,
                ) == Some(seq!['o', 'k']),
                Err(e) => final(self).sync.last_sync_duration_ms == old(
                    self,
                ).sync.last_sync_duration_ms && opt_view(final(self).sync.last_sync_result)
                    == Some(seq!['e', 'r', 'r', 'o', 'r', ':', ' '] + e@),
            },
            final(self).config == old(self).config,
    {
        self.sync.sync_in_progress = false;
        self.sync.last_sync_at = Some(now);
        match result {
            Ok(ms) => {
                self.sync.last_sync_duration_ms = Some(ms);
                let ok = String::from_str("ok");
                proof {
                    reveal_strlit("ok");
                    assert(ok@ =~= seq!['o', 'k']);
                }
                self.sync.last_sync_result = Some(ok);
            },
            Err(e) => {
                let mut text = String::from_str("error: ");
                text.append(e.as_str());
                proof {
                    reveal_strlit("error: ");
                    assert(text@ =~= seq!['e', 'r', 'r', 'o', 'r', ':', ' '] + e@);
                }
                self.sync.last_sync_result = Some(text);
            },
        }
    }
}

} // verus!
