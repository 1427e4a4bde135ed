use bifrost::hass_state::{HassSyncStatus, HassUiState};
use bifrost::hass_ui::{HassEntityPreference, HassUiConfig};
use bifrost::patina::HassPatinaState;

fn state() -> HassUiState {
    HassUiState {
        config: HassUiConfig::default(),
        patina: HassPatinaState::new("2024-01-01T00:00:00Z".to_string()),
        entities: Vec::new(),
        logs: Vec::new(),
        sync: HassSyncStatus {
            last_sync_at: None,
            last_sync_result: None,
            sync_in_progress: false,
            last_sync_duration_ms: None,
        },
    }
}

#[test]
fn add_rename_and_remove_rooms() {
    let mut st = state();
    assert!(st.add_room("   ").is_none());
    let room = st.add_room("  Living Room ").unwrap();
    assert_eq!(room.id, "living-room");
    assert_eq!(room.name, "Living Room");
    let again = st.add_room("living room").unwrap();
    assert_eq!(again.id, "living-room-2");
    let odd = st.add_room("***").unwrap();
    assert_eq!(odd.id, "room");
    assert_eq!(st.config.rooms.len(), 4);

    st.rename_room("living-room", "  Lounge ");
    assert_eq!(st.config.room_name("living-room"), "Lounge");
    st.rename_room("living-room", "   ");
    assert_eq!(st.config.room_name("living-room"), "Lounge");

    st.config.set_entity_room("light.a", Some("living-room".to_string()));
    st.config.set_entity_alias("light.a", Some("Lamp".to_string()));
    st.remove_room("living-room");
    assert!(st.config.rooms.iter().all(|r| r.id != "living-room"));
    assert_eq!(st.config.entity_alias("light.a"), Some("Lamp".to_string()));
    let p: &HassEntityPreference = &st.config.entity_preferences[0].1;
    assert_eq!(p.room_id, None);

    st.remove_room("home-assistant");
    assert_eq!(st.config.rooms[0].id, "home-assistant");
}

#[test]
fn removed_area_room_is_ignored_later() {
    let mut st = state();
    let id = st.config.ensure_room_for_area("Garage");
    st.remove_room(&id);
    assert_eq!(st.config.ignored_area_names, vec!["Garage".to_string()]);
    assert_eq!(st.config.ensure_room_for_area("garage"), "home-assistant");
}

#[test]
fn log_keeps_last_lines() {
    let mut st = state();
    for i in 0..205 {
        st.push_log(format!("line {i}"));
    }
    assert_eq!(st.logs.len(), 200);
    assert_eq!(st.logs[0], "line 5");
    assert_eq!(st.logs[199], "line 204");
}

#[test]
fn sync_status_marks() {
    let mut st = state();
    st.mark_sync_started("t0".to_string());
    assert!(st.sync.sync_in_progress);
    assert_eq!(st.sync.last_sync_result, Some("running".to_string()));
    st.mark_sync_finished("t1".to_string(), Ok(1500));
    assert!(!st.sync.sync_in_progress);
    assert_eq!(st.sync.last_sync_at, Some("t1".to_string()));
    assert_eq!(st.sync.last_sync_duration_ms, Some(1500));
    assert_eq!(st.sync.last_sync_result, Some("ok".to_string()));
    st.mark_sync_finished("t2".to_string(), Err("HTTP 401".to_string()));
    assert_eq!(st.sync.last_sync_result, Some("error: HTTP 401".to_string()));
    assert_eq!(st.sync.last_sync_duration_ms, Some(1500));
}
