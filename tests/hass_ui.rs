use bifrost::hass_ui::{
    HassEntityPreference, HassFakeCloudMode, HassLightArchetype, HassPortalCommunication,
    HassRoomConfig, HassSensorKind, HassSwitchMode, HassUiConfig,
};

fn room(id: &str, name: &str, area: Option<&str>) -> HassRoomConfig {
    HassRoomConfig {
        id: id.to_string(),
        name: name.to_string(),
        source_area: area.map(|a| a.to_string()),
        auto_created: false,
    }
}

fn pref_visible(v: Option<bool>) -> HassEntityPreference {
    HassEntityPreference {
        visible: v,
        room_id: None,
        alias: None,
        sensor_kind: None,
        sensor_enabled: None,
        switch_mode: None,
        light_archetype: None,
    }
}

fn room_ids(cfg: &HassUiConfig) -> Vec<String> {
    cfg.rooms.iter().map(|r| r.id.clone()).collect()
}

#[test]
fn default_config_has_default_room() {
    let cfg = HassUiConfig::default();
    assert_eq!(room_ids(&cfg), vec!["home-assistant".to_string()]);
    assert_eq!(cfg.rooms[0].name, "Home Assistant");
    assert!(cfg.include_unavailable);
    assert!(!cfg.default_add_new_devices_to_hue);
    assert!(cfg.sync_hass_areas_to_rooms);
    assert_eq!(cfg.fake_cloud_mode, HassFakeCloudMode::Off);
}

#[test]
fn sanitize_ids() {
    assert_eq!(HassUiConfig::sanitize_id("  Living Room "), "living-room");
    assert_eq!(HassUiConfig::sanitize_id("--Kid's__Room--"), "kids-room");
    assert_eq!(HassUiConfig::sanitize_id("Café 2"), "caf-2");
    assert_eq!(HassUiConfig::sanitize_id("***"), "");
    assert_eq!(HassUiConfig::sanitize_id("a - b"), "a-b");
}

#[test]
fn normalize_cleans_and_is_idempotent() {
    let mut cfg = HassUiConfig::default();
    cfg.rooms = vec![
        room(" Kitchen ", " Kitchen ", Some("  ")),
        room("", "Living Room", Some(" Living ")),
        room("kitchen", "Dup", None),
        room("!!", "??", None),
    ];
    cfg.hidden_entity_ids = vec!["  light.a ".to_string(), "".to_string()];
    cfg.exclude_name_patterns = vec![" ".to_string(), " lamp".to_string()];
    cfg.hass_timezone = Some("  ".to_string());
    cfg.entity_preferences = vec![
        ("light.b".to_string(), pref_visible(None)),
        ("  ".to_string(), pref_visible(Some(true))),
    ];
    cfg.normalize();
    assert_eq!(
        room_ids(&cfg),
        vec!["home-assistant".to_string(), "kitchen".to_string(), "living-room".to_string()]
    );
    assert_eq!(cfg.rooms[1].name, "Kitchen");
    assert_eq!(cfg.rooms[1].source_area, None);
    assert_eq!(cfg.rooms[2].source_area, Some("Living".to_string()));
    assert_eq!(cfg.hidden_entity_ids, vec!["light.a".to_string()]);
    assert_eq!(cfg.exclude_name_patterns, vec!["lamp".to_string()]);
    assert_eq!(cfg.hass_timezone, None);
    assert_eq!(cfg.entity_preferences.len(), 1);
    assert_eq!(cfg.entity_preferences[0].0, "light.a");
    assert_eq!(cfg.entity_preferences[0].1.visible, Some(false));

    let rooms_once = room_ids(&cfg);
    let hidden_once = cfg.hidden_entity_ids.clone();
    let prefs_once: Vec<(String, Option<bool>)> =
        cfg.entity_preferences.iter().map(|(k, p)| (k.clone(), p.visible)).collect();
    cfg.normalize();
    assert_eq!(room_ids(&cfg), rooms_once);
    assert_eq!(cfg.hidden_entity_ids, hidden_once);
    let prefs_twice: Vec<(String, Option<bool>)> =
        cfg.entity_preferences.iter().map(|(k, p)| (k.clone(), p.visible)).collect();
    assert_eq!(prefs_twice, prefs_once);
}

#[test]
fn normalize_drops_unknown_room_of_preference() {
    let mut cfg = HassUiConfig::default();
    cfg.set_entity_room("light.a", Some("nowhere".to_string()));
    assert!(cfg.entity_preferences.is_empty());
    cfg.set_entity_room("light.a", Some("home-assistant".to_string()));
    assert_eq!(cfg.entity_preferences[0].1.room_id, Some("home-assistant".to_string()));
}

#[test]
fn visibility_overrides_lists_and_patterns() {
    let mut cfg = HassUiConfig::default();
    cfg.exclude_name_patterns = vec!["Lamp".to_string()];
    cfg.normalize();
    assert!(!cfg.should_include("light.desk", "Desk", true));
    cfg.default_add_new_devices_to_hue = true;
    assert!(cfg.should_include("light.desk", "Desk", true));
    assert!(!cfg.should_include("light.desk", "Desk LAMP", true));
    assert!(!cfg.should_include("light.lamp_1", "Desk", true));

    cfg.set_entity_hidden("light.lamp_1", false);
    assert!(cfg.should_include("light.lamp_1", "Desk", true));
    cfg.set_entity_hidden("light.lamp_1", true);
    assert!(!cfg.should_include("light.lamp_1", "Desk", true));
    assert!(cfg.is_manually_hidden("light.lamp_1"));
    assert_eq!(cfg.hidden_entity_ids, vec!["light.lamp_1".to_string()]);
    cfg.set_entity_hidden("light.lamp_1", false);
    assert!(cfg.hidden_entity_ids.is_empty());
    assert!(cfg.should_include("light.lamp_1", "Desk", true));
}

#[test]
fn unavailable_entities() {
    let mut cfg = HassUiConfig::default();
    cfg.default_add_new_devices_to_hue = true;
    assert!(cfg.should_include("light.a", "A", false));
    cfg.include_unavailable = false;
    assert!(!cfg.should_include("light.a", "A", false));
    cfg.set_entity_hidden("light.a", false);
    assert!(!cfg.should_include("light.a", "A", false));
    assert!(cfg.should_include("light.a", "A", true));
}

#[test]
fn hidden_lists_ignore_case() {
    let mut cfg = HassUiConfig::default();
    cfg.default_add_new_devices_to_hue = true;
    cfg.exclude_entity_ids = vec!["Light.Porch".to_string()];
    assert!(cfg.is_manually_hidden("light.porch"));
    assert!(!cfg.should_include("light.porch", "Porch", true));
    assert!(!cfg.is_manually_hidden("light.other"));
}

#[test]
fn entity_preference_getters() {
    let mut cfg = HassUiConfig::default();
    assert_eq!(cfg.entity_alias("switch.x"), None);
    assert_eq!(cfg.sensor_kind("binary_sensor.x", HassSensorKind::Motion), HassSensorKind::Motion);
    assert!(cfg.sensor_enabled("binary_sensor.x"));
    assert_eq!(cfg.switch_mode("switch.x"), HassSwitchMode::Plug);
    assert_eq!(cfg.light_archetype("light.x"), HassLightArchetype::ClassicBulb);

    cfg.set_entity_alias("switch.x", Some("  Fan  ".to_string()));
    cfg.set_entity_sensor_kind("binary_sensor.x", Some(HassSensorKind::Contact));
    cfg.set_entity_sensor_enabled("binary_sensor.x", false);
    cfg.set_entity_switch_mode("switch.x", Some(HassSwitchMode::Light));
    cfg.set_entity_light_archetype("light.x", Some(HassLightArchetype::HueGo));
    assert_eq!(cfg.entity_alias("switch.x"), Some("Fan".to_string()));
    assert_eq!(cfg.sensor_kind("binary_sensor.x", HassSensorKind::Motion), HassSensorKind::Contact);
    assert!(!cfg.sensor_enabled("binary_sensor.x"));
    assert_eq!(cfg.switch_mode("switch.x"), HassSwitchMode::Light);
    assert_eq!(cfg.light_archetype("light.x"), HassLightArchetype::HueGo);

    cfg.set_entity_alias("switch.x", Some("   ".to_string()));
    assert_eq!(cfg.entity_alias("switch.x"), None);
}

#[test]
fn rooms_by_area_and_name() {
    let mut cfg = HassUiConfig::default();
    cfg.rooms.push(room("kitchen", "Kitchen", Some("Kitchen Area")));
    assert_eq!(cfg.room_for_area("kitchen area"), Some("kitchen".to_string()));
    assert_eq!(cfg.room_for_area("garage"), None);
    assert_eq!(cfg.room_name("kitchen"), "Kitchen");
    assert_eq!(cfg.room_name("unknown"), "unknown");
}

#[test]
fn hass_location_is_trimmed() {
    let mut cfg = HassUiConfig::default();
    cfg.set_hass_location(Some(" Europe/Berlin ".to_string()), Some("".to_string()), None);
    assert_eq!(cfg.hass_timezone, Some("Europe/Berlin".to_string()));
    assert_eq!(cfg.hass_lat, None);
    assert_eq!(cfg.hass_long, None);
}

#[test]
fn fake_cloud_modes() {
    let mut cfg = HassUiConfig::default();
    let off = cfg.effective_fake_cloud();
    assert!(!off.internet && off.trusted);
    assert_eq!(off.communication, HassPortalCommunication::Disconnected);
    cfg.fake_cloud_mode = HassFakeCloudMode::Connected;
    let on = cfg.effective_fake_cloud();
    assert!(on.internet && on.signedon && on.incoming && on.outgoing);
    cfg.fake_cloud_mode = HassFakeCloudMode::Outage;
    let outage = cfg.effective_fake_cloud();
    assert!(!outage.internet && outage.signedon);
    cfg.fake_cloud_mode = HassFakeCloudMode::Custom;
    cfg.fake_cloud_custom.legacy = true;
    assert!(cfg.effective_fake_cloud().legacy);
}

#[test]
fn ensure_room_for_area_creates_and_reuses() {
    let mut cfg = HassUiConfig::default();
    let id = cfg.ensure_room_for_area("Living Room");
    assert_eq!(id, "area-living-room");
    let made = cfg.rooms.iter().find(|r| r.id == id).unwrap();
    assert_eq!(made.name, "Living Room");
    assert_eq!(made.source_area, Some("Living Room".to_string()));
    assert!(made.auto_created);
    assert_eq!(cfg.ensure_room_for_area("living room"), "area-living-room");
    assert_eq!(cfg.rooms.len(), 2);
}

#[test]
fn ensure_room_for_area_disambiguates() {
    let mut cfg = HassUiConfig::default();
    cfg.rooms.push(room("area-den", "Den", None));
    cfg.rooms.push(room("AREA-DEN-2", "Den two", None));
    assert_eq!(cfg.ensure_room_for_area("Den"), "area-den-3");
    assert_eq!(cfg.ensure_room_for_area("***"), "area-room");
}

#[test]
fn ensure_room_for_ignored_area() {
    let mut cfg = HassUiConfig::default();
    cfg.ignored_area_names = vec!["Garage".to_string()];
    assert_eq!(cfg.ensure_room_for_area("garage"), "home-assistant");
    assert_eq!(cfg.rooms.len(), 1);
}
