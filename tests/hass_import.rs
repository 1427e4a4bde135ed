use bifrost::hass_import::{
    assigned_room_id, detected_sensor_kind, entity_kind, ha_brightness, ieee_like_from_id,
    keep_capabilities, light_capabilities, light_update_call, HassEntityKind, HassLightCapabilities,
    HassService, HueLightCommand, Xy,
};
use bifrost::hass_ui::{HassRoomConfig, HassSensorKind, HassUiConfig};

fn caps(b: bool, c: bool, t: bool) -> HassLightCapabilities {
    HassLightCapabilities { supports_brightness: b, supports_color: c, supports_color_temp: t }
}

fn cmd() -> HueLightCommand {
    HueLightCommand { on: None, brightness: None, mirek: None, xy: None, duration_ms: None }
}

#[test]
fn entity_kinds_by_domain() {
    assert_eq!(entity_kind("light.kitchen"), Some(HassEntityKind::Light));
    assert_eq!(entity_kind("switch.fan"), Some(HassEntityKind::Switch));
    assert_eq!(entity_kind("binary_sensor.door"), Some(HassEntityKind::BinarySensor));
    assert_eq!(entity_kind("sensor.temp"), None);
    assert_eq!(entity_kind("light"), None);
    assert_eq!(entity_kind("light.a.b"), Some(HassEntityKind::Light));
}

#[test]
fn sensor_kinds_from_device_class() {
    assert_eq!(detected_sensor_kind(Some("Motion")), HassSensorKind::Motion);
    assert_eq!(detected_sensor_kind(Some("occupancy")), HassSensorKind::Motion);
    assert_eq!(detected_sensor_kind(Some("presence")), HassSensorKind::Motion);
    assert_eq!(detected_sensor_kind(Some("door")), HassSensorKind::Contact);
    assert_eq!(detected_sensor_kind(Some("GARAGE_DOOR")), HassSensorKind::Contact);
    assert_eq!(detected_sensor_kind(Some("window")), HassSensorKind::Contact);
    assert_eq!(detected_sensor_kind(Some("opening")), HassSensorKind::Contact);
    assert_eq!(detected_sensor_kind(Some("smoke")), HassSensorKind::Ignore);
    assert_eq!(detected_sensor_kind(None), HassSensorKind::Ignore);
}

#[test]
fn capabilities_from_modes() {
    let modes = vec!["XY".to_string(), "color_temp".to_string()];
    assert_eq!(light_capabilities(&modes, false, false, false), caps(true, true, true));
    assert_eq!(light_capabilities(&vec!["onoff".to_string()], false, false, false), caps(false, false, false));
    assert_eq!(light_capabilities(&vec!["brightness".to_string()], false, false, false), caps(true, false, false));
    assert_eq!(light_capabilities(&vec![], true, true, true), caps(true, true, true));
    assert_eq!(light_capabilities(&vec!["rgbww".to_string()], false, false, false), caps(true, true, false));
}

#[test]
fn sparse_update_keeps_capabilities() {
    let prior = caps(true, true, false);
    assert_eq!(keep_capabilities(HassEntityKind::Light, caps(false, false, false), Some(prior)), prior);
    assert_eq!(keep_capabilities(HassEntityKind::Light, caps(true, false, false), Some(prior)), caps(true, true, false));
    assert_eq!(keep_capabilities(HassEntityKind::Light, caps(false, false, true), Some(prior)), caps(true, true, true));
    assert_eq!(keep_capabilities(HassEntityKind::Light, caps(false, false, false), None), caps(false, false, false));
    assert_eq!(keep_capabilities(HassEntityKind::Switch, caps(false, false, false), Some(prior)), caps(false, false, false));
}

#[test]
fn light_off_is_turn_off_only() {
    let mut c = cmd();
    c.on = Some(false);
    c.brightness = Some(5000);
    let call = light_update_call(HassEntityKind::Light, caps(true, true, true), c).unwrap();
    assert_eq!(call.domain, HassEntityKind::Light);
    assert_eq!(call.service, HassService::TurnOff);
    assert_eq!(call.brightness, None);
    assert_eq!(call.color_temp, None);
    assert_eq!(call.xy_color, None);
    assert_eq!(call.transition_ms, None);
}

#[test]
fn brightness_scaling() {
    assert_eq!(ha_brightness(5000), 128);
    assert_eq!(ha_brightness(10000), 255);
    assert_eq!(ha_brightness(0), 0);
    assert_eq!(ha_brightness(20000), 255);
    let mut c = cmd();
    c.brightness = Some(5000);
    c.xy = Some(Xy { x: 3127, y: 3290 });
    c.mirek = Some(366);
    c.duration_ms = Some(400);
    let call = light_update_call(HassEntityKind::Light, caps(true, false, true), c).unwrap();
    assert_eq!(call.service, HassService::TurnOn);
    assert_eq!(call.brightness, Some(128));
    assert_eq!(call.color_temp, Some(366));
    assert_eq!(call.xy_color, None);
    assert_eq!(call.transition_ms, Some(400));
}

#[test]
fn empty_update_makes_no_call() {
    assert_eq!(light_update_call(HassEntityKind::Light, caps(false, false, false), cmd()), None);
    let mut c = cmd();
    c.brightness = Some(100);
    assert_eq!(light_update_call(HassEntityKind::Light, caps(false, false, false), c), None);
    c.on = Some(true);
    let call = light_update_call(HassEntityKind::Light, caps(false, false, false), c).unwrap();
    assert_eq!(call.service, HassService::TurnOn);
    assert_eq!(call.brightness, None);
}

#[test]
fn switches_and_sensors() {
    let mut c = cmd();
    assert_eq!(light_update_call(HassEntityKind::Switch, caps(false, false, false), c), None);
    c.on = Some(true);
    let call = light_update_call(HassEntityKind::Switch, caps(false, false, false), c).unwrap();
    assert_eq!((call.domain, call.service), (HassEntityKind::Switch, HassService::TurnOn));
    c.on = Some(false);
    let call = light_update_call(HassEntityKind::Switch, caps(false, false, false), c).unwrap();
    assert_eq!(call.service, HassService::TurnOff);
    assert_eq!(light_update_call(HassEntityKind::BinarySensor, caps(true, true, true), c), None);
}

#[test]
fn ieee_text_of_id() {
    let id: u128 = 0x0123456789abcdef_fedcba9876543210;
    assert_eq!(ieee_like_from_id(id), "01:23:45:67:89:ab:cd:ef");
    assert_eq!(ieee_like_from_id(0), "00:00:00:00:00:00:00:00");
}

#[test]
fn room_assignment_precedence() {
    let mut cfg = HassUiConfig::default();
    cfg.rooms.push(HassRoomConfig {
        id: "kitchen".to_string(),
        name: "Kitchen".to_string(),
        source_area: Some("Kitchen".to_string()),
        auto_created: true,
    });
    cfg.rooms.push(HassRoomConfig {
        id: "den".to_string(),
        name: "Den".to_string(),
        source_area: None,
        auto_created: false,
    });
    assert_eq!(assigned_room_id(&cfg, "light.a", Some("kitchen")), "kitchen");
    assert_eq!(assigned_room_id(&cfg, "light.a", Some("garage")), "home-assistant");
    assert_eq!(assigned_room_id(&cfg, "light.a", None), "home-assistant");
    cfg.set_entity_room("light.a", Some("den".to_string()));
    assert_eq!(assigned_room_id(&cfg, "light.a", Some("kitchen")), "den");
    cfg.set_entity_room("light.b", Some("kitchen".to_string()));
    cfg.sync_hass_areas_to_rooms = false;
    assert_eq!(assigned_room_id(&cfg, "light.c", Some("kitchen")), "home-assistant");
}

#[test]
fn scene_ids_for_writeback() {
    let rid = uuid::Uuid::parse_str("02808610-c1ec-5774-8eaf-453b83cf1981").unwrap().as_u128();
    assert_eq!(bifrost::hass_import::hass_scene_id(rid), "bifrost_02808610c1ec");
    assert_eq!(bifrost::hass_import::hass_scene_id(0), "bifrost_000000000000");
}

#[test]
fn grouped_light_from_members() {
    let f = bifrost::hass_import::grouped_light_state;
    assert_eq!(f(&vec![]), (false, None));
    assert_eq!(f(&vec![(false, None), (true, None)]), (true, None));
    // 255 and 128 on a 0-255 scale: (100% + 50.196%) / 2 = 75.098%
    assert_eq!(f(&vec![(true, Some(255)), (false, Some(128)), (false, None)]), (true, Some(7510)));
    assert_eq!(f(&vec![(false, Some(0))]), (false, Some(0)));
}
