use bifrost::hass_import::{
    clamp_color_temp, default_service_kind, display_name, entity_status, ieee_like_from_id,
    project_light, upsert_entity, HassEntityKind, HassLightCapabilities, HassServiceKind,
    ImportedEntity, Xy,
};
use bifrost::hass_import::apply_overrides;
use bifrost::hass_sync::{apply_full_sync, ensure_room, place_devices, set_grouped_state, sync_entity};
use bifrost::hass_ui::{HassLightArchetype, HassSwitchMode};
use bifrost::hass_ui::{HassSensorKind, HassUiConfig};
use bifrost::rtype::RType;
use bifrost::store::{LightState, ResourceData, Resources};

fn light(id: &str, on: bool, brightness: Option<u8>) -> ImportedEntity {
    ImportedEntity {
        entity_id: id.to_string(),
        name: format!("Lamp {id}"),
        kind: HassEntityKind::Light,
        service_kind: HassServiceKind::Light,
        available: true,
        on,
        brightness,
        xy_color: None,
        color_temp: None,
        area_name: None,
        capabilities: HassLightCapabilities { supports_brightness: true, supports_color: true, supports_color_temp: false },
        detected_sensor_kind: None,
        switch_mode: None,
        light_archetype: None,
        sensor_enabled: true,
    }
}

#[test]
fn entity_parse_pieces() {
    assert_eq!(entity_status("on"), (true, true));
    assert_eq!(entity_status("off"), (true, false));
    assert_eq!(entity_status("unavailable"), (false, false));
    assert_eq!(entity_status("unknown"), (false, false));
    assert_eq!(display_name(Some("Kitchen"), "light.k"), "Kitchen");
    assert_eq!(display_name(None, "light.k"), "light.k");
    assert_eq!(clamp_color_temp(100), 153);
    assert_eq!(clamp_color_temp(600), 500);
    assert_eq!(clamp_color_temp(366), 366);
    assert_eq!(default_service_kind(HassEntityKind::BinarySensor, HassSensorKind::Contact), HassServiceKind::Contact);
    assert_eq!(default_service_kind(HassEntityKind::BinarySensor, HassSensorKind::Ignore), HassServiceKind::Motion);
    assert_eq!(default_service_kind(HassEntityKind::Switch, HassSensorKind::Ignore), HassServiceKind::Switch);
}

#[test]
fn light_projection() {
    let e = light("light.a", true, Some(128));
    let st = project_light(None, &e);
    assert_eq!(st, LightState { on: true, brightness: Some(5020), xy: Some(Xy { x: 3127, y: 3290 }), mirek: None });
    let e2 = light("light.a", false, None);
    let prev = LightState { on: true, brightness: Some(4000), xy: Some(Xy { x: 1, y: 2 }), mirek: Some(300) };
    let st2 = project_light(Some(prev), &e2);
    assert_eq!(st2, LightState { on: false, brightness: Some(4000), xy: Some(Xy { x: 1, y: 2 }), mirek: None });
    assert_eq!(project_light(None, &e2).brightness, Some(10000));
    let mut sw = light("switch.s", true, Some(255));
    sw.kind = HassEntityKind::Switch;
    assert_eq!(project_light(Some(prev), &sw), LightState { on: true, brightness: None, xy: None, mirek: None });
}

#[test]
fn upsert_creates_device_zbc_and_light() {
    let mut res = Resources::new();
    let e = light("light.a", true, Some(255));
    upsert_entity(&mut res, "ha", &e);
    assert_eq!(res.len(), 3);
    let dev = RType::Device.deterministic("hass:ha:light.a:device");
    let zbc = RType::ZigbeeConnectivity.deterministic("hass:ha:light.a:zbc");
    let svc = RType::Light.deterministic("hass:ha:light.a:light");
    let d = res.get(dev.rid).unwrap();
    assert_eq!(d.links, vec![svc, zbc]);
    match &d.data {
        ResourceData::Device { manufacturer, model_id, name } => {
            assert_eq!(manufacturer, "Home Assistant");
            assert_eq!(model_id, "hass-light");
            assert_eq!(name, "Lamp light.a");
        }
        other => panic!("unexpected {other:?}"),
    }
    let z = res.get(zbc.rid).unwrap();
    assert_eq!(z.owner, Some(dev));
    match &z.data {
        ResourceData::Zigbee { mac_address } => assert_eq!(*mac_address, ieee_like_from_id(dev.rid)),
        other => panic!("unexpected {other:?}"),
    }
    let l = res.get(svc.rid).unwrap();
    assert_eq!(l.owner, Some(dev));
    match &l.data {
        ResourceData::Light(st) => assert_eq!(st.brightness, Some(10000)),
        other => panic!("unexpected {other:?}"),
    }
    // the same entity again: nothing changes and no event
    let id = res.hue_event_stream().next_id();
    upsert_entity(&mut res, "ha", &e);
    assert_eq!(res.len(), 3);
    assert_eq!(res.hue_event_stream().next_id(), id);
    // a sparse update keeps the previous brightness
    upsert_entity(&mut res, "ha", &light("light.a", false, None));
    match &res.get(svc.rid).unwrap().data {
        ResourceData::Light(st) => {
            assert_eq!(st.brightness, Some(10000));
            assert!(!st.on);
        }
        other => panic!("unexpected {other:?}"),
    }
}

#[test]
fn full_sync_prunes_devices_not_kept() {
    let mut res = Resources::new();
    let mut ui = HassUiConfig::default();
    ui.default_add_new_devices_to_hue = true;
    let a = light("light.a", true, Some(10));
    let b = light("light.b", true, Some(20));
    apply_full_sync(&mut res, &ui, "ha", &vec![a, b]);
    assert_eq!(res.len(), 6);
    // light.b is hidden now: its device and what it owns go
    ui.set_entity_hidden("light.b", true);
    let a = light("light.a", true, Some(10));
    let b = light("light.b", true, Some(20));
    let before = res.hue_event_stream().next_id();
    apply_full_sync(&mut res, &ui, "ha", &vec![a, b]);
    assert_eq!(res.len(), 3);
    assert!(!res.contains(RType::Device.deterministic("hass:ha:light.b:device").rid));
    assert!(res.contains(RType::Device.deterministic("hass:ha:light.a:device").rid));
    assert_eq!(res.hue_event_stream().next_id(), before + 3);
}

#[test]
fn second_full_sync_emits_nothing() {
    let mut res = Resources::new();
    let mut ui = HassUiConfig::default();
    ui.default_add_new_devices_to_hue = true;
    let input = || vec![light("light.a", true, Some(10)), light("light.b", false, None)];
    apply_full_sync(&mut res, &ui, "ha", &input());
    let n = res.len();
    let id = res.hue_event_stream().next_id();
    apply_full_sync(&mut res, &ui, "ha", &input());
    assert_eq!(res.len(), n);
    assert_eq!(res.hue_event_stream().next_id(), id);
}

#[test]
fn single_entity_sync_upserts_and_removes() {
    let mut res = Resources::new();
    let mut ui = HassUiConfig::default();
    ui.default_add_new_devices_to_hue = true;
    sync_entity(&mut res, &ui, "ha", &light("light.a", true, Some(10)));
    assert_eq!(res.len(), 3);
    ui.set_entity_hidden("light.a", true);
    sync_entity(&mut res, &ui, "ha", &light("light.a", true, Some(10)));
    assert_eq!(res.len(), 0);
    let id = res.hue_event_stream().next_id();
    sync_entity(&mut res, &ui, "ha", &light("light.a", true, Some(10)));
    assert_eq!(res.hue_event_stream().next_id(), id);
}

#[test]
fn overrides_apply_user_choices() {
    let mut ui = HassUiConfig::default();
    ui.set_entity_alias("switch.fan", Some("Fan".to_string()));
    ui.set_entity_switch_mode("switch.fan", Some(HassSwitchMode::Light));
    ui.set_entity_light_archetype("switch.fan", Some(HassLightArchetype::HueGo));
    let mut sw = light("switch.fan", true, None);
    sw.kind = HassEntityKind::Switch;
    sw.service_kind = HassServiceKind::Switch;
    let r = apply_overrides(&ui, sw);
    assert_eq!(r.name, "Fan");
    assert_eq!(r.switch_mode, Some(HassSwitchMode::Light));
    assert_eq!(r.light_archetype, Some(HassLightArchetype::HueGo));

    ui.set_entity_sensor_kind("binary_sensor.door", Some(HassSensorKind::Contact));
    ui.set_entity_sensor_enabled("binary_sensor.door", false);
    let mut bs = light("binary_sensor.door", false, None);
    bs.kind = HassEntityKind::BinarySensor;
    bs.service_kind = HassServiceKind::Motion;
    bs.detected_sensor_kind = Some(HassSensorKind::Motion);
    let r = apply_overrides(&ui, bs);
    assert_eq!(r.service_kind, HassServiceKind::Contact);
    assert!(!r.sensor_enabled);
    assert_eq!(r.name, "Lamp binary_sensor.door");
}

#[test]
fn rooms_devices_and_grouped_lights() {
    let mut res = Resources::new();
    let mut ui = HassUiConfig::default();
    ui.default_add_new_devices_to_hue = true;
    ensure_room(&mut res, "ha", "home-assistant");
    assert_eq!(res.len(), 2);
    let room = RType::Room.deterministic("hass:ha:room:home-assistant");
    let gl = RType::GroupedLight.deterministic("hass:ha:grouped:home-assistant");
    assert_eq!(res.get(room.rid).unwrap().links, vec![gl]);
    assert_eq!(res.owner_of(&gl), Ok(Some(room)));
    ensure_room(&mut res, "ha", "home-assistant");
    assert_eq!(res.len(), 2);

    let input = vec![light("light.a", true, Some(255)), light("light.b", false, Some(0))];
    apply_full_sync(&mut res, &ui, "ha", &input);
    place_devices(&mut res, &ui, "ha", &input);
    let dev_a = RType::Device.deterministic("hass:ha:light.a:device");
    let dev_b = RType::Device.deterministic("hass:ha:light.b:device");
    assert_eq!(res.get(room.rid).unwrap().links, vec![gl, dev_a, dev_b]);
    let id = res.hue_event_stream().next_id();
    place_devices(&mut res, &ui, "ha", &input);
    assert_eq!(res.hue_event_stream().next_id(), id);

    set_grouped_state(&mut res, gl.rid, &vec![(true, Some(255)), (false, Some(0))]);
    match &res.get(gl.rid).unwrap().data {
        ResourceData::Grouped { on, dimming } => {
            assert!(*on);
            assert_eq!(*dimming, Some(5000));
        }
        other => panic!("unexpected {other:?}"),
    }
    let id = res.hue_event_stream().next_id();
    set_grouped_state(&mut res, gl.rid, &vec![(true, Some(255)), (false, Some(0))]);
    assert_eq!(res.hue_event_stream().next_id(), id);
}
