use bifrost::z2m::sanitize_url;

#[test]
fn sanitize_url_hides_real_token() {
    assert_eq!(
        sanitize_url("ws://host:8080/api?token=abc123"),
        "ws://host:8080/api?token=<<REDACTED>>"
    );
}

#[test]
fn sanitize_url_keeps_default_token() {
    let url = "ws://host:8080/api?token=your-secret-token";
    assert_eq!(sanitize_url(url), url);
}

#[test]
fn sanitize_url_without_token() {
    assert_eq!(sanitize_url("ws://host:8080/api"), "ws://host:8080/api");
    assert_eq!(sanitize_url(""), "");
}

use bifrost::hass_import::{HueLightCommand, Xy};
use bifrost::rtype::RType;
use bifrost::z2m::{light_device_update, room_member_changes, DeviceEffect};

#[test]
fn z2m_light_update_scales_and_times() {
    let cmd = HueLightCommand { on: None, brightness: Some(5000), mirek: None, xy: None, duration_ms: None };
    let upd = light_device_update(cmd, false);
    assert_eq!(upd.brightness, Some(127));
    assert_eq!(upd.transition_ms, Some(400));
    assert_eq!(upd.effect, None);

    let cmd = HueLightCommand {
        on: Some(true),
        brightness: Some(10000),
        mirek: Some(300),
        xy: Some(Xy { x: 1, y: 2 }),
        duration_ms: Some(1200),
    };
    let upd = light_device_update(cmd, true);
    assert_eq!(upd.state, Some(true));
    assert_eq!(upd.brightness, Some(254));
    assert_eq!(upd.color_temp, Some(300));
    assert_eq!(upd.color_xy, Some(Xy { x: 1, y: 2 }));
    assert_eq!(upd.transition_ms, Some(1200));
    assert_eq!(upd.effect, Some(DeviceEffect::Breathe));

    let empty = HueLightCommand { on: None, brightness: None, mirek: None, xy: None, duration_ms: None };
    assert_eq!(light_device_update(empty, false).transition_ms, None);
}

#[test]
fn z2m_room_member_changes() {
    let a = RType::Device.deterministic("a");
    let b = RType::Device.deterministic("b");
    let c = RType::Device.deterministic("c");
    let unknown = RType::Device.deterministic("unknown");
    let existing = vec![a, b, unknown];
    let new = vec![b, c, c, unknown];
    let known = vec![a, b, c];
    let (adds, removes) = room_member_changes(&existing, &new, &known);
    assert_eq!(adds, vec![c]);
    assert_eq!(removes, vec![a]);
}
