use vstd::prelude::*;
use vstd::string::StrSliceExecFns;
use vstd::string::StringExecFns;

use crate::hass_ui::{
    area_room, base_pref, default_room_id, has_room, rooms_contain, HassLightArchetype, HassSensorKind,
    HassSwitchMode, HassUiConfig, opt_view,
};
use crate::rtype::{derived_id, key_bytes_of_str, RType, ResourceLink};
use crate::store::{
    has_node, lemma_put_present, lemma_put_result, put_result, DataView, LightState, ResView, ResourceData, Resources,
    StoredResource,
};
use crate::text::{lower, lower_text, push_char};

verus! {

/// The kind of Home Assistant entity that the bridge imports.
#[derive(Clone, Copy, Debug, PartialEq, Eq, Structural)]
pub enum HassEntityKind {
    Light,
    Switch,
    BinarySensor,
}

/// What a light entity can do beside turning on and off.
#[derive(Clone, Copy, Debug, PartialEq, Eq, Structural)]
pub struct HassLightCapabilities {
    pub supports_brightness: bool,
    pub supports_color: bool,
    pub supports_color_temp: bool,
}

pub open spec fn no_capabilities() -> HassLightCapabilities {
    HassLightCapabilities { supports_brightness: false, supports_color: false, supports_color_temp: false }
}

/// `a` can do at least what `b` can.
pub open spec fn covers(a: HassLightCapabilities, b: HassLightCapabilities) -> bool {
    (b.supports_brightness ==> a.supports_brightness) && (b.supports_color ==> a.supports_color)
        && (b.supports_color_temp ==> a.supports_color_temp)
}

/// The domain of an entity id: what comes before its first dot.
pub open spec fn domain_part(s: Seq<char>) -> Option<Seq<char>>
    decreases s.len(),
{
    if s.len() == 0 {
        None
    } else if s[0] == '.' {
        Some(Seq::empty())
    } else {
        match domain_part(s.drop_first()) {
            Some(p) => Some(seq![s[0]] + p),
            None => None,
        }
    }
}

pub open spec fn light_word() -> Seq<char> {
    seq!['l', 'i', 'g', 'h', 't']
}

pub open spec fn switch_word() -> Seq<char> {
    seq!['s', 'w', 'i', 't', 'c', 'h']
}

pub open spec fn binary_sensor_word() -> Seq<char> {
    seq!['b', 'i', 'n', 'a', 'r', 'y', '_', 's', 'e', 'n', 's', 'o', 'r']
}

/// The kind of an entity, by the domain of its id.
pub open spec fn kind_of(entity_id: Seq<char>) -> Option<HassEntityKind> {
    match domain_part(entity_id) {
        Some(d) => if d == light_word() {
            Some(HassEntityKind::Light)
        } else if d == switch_word() {
            Some(HassEntityKind::Switch)
        } else if d == binary_sensor_word() {
            Some(HassEntityKind::BinarySensor)
        } else {
            None
        },
        None => None,
    }
}

proof fn lemma_domain_part(s: Seq<char>, i: int)
    requires
        0 <= i <= s.len(),
        forall|j: int| 0 <= j < i ==> s[j] != '.',
    ensures
        i < s.len() && s[i] == '.' ==> domain_part(s) == Some(s.subrange(0, i)),
        i == s.len() ==> domain_part(s) is None,
    decreases i,
{
    if i > 0 {
        let t = s.drop_first();
        assert forall|j: int| 0 <= j < i - 1 implies t[j] != '.' by {
            assert(t[j] == s[j + 1]);
        }
        lemma_domain_part(t, i - 1);
        if i < s.len() && s[i] == '.' {
            assert(t[i - 1] == s[i]);
            assert(seq![s[0]] + t.subrange(0, i - 1) =~= s.subrange(0, i));
        }
    }
}

/// The kind of an entity by the domain of its id: `light`, `switch` or
/// `binary_sensor`; none for other domains or ids without a dot.
pub fn entity_kind(entity_id: &str) -> (r: Option<HassEntityKind>)
    ensures
        r == kind_of(entity_id@),
{
    let n = entity_id.unicode_len();
    let mut i: usize = 0;
    let mut found = false;
    while i < n && !found
        invariant
            n == entity_id@.len(),
            0 <= i <= n,
            forall|j: int| 0 <= j < i ==> entity_id@[j] != '.',
            found ==> i < n && entity_id@[i as int] == '.',
        decreases n - i, if found { 0int } else { 1int },
    {
        if entity_id.get_char(i) == '.' {
            found = true;
        } else {
            i = i + 1;
        }
    }
    proof {
        lemma_domain_part(entity_id@, i as int);
    }
    if !found {
        return None;
    }
    let domain = String::from_str(entity_id.substring_char(0, i));
    let light = String::from_str("light");
    let switch = String::from_str("switch");
    let binary = String::from_str("binary_sensor");
    proof {
        reveal_strlit("light");
        reveal_strlit("switch");
        reveal_strlit("binary_sensor");
        assert(light@ =~= light_word());
        assert(switch@ =~= switch_word());
        assert(binary@ =~= binary_sensor_word());
    }
    if domain == light {
        Some(HassEntityKind::Light)
    } else if domain == switch {
        Some(HassEntityKind::Switch)
    } else if domain == binary {
        Some(HassEntityKind::BinarySensor)
    } else {
        None
    }
}

/// The sensor kind that a `device_class` (ASCII case ignored) stands for:
/// motion, occupancy and presence are motion; door, opening, window and
/// garage_door are contact; anything else is ignored.
pub open spec fn sensor_kind_of_class(c: Seq<char>) -> HassSensorKind {
    let l = lower(c);
    if l == seq!['m', 'o', 't', 'i', 'o', 'n'] || l == seq!['o', 'c', 'c', 'u', 'p', 'a', 'n', 'c', 'y']
        || l == seq!['p', 'r', 'e', 's', 'e', 'n', 'c', 'e'] {
        HassSensorKind::Motion
    } else if l == seq!['d', 'o', 'o', 'r'] || l == seq!['o', 'p', 'e', 'n', 'i', 'n', 'g'] || l
        == seq!['w', 'i', 'n', 'd', 'o', 'w'] || l == seq![
        'g',
        'a',
        'r',
        'a',
        'g',
        'e',
        '_',
        'd',
        'o',
        'o',
        'r',
    ] {
        HassSensorKind::Contact
    } else {
        HassSensorKind::Ignore
    }
}

fn literal(s: &str) -> (r: String)
    ensures
        r@ == s@,
{
    String::from_str(s)
}

/// The sensor kind detected from a binary sensor's `device_class`.
pub fn detected_sensor_kind(device_class: Option<&str>) -> (r: HassSensorKind)
    ensures
        r == match device_class {
            Some(c) => sensor_kind_of_class(c@),
            None => sensor_kind_of_class(Seq::empty()),
        },
{
    let l = match device_class {
        Some(c) => lower_text(c),
        None => String::new(),
    };
    proof {
        if device_class is None {
            assert(lower(Seq::<char>::empty()) =~= Seq::<char>::empty());
        }
        reveal_strlit("motion");
        reveal_strlit("occupancy");
        reveal_strlit("presence");
        reveal_strlit("door");
        reveal_strlit("opening");
        reveal_strlit("window");
        reveal_strlit("garage_door");
    }
    let motion = literal("motion");
    let occupancy = literal("occupancy");
    let presence = literal("presence");
    let door = literal("door");
    let opening = literal("opening");
    let window = literal("window");
    let garage = literal("garage_door");
    proof {
        assert(motion@ =~= seq!['m', 'o', 't', 'i', 'o', 'n']);
        assert(occupancy@ =~= seq!['o', 'c', 'c', 'u', 'p', 'a', 'n', 'c', 'y']);
        assert(presence@ =~= seq!['p', 'r', 'e', 's', 'e', 'n', 'c', 'e']);
        assert(door@ =~= seq!['d', 'o', 'o', 'r']);
        assert(opening@ =~= seq!['o', 'p', 'e', 'n', 'i', 'n', 'g']);
        assert(window@ =~= seq!['w', 'i', 'n', 'd', 'o', 'w']);
        assert(garage@ =~= seq!['g', 'a', 'r', 'a', 'g', 'e', '_', 'd', 'o', 'o', 'r']);
    }
    if l == motion || l == occupancy || l == presence {
        HassSensorKind::Motion
    } else if l == door || l == opening || l == window || l == garage {
        HassSensorKind::Contact
    } else {
        HassSensorKind::Ignore
    }
}

/// A color mode in which a light takes a color.
pub open spec fn is_color_mode(m: Seq<char>) -> bool {
    m == seq!['x', 'y'] || m == seq!['h', 's'] || m == seq!['r', 'g', 'b'] || m == seq![
        'r',
        'g',
        'b',
        'w',
    ] || m == seq!['r', 'g', 'b', 'w', 'w']
}

pub open spec fn color_temp_mode() -> Seq<char> {
    seq!['c', 'o', 'l', 'o', 'r', '_', 't', 'e', 'm', 'p']
}

/// A color mode in which a light can be dimmed.
pub open spec fn is_dimming_mode(m: Seq<char>) -> bool {
    m == seq!['b', 'r', 'i', 'g', 'h', 't', 'n', 'e', 's', 's'] || is_color_mode(m) || m
        == color_temp_mode()
}

pub open spec fn any_mode(modes: Seq<Seq<char>>, p: spec_fn(Seq<char>) -> bool) -> bool {
    exists|i: int| 0 <= i < modes.len() && p(lower(#[trigger] modes[i]))
}

/// The capabilities of a light, from its supported color modes (ASCII case
/// ignored) and the attributes its state carries.
pub open spec fn capabilities_of(
    modes: Seq<Seq<char>>,
    has_brightness_attr: bool,
    has_color_temp_attr: bool,
    has_xy_attr: bool,
) -> HassLightCapabilities {
    HassLightCapabilities {
        supports_brightness: has_brightness_attr || any_mode(modes, |m: Seq<char>| is_dimming_mode(m)),
        supports_color: has_xy_attr || any_mode(modes, |m: Seq<char>| is_color_mode(m)),
        supports_color_temp: has_color_temp_attr || any_mode(
            modes,
            |m: Seq<char>| m == color_temp_mode(),
        ),
    }
}

fn mode_class(mode: &String) -> (r: (bool, bool, bool))
    ensures
        r.0 == is_dimming_mode(lower(mode@)),
        r.1 == is_color_mode(lower(mode@)),
        r.2 == (lower(mode@) == color_temp_mode()),
{
    let l = lower_text(mode.as_str());
    proof {
        reveal_strlit("xy");
        reveal_strlit("hs");
        reveal_strlit("rgb");
        reveal_strlit("rgbw");
        reveal_strlit("rgbww");
        reveal_strlit("brightness");
        reveal_strlit("color_temp");
    }
    let xy = literal("xy");
    let hs = literal("hs");
    let rgb = literal("rgb");
    let rgbw = literal("rgbw");
    let rgbww = literal("rgbww");
    let brightness = literal("brightness");
    let ct = literal("color_temp");
    proof {
        assert(xy@ =~= seq!['x', 'y']);
        assert(hs@ =~= seq!['h', 's']);
        assert(rgb@ =~= seq!['r', 'g', 'b']);
        assert(rgbw@ =~= seq!['r', 'g', 'b', 'w']);
        assert(rgbww@ =~= seq!['r', 'g', 'b', 'w', 'w']);
        assert(brightness@ =~= seq!['b', 'r', 'i', 'g', 'h', 't', 'n', 'e', 's', 's']);
        assert(ct@ =~= color_temp_mode());
    }
    let color = l == xy || l == hs || l == rgb || l == rgbw || l == rgbww;
    let is_ct = l == ct;
    (color || is_ct || l == brightness, color, is_ct)
}

/// The capabilities of a light (see `capabilities_of`).
pub fn light_capabilities(
    modes: &Vec<String>,
    has_brightness_attr: bool,
    has_color_temp_attr: bool,
    has_xy_attr: bool,
) -> (r: HassLightCapabilities)
    ensures
        r == capabilities_of(
            modes@.map_values(|m: String| m@),
            has_brightness_attr,
            has_color_temp_attr,
            has_xy_attr,
        ),
{
    let ghost mv = modes@.map_values(|m: String| m@);
    let mut dim = false;
    let mut color = false;
    let mut ct = false;
    let mut i: usize = 0;
    while i < modes.len()
        invariant
            0 <= i <= modes@.len(),
            mv == modes@.map_values(|m: String| m@),
            dim == exists|j: int| 0 <= j < i && is_dimming_mode(lower(#[trigger] mv[j])),
            color == exists|j: int| 0 <= j < i && is_color_mode(lower(#[trigger] mv[j])),
            ct == exists|j: int| 0 <= j < i && lower(#[trigger] mv[j]) == color_temp_mode(),
        decreases modes@.len() - i,
    {
        let (d, c, t) = mode_class(&modes[i]);
        assert(mv[i as int] == modes@[i as int]@);
        dim = dim || d;
        color = color || c;
        ct = ct || t;
        i = i + 1;
    }
    HassLightCapabilities {
        supports_brightness: has_brightness_attr || dim,
        supports_color: has_xy_attr || color,
        supports_color_temp: has_color_temp_attr || ct,
    }
}

/// The capabilities to keep for a light after a live update: those it had
/// together with those the update reports, since a sparse update never
/// takes a capability away. Other entities take what the update reports.
pub open spec fn kept_capabilities(
    kind: HassEntityKind,
    parsed: HassLightCapabilities,
    prior: Option<HassLightCapabilities>,
) -> HassLightCapabilities {
    match prior {
        Some(p) => if kind == HassEntityKind::Light {
            HassLightCapabilities {
                supports_brightness: parsed.supports_brightness || p.supports_brightness,
                supports_color: parsed.supports_color || p.supports_color,
                supports_color_temp: parsed.supports_color_temp || p.supports_color_temp,
            }
        } else {
            parsed
        },
        None => parsed,
    }
}

/// The capabilities to keep for a light after a live update (see
/// `kept_capabilities`).
pub fn keep_capabilities(
    kind: HassEntityKind,
    parsed: HassLightCapabilities,
    prior: Option<HassLightCapabilities>,
) -> (r: HassLightCapabilities)
    ensures
        r == kept_capabilities(kind, parsed, prior),
        kind == HassEntityKind::Light && prior is Some ==> covers(r, prior->0) && covers(r, parsed),
{
    match prior {
        Some(p) => if kind == HassEntityKind::Light {
            HassLightCapabilities {
                supports_brightness: parsed.supports_brightness || p.supports_brightness,
                supports_color: parsed.supports_color || p.supports_color,
                supports_color_temp: parsed.supports_color_temp || p.supports_color_temp,
            }
        } else {
            parsed
        },
        None => parsed,
    }
}

/// A live update of an imported light loses none of its capabilities.
pub proof fn lemma_capabilities_kept(
    parsed: HassLightCapabilities,
    prior: HassLightCapabilities,
)
    ensures
        covers(kept_capabilities(HassEntityKind::Light, parsed, Some(prior)), prior),
{
}

/// The room an entity goes to: the one its preference names, where that
/// room exists; else, where areas are synced, the room made for its area;
/// else the default room.
pub open spec fn assigned_room(cfg: crate::hass_ui::UiConfigView, entity_id: Seq<char>, area: Option<Seq<char>>) -> Seq<char> {
    let p = base_pref(cfg.entity_preferences, entity_id);
    if p.room_id is Some && has_room(cfg.rooms, p.room_id->0) {
        p.room_id->0
    } else if cfg.sync_hass_areas_to_rooms && area is Some && area_room(cfg.rooms, area->0) is Some {
        area_room(cfg.rooms, area->0)->0
    } else {
        default_room_id()
    }
}

/// The room an entity goes to (see `assigned_room`).
pub fn assigned_room_id(config: &HassUiConfig, entity_id: &str, area_name: Option<&str>) -> (r: String)
    requires
        config.wf(),
    ensures
        r@ == assigned_room(config@, entity_id@, match area_name {
            Some(a) => Some(a@),
            None => None,
        }),
{
    match config.entity_room_preference(entity_id) {
        Some(room_id) => {
            if rooms_contain(&config.rooms, &room_id) {
                return room_id;
            }
        },
        None => {},
    }
    if config.sync_hass_areas_to_rooms {
        match area_name {
            Some(area) => match config.room_for_area(area) {
                Some(room_id) => {
                    return room_id;
                },
                None => {},
            },
            None => {},
        }
    }
    HassUiConfig::default_room_id()
}

/// A CIE xy color point, each coordinate in ten-thousandths.
#[derive(Clone, Copy, Debug, PartialEq, Eq, Structural)]
pub struct Xy {
    pub x: u32,
    pub y: u32,
}

/// A light update as Hue clients send it; brightness in hundredths of a
/// percent, color as CIE xy in ten-thousandths, duration in milliseconds.
#[derive(Clone, Copy, Debug, PartialEq, Eq, Structural)]
pub struct HueLightCommand {
    pub on: Option<bool>,
    pub brightness: Option<u32>,
    pub mirek: Option<u16>,
    pub xy: Option<Xy>,
    pub duration_ms: Option<u32>,
}

#[derive(Clone, Copy, Debug, PartialEq, Eq, Structural)]
pub enum HassService {
    TurnOn,
    TurnOff,
}

/// A service call to Home Assistant for one entity: `light.turn_on` and the
/// like, with its data (brightness 0 to 255, color temperature in mirek,
/// xy in ten-thousandths, transition in milliseconds).
#[derive(Clone, Copy, Debug, PartialEq, Eq, Structural)]
pub struct HassServiceCall {
    pub domain: HassEntityKind,
    pub service: HassService,
    pub brightness: Option<u8>,
    pub color_temp: Option<u16>,
    pub xy_color: Option<Xy>,
    pub transition_ms: Option<u32>,
}

/// A Hue brightness (hundredths of a percent) on Home Assistant's scale of
/// 0 to 255, rounded halves up, at most 255.
pub open spec fn ha_brightness_of(b: u32) -> u8 {
    let v = (2 * (b as nat) * 255 + 10000) / 20000;
    if v > 255 {
        255
    } else {
        v as u8
    }
}

pub fn ha_brightness(b: u32) -> (r: u8)
    ensures
        r == ha_brightness_of(b),
{
    let v: u64 = (2 * (b as u64) * 255 + 10000) / 20000;
    if v > 255 {
        255
    } else {
        v as u8
    }
}

pub open spec fn plain_call(domain: HassEntityKind, service: HassService) -> HassServiceCall {
    HassServiceCall {
        domain,
        service,
        brightness: None,
        color_temp: None,
        xy_color: None,
        transition_ms: None,
    }
}

/// The call that a Hue light update becomes for an entity of this kind and
/// these capabilities, if any: a light that is turned off gets
/// `light.turn_off` and nothing else; otherwise brightness, color
/// temperature and color go along where the light supports them, and the
/// duration as the transition, in a `light.turn_on` made when the update
/// turns the light on or carries any of these. A switch is turned on or
/// off as asked. A binary sensor gets nothing.
pub open spec fn light_call_of(
    kind: HassEntityKind,
    caps: HassLightCapabilities,
    cmd: HueLightCommand,
) -> Option<HassServiceCall> {
    match kind {
        HassEntityKind::Light => if cmd.on == Some(false) {
            Some(plain_call(HassEntityKind::Light, HassService::TurnOff))
        } else {
            let brightness = if caps.supports_brightness && cmd.brightness is Some {
                Some(ha_brightness_of(cmd.brightness->0))
            } else {
                None
            };
            let color_temp = if caps.supports_color_temp {
                cmd.mirek
            } else {
                None
            };
            let xy_color = if caps.supports_color {
                cmd.xy
            } else {
                None
            };
            let call = HassServiceCall {
                domain: HassEntityKind::Light,
                service: HassService::TurnOn,
                brightness,
                color_temp,
                xy_color,
                transition_ms: cmd.duration_ms,
            };
            if cmd.on == Some(true) || brightness is Some || color_temp is Some || xy_color is Some
                || cmd.duration_ms is Some {
                Some(call)
            } else {
                None
            }
        },
        HassEntityKind::Switch => match cmd.on {
            Some(true) => Some(plain_call(HassEntityKind::Switch, HassService::TurnOn)),
            Some(false) => Some(plain_call(HassEntityKind::Switch, HassService::TurnOff)),
            None => None,
        },
        HassEntityKind::BinarySensor => None,
    }
}

/// The call that a Hue light update becomes (see `light_call_of`).
pub fn light_update_call(kind: HassEntityKind, caps: HassLightCapabilities, cmd: HueLightCommand) -> (r:
    Option<HassServiceCall>)
    ensures
        r == light_call_of(kind, caps, cmd),
{
    match kind {
        HassEntityKind::Light => {
            if cmd.on == Some(false) {
                return Some(
                    HassServiceCall {
                        domain: HassEntityKind::Light,
                        service: HassService::TurnOff,
                        brightness: None,
                        color_temp: None,
                        xy_color: None,
                        transition_ms: None,
                    },
                );
            }
            let brightness = if caps.supports_brightness {
                match cmd.brightness {
                    Some(b) => Some(ha_brightness(b)),
                    None => None,
                }
            } else {
                None
            };
            let color_temp = if caps.supports_color_temp {
                cmd.mirek
            } else {
                None
            };
            let xy_color = if caps.supports_color {
                cmd.xy
            } else {
                None
            };
            if cmd.on == Some(true) || brightness.is_some() || color_temp.is_some()
                || xy_color.is_some() || cmd.duration_ms.is_some() {
                Some(
                    HassServiceCall {
                        domain: HassEntityKind::Light,
                        service: HassService::TurnOn,
                        brightness,
                        color_temp,
                        xy_color,
                        transition_ms: cmd.duration_ms,
                    },
                )
            } else {
                None
            }
        },
        HassEntityKind::Switch => match cmd.on {
            Some(on) => Some(
                HassServiceCall {
                    domain: HassEntityKind::Switch,
                    service: if on {
                        HassService::TurnOn
                    } else {
                        HassService::TurnOff
                    },
                    brightness: None,
                    color_temp: None,
                    xy_color: None,
                    transition_ms: None,
                },
            ),
            None => None,
        },
        HassEntityKind::BinarySensor => None,
    }
}

/// The lower-case hex digit of a value below 16.
pub open spec fn hex_digit(v: u8) -> char
    recommends
        v < 16,
{
    if v < 10 {
        (('0' as u8) + v) as char
    } else {
        (('a' as u8) + v - 10) as char
    }
}

/// The EUI-64 style text of the first eight bytes of an id (most
/// significant first): two lower-case hex digits per byte, colon separated.
pub open spec fn ieee_text(id: u128) -> Seq<char> {
    Seq::new(
        23,
        |i: int|
            if i % 3 == 2 {
                ':'
            } else {
                let byte = ((id >> ((15 - i / 3) * 8) as u128) & 0xff) as u8;
                if i % 3 == 0 {
                    hex_digit(byte / 16)
                } else {
                    hex_digit(byte % 16)
                }
            },
    )
}

fn hex_char(v: u8) -> (r: char)
    requires
        v < 16,
    ensures
        r == hex_digit(v),
{
    if v < 10 {
        (('0' as u8) + v) as char
    } else {
        (('a' as u8) + v - 10) as char
    }
}

/// The EUI-64 style address that a zigbee connectivity of an imported
/// device carries (see `ieee_text`).
pub fn ieee_like_from_id(id: u128) -> (r: String)
    ensures
        r@ == ieee_text(id),
{
    let mut out = String::new();
    let mut k: u32 = 0;
    while k < 8
        invariant
            0 <= k <= 8,
            out@.len() == if k == 0 {
                0
            } else {
                3 * k - 1
            },
            forall|j: int| 0 <= j < out@.len() ==> out@[j] == ieee_text(id)[j],
        decreases 8 - k,
    {
        let shift: u32 = (15 - k) * 8;
        let byte = ((id >> shift) & 0xff) as u8;
        if k > 0 {
            push_char(&mut out, ':');
        }
        push_char(&mut out, hex_char(byte / 16));
        push_char(&mut out, hex_char(byte % 16));
        k = k + 1;
    }
    proof {
        assert(out@ =~= ieee_text(id));
    }
    out
}


pub open spec fn scene_prefix() -> Seq<char> {
    seq!['b', 'i', 'f', 'r', 'o', 's', 't', '_']
}

/// The Home Assistant scene id that a Hue scene is written back as:
/// `bifrost_` and the first 12 hex digits (lower case) of the scene's id.
pub open spec fn scene_id_text(rid: u128) -> Seq<char> {
    scene_prefix() + Seq::new(12, |i: int| hex_digit(((rid >> ((31 - i) * 4) as u128) & 0xf) as u8))
}

/// The Home Assistant scene id of a Hue scene (see `scene_id_text`).
pub fn hass_scene_id(rid: u128) -> (r: String)
    ensures
        r@ == scene_id_text(rid),
{
    let mut out = String::from_str("bifrost_");
    proof {
        reveal_strlit("bifrost_");
        assert(out@ =~= scene_prefix());
    }
    let mut k: u32 = 0;
    while k < 12
        invariant
            0 <= k <= 12,
            out@.len() == 8 + k,
            forall|j: int| 0 <= j < out@.len() ==> out@[j] == scene_id_text(rid)[j],
        decreases 12 - k,
    {
        let shift: u32 = (31 - k) * 4;
        let v: u128 = (rid >> shift) & 0xf;
        assert(v < 16) by (bit_vector)
            requires
                v == (rid >> shift) & 0xf,
        ;
        let nibble = v as u8;
        push_char(&mut out, hex_char(nibble));
        k = k + 1;
    }
    proof {
        assert(out@ =~= scene_id_text(rid));
    }
    out
}


/// Whether any member is on.
pub open spec fn any_on(members: Seq<(bool, Option<u8>)>) -> bool {
    exists|i: int| 0 <= i < members.len() && (#[trigger] members[i]).0
}

/// The sum and the count of the members' known brightness (0 to 255).
pub open spec fn brightness_total(members: Seq<(bool, Option<u8>)>) -> (nat, nat)
    decreases members.len(),
{
    if members.len() == 0 {
        (0, 0)
    } else {
        let (sum, n) = brightness_total(members.drop_last());
        match members.last().1 {
            Some(b) => (sum + b as nat, n + 1),
            None => (sum, n),
        }
    }
}

/// The state of a room's grouped light from its lights (on, and brightness
/// on Home Assistant's scale if known): on where any light is on, and the
/// mean brightness in hundredths of a percent, rounded halves up, where
/// any brightness is known.
pub open spec fn grouped_state_of(members: Seq<(bool, Option<u8>)>) -> (bool, Option<u32>) {
    let (sum, n) = brightness_total(members);
    (
        any_on(members),
        if n == 0 {
            None
        } else {
            Some(((2 * sum * 10000 + 255 * n) / (2 * 255 * n)) as u32)
        },
    )
}

proof fn lemma_brightness_total_bound(members: Seq<(bool, Option<u8>)>)
    ensures
        brightness_total(members).0 <= 255 * brightness_total(members).1,
        brightness_total(members).1 <= members.len(),
    decreases members.len(),
{
    if members.len() > 0 {
        lemma_brightness_total_bound(members.drop_last());
    }
}

/// The state of a room's grouped light (see `grouped_state_of`).
pub fn grouped_light_state(members: &Vec<(bool, Option<u8>)>) -> (r: (bool, Option<u32>))
    ensures
        r == grouped_state_of(members@),
{
    let mut on = false;
    let mut sum: u128 = 0;
    let mut n: u128 = 0;
    let mut i: usize = 0;
    while i < members.len()
        invariant
            0 <= i <= members@.len(),
            on == any_on(members@.subrange(0, i as int)),
            (sum as nat, n as nat) == brightness_total(members@.subrange(0, i as int)),
        decreases members@.len() - i,
    {
        let (m_on, m_bri) = members[i];
        proof {
            let s = members@.subrange(0, i + 1);
            assert(s.drop_last() =~= members@.subrange(0, i as int));
            assert(s.last() == members@[i as int]);
            lemma_brightness_total_bound(members@.subrange(0, i as int));
            if any_on(s) {
                let k = choose|k: int| 0 <= k < s.len() && (#[trigger] s[k]).0;
                if k < i {
                    assert(members@.subrange(0, i as int)[k] == s[k]);
                }
            }
            if any_on(members@.subrange(0, i as int)) {
                let k = choose|k: int| 0 <= k < i && (#[trigger] members@.subrange(0, i as int)[k]).0;
                assert(s[k] == members@.subrange(0, i as int)[k]);
            }
        }
        on = on || m_on;
        match m_bri {
            Some(b) => {
                sum = sum + b as u128;
                n = n + 1;
            },
            None => {},
        }
        i = i + 1;
    }
    proof {
        assert(members@.subrange(0, members@.len() as int) =~= members@);
        lemma_brightness_total_bound(members@);
    }
    if n == 0 {
        (on, None)
    } else {
        assert(2 * sum * 10000 + 255 * n <= 0xffff_ffff_ffff_ffff_ffff_ffff_ffff) by (nonlinear_arith)
            requires
                sum <= 255 * n,
                n <= 0xffff_ffff_ffff_ffff,
        ;
        let num: u128 = 2 * sum * 10000 + 255 * n;
        let den: u128 = 510 * n;
        let mean = num / den;
        assert(mean <= 10000) by (nonlinear_arith)
            requires
                sum <= 255 * n,
                n > 0,
                num == 2 * sum * 10000 + 255 * n,
                den == 510 * n,
                mean == num / den,
        ;
        (on, Some(mean as u32))
    }
}


/// The Hue service an imported entity becomes.
#[derive(Clone, Copy, Debug, PartialEq, Eq, Structural)]
pub enum HassServiceKind {
    Light,
    Switch,
    Motion,
    Contact,
}

/// A Home Assistant entity as the import reads it: brightness on Home
/// Assistant's scale of 0 to 255, color as CIE xy in ten-thousandths, color
/// temperature in mirek.
#[derive(Debug)]
pub struct ImportedEntity {
    pub entity_id: String,
    pub name: String,
    pub kind: HassEntityKind,
    pub service_kind: HassServiceKind,
    pub available: bool,
    pub on: bool,
    pub brightness: Option<u8>,
    pub xy_color: Option<Xy>,
    pub color_temp: Option<u16>,
    pub area_name: Option<String>,
    pub capabilities: HassLightCapabilities,
    pub detected_sensor_kind: Option<HassSensorKind>,
    pub switch_mode: Option<HassSwitchMode>,
    pub light_archetype: Option<HassLightArchetype>,
    pub sensor_enabled: bool,
}

pub open spec fn unavailable_word() -> Seq<char> {
    seq!['u', 'n', 'a', 'v', 'a', 'i', 'l', 'a', 'b', 'l', 'e']
}

pub open spec fn unknown_word() -> Seq<char> {
    seq!['u', 'n', 'k', 'n', 'o', 'w', 'n']
}

/// Whether an entity in this state is available, and whether it is on:
/// available unless the state is `unavailable` or `unknown`; on only when
/// available and the state is `on`.
pub open spec fn status_of(state: Seq<char>) -> (bool, bool) {
    let available = state != unavailable_word() && state != unknown_word();
    (available, available && state == seq!['o', 'n'])
}

/// Whether an entity in this state is available, and whether it is on (see
/// `status_of`).
pub fn entity_status(state: &str) -> (r: (bool, bool))
    ensures
        r == status_of(state@),
{
    let s = literal(state);
    let unavailable = literal("unavailable");
    let unknown = literal("unknown");
    let on = literal("on");
    proof {
        reveal_strlit("unavailable");
        reveal_strlit("unknown");
        reveal_strlit("on");
        assert(unavailable@ =~= unavailable_word());
        assert(unknown@ =~= unknown_word());
        assert(on@ =~= seq!['o', 'n']);
    }
    let available = !(s == unavailable) && !(s == unknown);
    (available, available && s == on)
}

/// The name an entity is shown under: its friendly name, else its id.
pub fn display_name(friendly_name: Option<&str>, entity_id: &str) -> (r: String)
    ensures
        r@ == match friendly_name {
            Some(n) => n@,
            None => entity_id@,
        },
{
    match friendly_name {
        Some(n) => literal(n),
        None => literal(entity_id),
    }
}

/// A color temperature kept within 153 to 500 mirek.
pub open spec fn clamped_mirek(m: u16) -> u16 {
    if m < 153 {
        153
    } else if m > 500 {
        500
    } else {
        m
    }
}

pub fn clamp_color_temp(m: u16) -> (r: u16)
    ensures
        r == clamped_mirek(m),
{
    if m < 153 {
        153
    } else if m > 500 {
        500
    } else {
        m
    }
}

/// The service an entity becomes before user choices: lights and switches
/// their own kind; a binary sensor a contact where it was detected as one,
/// else a motion sensor.
pub open spec fn service_kind_of(kind: HassEntityKind, detected: HassSensorKind) -> HassServiceKind {
    match kind {
        HassEntityKind::Light => HassServiceKind::Light,
        HassEntityKind::Switch => HassServiceKind::Switch,
        HassEntityKind::BinarySensor => if detected == HassSensorKind::Contact {
            HassServiceKind::Contact
        } else {
            HassServiceKind::Motion
        },
    }
}

pub fn default_service_kind(kind: HassEntityKind, detected: HassSensorKind) -> (r: HassServiceKind)
    ensures
        r == service_kind_of(kind, detected),
{
    match kind {
        HassEntityKind::Light => HassServiceKind::Light,
        HassEntityKind::Switch => HassServiceKind::Switch,
        HassEntityKind::BinarySensor => if detected == HassSensorKind::Contact {
            HassServiceKind::Contact
        } else {
            HassServiceKind::Motion
        },
    }
}

/// A Home Assistant brightness (0 to 255) in hundredths of a percent,
/// rounded halves up.
pub open spec fn hue_brightness_of(b: u8) -> u32 {
    ((2 * (b as nat) * 10000 + 255) / 510) as u32
}

pub open spec fn d65() -> Xy {
    Xy { x: 3127, y: 3290 }
}

/// The state a Hue light shows for an imported entity, given the state it
/// showed before: on follows the entity; a switch or binary sensor has no
/// dimming, color or color temperature; a light keeps each of them only
/// where it supports it, taking the entity's value, else the previous one,
/// else full brightness, the D65 white point and 366 mirek.
pub open spec fn projected_light(prev: Option<LightState>, e: ImportedEntity) -> LightState {
    if e.kind != HassEntityKind::Light {
        LightState { on: e.on, brightness: None, xy: None, mirek: None }
    } else {
        let caps = e.capabilities;
        LightState {
            on: e.on,
            brightness: if !caps.supports_brightness {
                None
            } else if e.brightness is Some {
                Some(hue_brightness_of(e.brightness->0))
            } else if prev is Some && prev->0.brightness is Some {
                prev->0.brightness
            } else {
                Some(10000)
            },
            xy: if !caps.supports_color {
                None
            } else if e.xy_color is Some {
                e.xy_color
            } else if prev is Some && prev->0.xy is Some {
                prev->0.xy
            } else {
                Some(d65())
            },
            mirek: if !caps.supports_color_temp {
                None
            } else if e.color_temp is Some {
                e.color_temp
            } else if prev is Some && prev->0.mirek is Some {
                prev->0.mirek
            } else {
                Some(366)
            },
        }
    }
}

/// The state a Hue light shows for an imported entity (see
/// `projected_light`).
pub fn project_light(prev: Option<LightState>, e: &ImportedEntity) -> (r: LightState)
    ensures
        r == projected_light(prev, *e),
{
    if e.kind != HassEntityKind::Light {
        return LightState { on: e.on, brightness: None, xy: None, mirek: None };
    }
    let caps = e.capabilities;
    let brightness = if !caps.supports_brightness {
        None
    } else {
        match e.brightness {
            Some(b) => Some(((2 * (b as u32) * 10000 + 255) / 510) as u32),
            None => match prev {
                Some(p) if p.brightness.is_some() => p.brightness,
                _ => Some(10000u32),
            },
        }
    };
    let xy = if !caps.supports_color {
        None
    } else {
        match e.xy_color {
            Some(c) => Some(c),
            None => match prev {
                Some(p) if p.xy.is_some() => p.xy,
                _ => Some(Xy { x: 3127, y: 3290 }),
            },
        }
    };
    let mirek = if !caps.supports_color_temp {
        None
    } else {
        match e.color_temp {
            Some(m) => Some(m),
            None => match prev {
                Some(p) if p.mirek.is_some() => p.mirek,
                _ => Some(366u16),
            },
        }
    };
    LightState { on: e.on, brightness, xy, mirek }
}

/// `hass:<backend>:<entity id>`, the key the ids of an entity's resources
/// are derived from.
pub open spec fn entity_key(backend: Seq<char>, entity_id: Seq<char>) -> Seq<char> {
    seq!['h', 'a', 's', 's', ':'] + backend + seq![':'] + entity_id
}

pub open spec fn hass_link(t: RType, key: Seq<char>, suffix: Seq<char>) -> ResourceLink {
    ResourceLink { rid: derived_id(t, key_bytes_of_str(key + suffix)), rtype: t }
}

pub open spec fn device_link_of(backend: Seq<char>, entity_id: Seq<char>) -> ResourceLink {
    hass_link(RType::Device, entity_key(backend, entity_id), seq![':', 'd', 'e', 'v', 'i', 'c', 'e'])
}

pub open spec fn zbc_link_of(backend: Seq<char>, entity_id: Seq<char>) -> ResourceLink {
    hass_link(RType::ZigbeeConnectivity, entity_key(backend, entity_id), seq![':', 'z', 'b', 'c'])
}

/// The service of an entity: a light (for lights and switches), a motion
/// or a contact sensor.
pub open spec fn service_link_of(backend: Seq<char>, entity_id: Seq<char>, k: HassServiceKind) -> ResourceLink {
    let key = entity_key(backend, entity_id);
    match k {
        HassServiceKind::Motion => hass_link(RType::Motion, key, seq![':', 'm', 'o', 't', 'i', 'o', 'n']),
        HassServiceKind::Contact => hass_link(RType::Contact, key, seq![':', 'c', 'o', 'n', 't', 'a', 'c', 't']),
        _ => hass_link(RType::Light, key, seq![':', 'l', 'i', 'g', 'h', 't']),
    }
}

pub open spec fn domain_word(k: HassEntityKind) -> Seq<char> {
    match k {
        HassEntityKind::Light => light_word(),
        HassEntityKind::Switch => switch_word(),
        HassEntityKind::BinarySensor => binary_sensor_word(),
    }
}

pub open spec fn manufacturer_word() -> Seq<char> {
    seq!['H', 'o', 'm', 'e', ' ', 'A', 's', 's', 'i', 's', 't', 'a', 'n', 't']
}

/// The device of an imported entity: made by Home Assistant, model
/// `hass-<domain>`, named like the entity, holding its service and its
/// zigbee connectivity.
pub open spec fn device_view(backend: Seq<char>, e: ImportedEntity) -> ResView {
    ResView {
        link: device_link_of(backend, e.entity_id@),
        owner: None,
        links: seq![service_link_of(backend, e.entity_id@, e.service_kind), zbc_link_of(backend, e.entity_id@)],
        data: DataView::Device {
            manufacturer: manufacturer_word(),
            model_id: seq!['h', 'a', 's', 's', '-'] + domain_word(e.kind),
            name: e.name@,
        },
    }
}

/// The zigbee connectivity of an imported entity's device, with the
/// EUI-64 style address of the device's id.
pub open spec fn zbc_view(backend: Seq<char>, e: ImportedEntity) -> ResView {
    ResView {
        link: zbc_link_of(backend, e.entity_id@),
        owner: Some(device_link_of(backend, e.entity_id@)),
        links: Seq::empty(),
        data: DataView::Zigbee { mac_address: ieee_text(device_link_of(backend, e.entity_id@).rid) },
    }
}

/// The light state a store shows at this id, if any.
pub open spec fn light_at(nodes: Seq<ResView>, rid: u128) -> Option<LightState> {
    if exists|i: int| 0 <= i < nodes.len() && (#[trigger] nodes[i]).link.rid == rid && nodes[i].data is Light {
        let i = choose|i: int| 0 <= i < nodes.len() && (#[trigger] nodes[i]).link.rid == rid && nodes[i].data is Light;
        Some(nodes[i].data->Light_0)
    } else {
        None
    }
}

/// The service of an imported entity, owned by its device; a light shows
/// the projected state.
pub open spec fn service_view(backend: Seq<char>, e: ImportedEntity, prev: Option<LightState>) -> ResView {
    ResView {
        link: service_link_of(backend, e.entity_id@, e.service_kind),
        owner: Some(device_link_of(backend, e.entity_id@)),
        links: Seq::empty(),
        data: match e.service_kind {
            HassServiceKind::Light | HassServiceKind::Switch => DataView::Light(projected_light(prev, e)),
            _ => DataView::Other,
        },
    }
}

fn suffixed(key: &String, suffix: &str) -> (r: String)
    ensures
        r@ == key@ + suffix@,
{
    let mut r = key.clone();
    r.append(suffix);
    r
}

impl Resources {
    /// The light state at this id, if the resource there is a light.
    fn light_state_at(&self, rid: u128) -> (r: Option<LightState>)
        requires
            self.wf(),
        ensures
            r == light_at(self.nodes(), rid),
    {
        match self.get(rid) {
            Some(n) => match n.data {
                ResourceData::Light(l) => {
                    proof {
                        let i = choose|i: int| 0 <= i < self.nodes().len() && (#[trigger] self.nodes()[i]) == n@;
                        assert(self.nodes()[i].link.rid == rid && self.nodes()[i].data is Light);
                        let j = choose|j: int| 0 <= j < self.nodes().len() && (#[trigger] self.nodes()[j]).link.rid == rid && self.nodes()[j].data is Light;
                        assert(i == j);
                    }
                    Some(l)
                },
                _ => {
                    proof {
                        let i = choose|i: int| 0 <= i < self.nodes().len() && (#[trigger] self.nodes()[i]) == n@;
                        assert forall|j: int| 0 <= j < self.nodes().len() && (#[trigger] self.nodes()[j]).link.rid == rid implies !(self.nodes()[j].data is Light) by {
                            assert(i == j);
                        }
                    }
                    None
                },
            },
            None => None,
        }
    }
}

/// Imports one entity: its device, the device's zigbee connectivity and
/// its service are put into the store under ids derived from
/// `hass:<backend>:<entity id>`, replacing what was there; a light's state
/// is projected from the entity and what the light showed before. Where
/// the three ids differ, each of the three is in the store afterwards as
/// stated, and every resource with another id is left where and as it was.
pub fn upsert_entity(res: &mut Resources, backend: &str, e: &ImportedEntity)
    requires
        old(res).wf(),
        old(res).event_stream().spec_next_id() + 3 < u64::MAX,
    ensures
        final(res).wf(),
        final(res).nodes() == put_result(
            put_result(put_result(old(res).nodes(), device_view(backend@, *e)), zbc_view(backend@, *e)),
            service_view(
                backend@,
                *e,
                light_at(old(res).nodes(), service_link_of(backend@, e.entity_id@, e.service_kind).rid),
            ),
        ),
        final(res).v1_ids() == old(res).v1_ids(),
        final(res).event_stream().spec_next_id() <= old(res).event_stream().spec_next_id() + 3,
        has_node(old(res).nodes(), device_view(backend@, *e)) && has_node(old(res).nodes(), zbc_view(backend@, *e))
            && has_node(
            old(res).nodes(),
            service_view(
                backend@,
                *e,
                light_at(old(res).nodes(), service_link_of(backend@, e.entity_id@, e.service_kind).rid),
            ),
        ) ==> final(res).nodes() == old(res).nodes() && final(res).event_stream() == old(res).event_stream(),
        ({
            let d = device_link_of(backend@, e.entity_id@).rid;
            let z = zbc_link_of(backend@, e.entity_id@).rid;
            let v = service_link_of(backend@, e.entity_id@, e.service_kind).rid;
            d != z && d != v && z != v ==> has_node(final(res).nodes(), device_view(backend@, *e))
                && has_node(final(res).nodes(), zbc_view(backend@, *e))
                && has_node(final(res).nodes(), service_view(backend@, *e, light_at(old(res).nodes(), v)))
                && forall|j: int|
                    0 <= j < old(res).nodes().len() && old(res).nodes()[j].link.rid != d
                        && old(res).nodes()[j].link.rid != z && old(res).nodes()[j].link.rid != v
                        ==> #[trigger] final(res).nodes()[j] == old(res).nodes()[j]
        }),
{
    let mut key = String::from_str("hass:");
    key.append(backend);
    key.append(":");
    key.append(e.entity_id.as_str());
    proof {
        reveal_strlit("hass:");
        reveal_strlit(":");
        assert(key@ =~= entity_key(backend@, e.entity_id@));
        reveal_strlit(":device");
        reveal_strlit(":zbc");
        reveal_strlit(":light");
        reveal_strlit(":motion");
        reveal_strlit(":contact");
        reveal_strlit("Home Assistant");
        reveal_strlit("hass-");
        reveal_strlit("light");
        reveal_strlit("switch");
        reveal_strlit("binary_sensor");
    }
    let dev = RType::Device.deterministic(suffixed(&key, ":device").as_str());
    let zbc = RType::ZigbeeConnectivity.deterministic(suffixed(&key, ":zbc").as_str());
    let service = match e.service_kind {
        HassServiceKind::Motion => RType::Motion.deterministic(suffixed(&key, ":motion").as_str()),
        HassServiceKind::Contact => RType::Contact.deterministic(suffixed(&key, ":contact").as_str()),
        _ => RType::Light.deterministic(suffixed(&key, ":light").as_str()),
    };
    proof {
        assert(":device"@ =~= seq![':', 'd', 'e', 'v', 'i', 'c', 'e']);
        assert(":zbc"@ =~= seq![':', 'z', 'b', 'c']);
        assert(":light"@ =~= seq![':', 'l', 'i', 'g', 'h', 't']);
        assert(":motion"@ =~= seq![':', 'm', 'o', 't', 'i', 'o', 'n']);
        assert(":contact"@ =~= seq![':', 'c', 'o', 'n', 't', 'a', 'c', 't']);
        assert(dev == device_link_of(backend@, e.entity_id@));
        assert(zbc == zbc_link_of(backend@, e.entity_id@));
        assert(service == service_link_of(backend@, e.entity_id@, e.service_kind));
    }
    let ghost n0 = res.nodes();
    let prev = res.light_state_at(service.rid);
    let mut model_id = literal("hass-");
    match e.kind {
        HassEntityKind::Light => model_id.append("light"),
        HassEntityKind::Switch => model_id.append("switch"),
        HassEntityKind::BinarySensor => model_id.append("binary_sensor"),
    }
    proof {
        assert(model_id@ =~= seq!['h', 'a', 's', 's', '-'] + domain_word(e.kind));
        assert("Home Assistant"@ =~= manufacturer_word());
    }
    let mut dev_links: Vec<ResourceLink> = Vec::new();
    dev_links.push(service);
    dev_links.push(zbc);
    assert(dev_links@ =~= seq![service, zbc]);
    let device = StoredResource {
        link: dev,
        owner: None,
        links: dev_links,
        data: ResourceData::Device { manufacturer: literal("Home Assistant"), model_id, name: e.name.clone() },
    };
    assert(device@ =~~= device_view(backend@, *e));
    res.put(device);
    let ghost n1 = res.nodes();
    let zb = StoredResource {
        link: zbc,
        owner: Some(dev),
        links: Vec::new(),
        data: ResourceData::Zigbee { mac_address: ieee_like_from_id(dev.rid) },
    };
    assert(zb@ =~~= zbc_view(backend@, *e));
    res.put(zb);
    let ghost n2 = res.nodes();
    let data = match e.service_kind {
        HassServiceKind::Light | HassServiceKind::Switch => ResourceData::Light(project_light(prev, e)),
        _ => ResourceData::Other,
    };
    let svc = StoredResource { link: service, owner: Some(dev), links: Vec::new(), data };
    assert(svc@ =~~= service_view(backend@, *e, prev));
    let ghost sv = svc@;
    res.put(svc);
    proof {
        let dv = device_view(backend@, *e);
        let zv = zbc_view(backend@, *e);
        if has_node(n0, dv) && has_node(n0, zv) && has_node(n0, sv) {
            lemma_put_present(n0, dv);
            lemma_put_present(n1, zv);
            lemma_put_present(n2, sv);
        }
        lemma_put_result(n0, dv);
        lemma_put_result(n1, zv);
        lemma_put_result(n2, sv);
        if dev.rid != zbc.rid && dev.rid != service.rid && zbc.rid != service.rid {
            assert forall|j: int|
                0 <= j < n0.len() && n0[j].link.rid != dev.rid && n0[j].link.rid != zbc.rid
                    && n0[j].link.rid != service.rid implies #[trigger] res.nodes()[j] == n0[j] by {
                assert(n1[j] == n0[j]);
                assert(n2[j] == n1[j]);
            }
        }
    }
}


/// `hass:<backend>:<entity id>:device`, the key an entity's device id is
/// derived from.
pub fn device_key(backend: &str, entity_id: &str) -> (r: String)
    ensures
        r@ == entity_key(backend@, entity_id@) + seq![':', 'd', 'e', 'v', 'i', 'c', 'e'],
{
    let mut key = String::from_str("hass:");
    key.append(backend);
    key.append(":");
    key.append(entity_id);
    key.append(":device");
    proof {
        reveal_strlit("hass:");
        reveal_strlit(":");
        reveal_strlit(":device");
        assert(key@ =~= entity_key(backend@, entity_id@) + seq![':', 'd', 'e', 'v', 'i', 'c', 'e']);
    }
    key
}


/// An imported entity with the user's choices applied: the alias as its
/// name; for a switch, how it is shown; for a light, or a switch shown as
/// one, its archetype; for a binary sensor, the sensor kind chosen (an
/// ignored one keeps the service kind) and whether it is enabled.
pub fn apply_overrides(ui: &HassUiConfig, e: ImportedEntity) -> (r: ImportedEntity)
    requires
        ui.wf(),
    ensures
        r.entity_id@ == e.entity_id@,
        r.kind == e.kind,
        r.available == e.available,
        r.on == e.on,
        r.brightness == e.brightness,
        r.xy_color == e.xy_color,
        r.color_temp == e.color_temp,
        opt_view(r.area_name) == opt_view(e.area_name),
        r.capabilities == e.capabilities,
        r.detected_sensor_kind == e.detected_sensor_kind,
        r.name@ == match base_pref(ui@.entity_preferences, e.entity_id@).alias {
            Some(a) => a,
            None => e.name@,
        },
        r.switch_mode == if e.kind == HassEntityKind::Switch {
            Some(
                match base_pref(ui@.entity_preferences, e.entity_id@).switch_mode {
                    Some(m) => m,
                    None => HassSwitchMode::Plug,
                },
            )
        } else {
            e.switch_mode
        },
        r.light_archetype == if e.kind == HassEntityKind::Light || (e.kind == HassEntityKind::Switch
            && r.switch_mode == Some(HassSwitchMode::Light)) {
            Some(
                match base_pref(ui@.entity_preferences, e.entity_id@).light_archetype {
                    Some(a) => a,
                    None => HassLightArchetype::ClassicBulb,
                },
            )
        } else {
            e.light_archetype
        },
        r.service_kind == if e.kind == HassEntityKind::BinarySensor {
            match (match base_pref(ui@.entity_preferences, e.entity_id@).sensor_kind {
                Some(k) => k,
                None => match e.detected_sensor_kind {
                    Some(d) => d,
                    None => HassSensorKind::Ignore,
                },
            }) {
                HassSensorKind::Motion => HassServiceKind::Motion,
                HassSensorKind::Contact => HassServiceKind::Contact,
                HassSensorKind::Ignore => e.service_kind,
            }
        } else {
            e.service_kind
        },
        r.sensor_enabled == if e.kind == HassEntityKind::BinarySensor {
            match base_pref(ui@.entity_preferences, e.entity_id@).sensor_enabled {
                Some(b) => b,
                None => true,
            }
        } else {
            e.sensor_enabled
        },
{
    let mut e = e;
    match ui.entity_alias(e.entity_id.as_str()) {
        Some(a) => {
            e.name = a;
        },
        None => {},
    }
    if e.kind == HassEntityKind::Switch {
        e.switch_mode = Some(ui.switch_mode(e.entity_id.as_str()));
    }
    if e.kind == HassEntityKind::Light || (e.kind == HassEntityKind::Switch && e.switch_mode
        == Some(HassSwitchMode::Light)) {
        e.light_archetype = Some(ui.light_archetype(e.entity_id.as_str()));
    }
    if e.kind == HassEntityKind::BinarySensor {
        let detected = match e.detected_sensor_kind {
            Some(d) => d,
            None => HassSensorKind::Ignore,
        };
        e.service_kind = match ui.sensor_kind(e.entity_id.as_str(), detected) {
            HassSensorKind::Motion => HassServiceKind::Motion,
            HassSensorKind::Contact => HassServiceKind::Contact,
            HassSensorKind::Ignore => e.service_kind,
        };
        e.sensor_enabled = ui.sensor_enabled(e.entity_id.as_str());
    }
    e
}

} // verus!
