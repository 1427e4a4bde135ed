use vstd::prelude::*;
use vstd::string::StrSliceExecFns;
use vstd::string::StringExecFns;

use crate::hass_import::{HueLightCommand, Xy};
use crate::rtype::ResourceLink;

verus! {

pub open spec fn token_key() -> Seq<char> {
    seq!['t', 'o', 'k', 'e', 'n', '=']
}

pub open spec fn default_token() -> Seq<char> {
    seq![
        'y', 'o', 'u', 'r', '-', 's', 'e', 'c', 'r', 'e', 't', '-', 't', 'o', 'k', 'e', 'n',
    ]
}

pub open spec fn redacted() -> Seq<char> {
    seq!['<', '<', 'R', 'E', 'D', 'A', 'C', 'T', 'E', 'D', '>', '>']
}

/// Where `p` first occurs in `s` at or after `i`.
pub open spec fn find_from(s: Seq<char>, p: Seq<char>, i: int) -> Option<int>
    decreases s.len() + 1 - i,
{
    if i < 0 || i + p.len() > s.len() {
        None
    } else if s.subrange(i, i + p.len()) == p {
        Some(i)
    } else {
        find_from(s, p, i + 1)
    }
}

/// A z2m URL fit to show: a token other than z2m's default placeholder is
/// replaced by `<<REDACTED>>`, together with all that follows it.
pub open spec fn sanitized_url(url: Seq<char>) -> Seq<char> {
    match find_from(url, token_key(), 0) {
        Some(o) => if url.subrange(o + 6, url.len() as int) == default_token() {
            url
        } else {
            url.subrange(0, o) + token_key() + redacted()
        },
        None => url,
    }
}

/// The z2m URL fit to show in logs and the user interface (see
/// `sanitized_url`).
pub fn sanitize_url(url: &str) -> (r: String)
    ensures
        r@ == sanitized_url(url@),
{
    let n = url.unicode_len();
    let key = String::from_str("token=");
    proof {
        reveal_strlit("token=");
        assert(key@ =~= token_key());
    }
    let mut i: usize = 0;
    while n >= 6 && i <= n - 6
        invariant
            n == url@.len(),
            key@ == token_key(),
            find_from(url@, token_key(), 0) == find_from(url@, token_key(), i as int),
        decreases n - i,
    {
        let part = String::from_str(url.substring_char(i, i + 6));
        if part == key {
            proof {
                assert(url@.subrange(i as int, i + 6) == token_key());
                assert(find_from(url@, token_key(), i as int) == Some(i as int));
            }
            let rest = String::from_str(url.substring_char(i + 6, n));
            let placeholder = String::from_str("your-secret-token");
            proof {
                reveal_strlit("your-secret-token");
                assert(placeholder@ =~= default_token());
            }
            if rest == placeholder {
                return String::from_str(url);
            }
            let mut out = String::from_str(url.substring_char(0, i));
            out.append("token=");
            out.append("<<REDACTED>>");
            proof {
                reveal_strlit("token=");
                reveal_strlit("<<REDACTED>>");
                assert("token="@ =~= token_key());
                assert("<<REDACTED>>"@ =~= redacted());
                assert(rest@ != default_token());
                assert(out@ =~= sanitized_url(url@));
            }
            return out;
        }
        i = i + 1;
    }
    String::from_str(url)
}


#[derive(Clone, Copy, Debug, PartialEq, Eq, Structural)]
pub enum DeviceEffect {
    Breathe,
    FinishEffect,
}

/// A generic z2m device update: state, brightness on z2m's scale of 0 to
/// 254, color temperature in mirek, color as CIE xy in ten-thousandths,
/// transition in milliseconds, and an effect.
#[derive(Clone, Copy, Debug, PartialEq, Eq, Structural)]
pub struct Z2mDeviceUpdate {
    pub state: Option<bool>,
    pub brightness: Option<u32>,
    pub color_temp: Option<u16>,
    pub color_xy: Option<Xy>,
    pub transition_ms: Option<u32>,
    pub effect: Option<DeviceEffect>,
}

/// A Hue brightness (hundredths of a percent) on z2m's scale of 0 to 254,
/// rounded halves up.
pub open spec fn z2m_brightness_of(b: u32) -> u32 {
    ((2 * (b as nat) * 254 + 10000) / 20000) as u32
}

/// The transition z2m is asked for: the update's own duration, else 400 ms
/// where the update changes state, brightness, color temperature or color.
pub open spec fn transition_of(cmd: HueLightCommand) -> Option<u32> {
    if cmd.duration_ms is Some {
        cmd.duration_ms
    } else if cmd.on is Some || cmd.brightness is Some || cmd.mirek is Some || cmd.xy is Some {
        Some(400)
    } else {
        None
    }
}

/// The z2m update that a Hue light update becomes; `identify` makes the
/// light breathe.
pub open spec fn device_update_of(cmd: HueLightCommand, identify: bool) -> Z2mDeviceUpdate {
    Z2mDeviceUpdate {
        state: cmd.on,
        brightness: match cmd.brightness {
            Some(b) => Some(z2m_brightness_of(b)),
            None => None,
        },
        color_temp: cmd.mirek,
        color_xy: cmd.xy,
        transition_ms: transition_of(cmd),
        effect: if identify {
            Some(DeviceEffect::Breathe)
        } else {
            None
        },
    }
}

/// The z2m update that a Hue light update becomes (see `device_update_of`).
pub fn light_device_update(cmd: HueLightCommand, identify: bool) -> (r: Z2mDeviceUpdate)
    requires
        cmd.brightness is Some ==> cmd.brightness->0 <= 10000,
    ensures
        r == device_update_of(cmd, identify),
{
    let brightness = match cmd.brightness {
        Some(b) => Some(((2 * (b as u64) * 254 + 10000) / 20000) as u32),
        None => None,
    };
    let transition_ms = match cmd.duration_ms {
        Some(d) => Some(d),
        None => if cmd.on.is_some() || cmd.brightness.is_some() || cmd.mirek.is_some() || cmd.xy.is_some() {
            Some(400u32)
        } else {
            None
        },
    };
    Z2mDeviceUpdate {
        state: cmd.on,
        brightness,
        color_temp: cmd.mirek,
        color_xy: cmd.xy,
        transition_ms,
        effect: if identify {
            Some(DeviceEffect::Breathe)
        } else {
            None
        },
    }
}

fn links_contain(v: &Vec<ResourceLink>, l: ResourceLink) -> (r: bool)
    ensures
        r == v@.contains(l),
{
    let mut i: usize = 0;
    while i < v.len()
        invariant
            0 <= i <= v@.len(),
            forall|j: int| 0 <= j < i ==> v@[j] != l,
        decreases v@.len() - i,
    {
        if v[i] == l {
            assert(v@[i as int] == l);
            return true;
        }
        i = i + 1;
    }
    false
}

/// The known links of `from` that `other` lacks, each once.
fn known_difference(from: &Vec<ResourceLink>, other: &Vec<ResourceLink>, known: &Vec<ResourceLink>) -> (r: Vec<
    ResourceLink,
>)
    ensures
        forall|l: ResourceLink| r@.contains(l) <==> (known@.contains(l) && from@.contains(l) && !other@.contains(l)),
        r@.no_duplicates(),
{
    let mut out: Vec<ResourceLink> = Vec::new();
    let mut i: usize = 0;
    while i < from.len()
        invariant
            0 <= i <= from@.len(),
            forall|l: ResourceLink|
                out@.contains(l) <==> (known@.contains(l) && from@.subrange(0, i as int).contains(l)
                    && !other@.contains(l)),
            out@.no_duplicates(),
        decreases from@.len() - i,
    {
        let l = from[i];
        let ghost s0 = from@.subrange(0, i as int);
        let ghost s1 = from@.subrange(0, i + 1);
        let ghost out0 = out@;
        proof {
            assert(s1 =~= s0.push(l));
            assert forall|x: ResourceLink| s1.contains(x) <==> (s0.contains(x) || x == l) by {
                if s1.contains(x) {
                    let k = choose|k: int| 0 <= k < s1.len() && s1[k] == x;
                    if k < s0.len() {
                        assert(s0[k] == x);
                    }
                }
                if s0.contains(x) {
                    let k = choose|k: int| 0 <= k < s0.len() && s0[k] == x;
                    assert(s1[k] == x);
                }
                if x == l {
                    assert(s1[i as int] == x);
                }
            }
        }
        let keep = links_contain(known, l) && !links_contain(other, l);
        if keep && !links_contain(&out, l) {
            let ghost before = out@;
            out.push(l);
            proof {
                assert forall|x: ResourceLink| out@.contains(x) <==> (before.contains(x) || x == l) by {
                    if out@.contains(x) {
                        let k = choose|k: int| 0 <= k < out@.len() && out@[k] == x;
                        if k < before.len() {
                            assert(before[k] == x);
                        }
                    }
                    if before.contains(x) {
                        let k = choose|k: int| 0 <= k < before.len() && before[k] == x;
                        assert(out@[k] == x);
                    }
                    if x == l {
                        assert(out@[before.len() as int] == x);
                    }
                }
                assert forall|a: int, b: int| 0 <= a < out@.len() && 0 <= b < out@.len() && a != b implies out@[a] != out@[b] by {
                    if a < before.len() && b < before.len() {
                        assert(out@[a] == before[a] && out@[b] == before[b]);
                    } else if a < before.len() {
                        assert(before.contains(out@[a]));
                    } else if b < before.len() {
                        assert(before.contains(out@[b]));
                    }
                }
            }
        }
        proof {
            assert forall|x: ResourceLink| out@.contains(x) <==> (known@.contains(x) && s1.contains(x)
                && !other@.contains(x)) by {
                if x != l {
                    assert(out@.contains(x) <==> out0.contains(x));
                }
            }
        }
        i = i + 1;
    }
    proof {
        assert(from@.subrange(0, from@.len() as int) =~= from@);
    }
    out
}

/// The group members to add and to remove when a room's children change
/// from `existing` to `new`; only devices that z2m knows (`known`) count.
pub fn room_member_changes(
    existing: &Vec<ResourceLink>,
    new: &Vec<ResourceLink>,
    known: &Vec<ResourceLink>,
) -> (r: (Vec<ResourceLink>, Vec<ResourceLink>))
    ensures
        forall|l: ResourceLink|
            r.0@.contains(l) <==> (known@.contains(l) && new@.contains(l) && !existing@.contains(l)),
        forall|l: ResourceLink|
            r.1@.contains(l) <==> (known@.contains(l) && existing@.contains(l) && !new@.contains(l)),
        r.0@.no_duplicates(),
        r.1@.no_duplicates(),
{
    (known_difference(new, existing, known), known_difference(existing, new, known))
}

} // verus!
