use vstd::prelude::*;
use vstd::set_lib::{lemma_int_range, lemma_len_subset, lemma_map_size, set_int_range};
use vstd::string::StrSliceExecFns;
use vstd::string::StringExecFns;

use crate::hass_ui::{
    any_eq_ignore_case, area_room, default_room_id, normalized, rooms_view, strs_view,
    HassRoomConfig, HassUiConfig, RoomView, UiConfigView,
};
use crate::text::{lower, lower_text, push_char, sanitize, sanitized, text_eq_ignore_case};

verus! {

pub open spec fn digit_char(d: nat) -> char {
    if d == 0 {
        '0'
    } else if d == 1 {
        '1'
    } else if d == 2 {
        '2'
    } else if d == 3 {
        '3'
    } else if d == 4 {
        '4'
    } else if d == 5 {
        '5'
    } else if d == 6 {
        '6'
    } else if d == 7 {
        '7'
    } else if d == 8 {
        '8'
    } else {
        '9'
    }
}

fn digit(d: usize) -> (r: char)
    requires
        d < 10,
    ensures
        r == digit_char(d as nat),
{
    if d == 0 {
        '0'
    } else if d == 1 {
        '1'
    } else if d == 2 {
        '2'
    } else if d == 3 {
        '3'
    } else if d == 4 {
        '4'
    } else if d == 5 {
        '5'
    } else if d == 6 {
        '6'
    } else if d == 7 {
        '7'
    } else if d == 8 {
        '8'
    } else {
        '9'
    }
}

/// The decimal digits of `n`.
pub open spec fn decimal(n: nat) -> Seq<char>
    decreases n,
{
    if n < 10 {
        seq![digit_char(n)]
    } else {
        decimal(n / 10).push(digit_char(n % 10))
    }
}

/// The id tried in turn for a room made for an area: the base first, then
/// the base with `-2`, `-3`, and so on.
pub open spec fn candidate(base: Seq<char>, k: nat) -> Seq<char> {
    if k <= 1 {
        base
    } else {
        base + seq!['-'] + decimal(k)
    }
}

pub open spec fn area_prefix() -> Seq<char> {
    seq!['a', 'r', 'e', 'a', '-']
}

/// The first id tried for a room made for an area: `area-` and the area's
/// name sanitized, or `area-room` where that is empty.
pub open spec fn area_base(area: Seq<char>) -> Seq<char> {
    if sanitized(area).len() > 0 {
        area_prefix() + sanitized(area)
    } else {
        area_prefix() + seq!['r', 'o', 'o', 'm']
    }
}

/// The document with a room made for an area, under the given id.
pub open spec fn with_area_room(v: UiConfigView, id: Seq<char>, area: Seq<char>) -> UiConfigView {
    UiConfigView {
        rooms: v.rooms.push(RoomView { id, name: area, source_area: Some(area), auto_created: true }),
        ..v
    }
}

proof fn lemma_decimal_digits(n: nat)
    ensures
        decimal(n).len() >= 1,
        n >= 10 ==> decimal(n).len() >= 2,
        forall|i: int| 0 <= i < decimal(n).len() ==> '0' <= #[trigger] decimal(n)[i] <= '9',
    decreases n,
{
    if n >= 10 {
        lemma_decimal_digits(n / 10);
        let d = decimal(n / 10);
        assert forall|i: int| 0 <= i < decimal(n).len() implies '0' <= #[trigger] decimal(n)[i] <= '9' by {
            if i < d.len() {
                assert(decimal(n)[i] == d[i]);
            }
        }
    }
}

proof fn lemma_digit_injective(x: nat, y: nat)
    requires
        x < 10,
        y < 10,
        digit_char(x) == digit_char(y),
    ensures
        x == y,
{
    if x == 0 {
    } else if x == 1 {
    } else if x == 2 {
    } else if x == 3 {
    } else if x == 4 {
    } else if x == 5 {
    } else if x == 6 {
    } else if x == 7 {
    } else if x == 8 {
    } else {
    }
}

proof fn lemma_decimal_injective(a: nat, b: nat)
    requires
        decimal(a) == decimal(b),
    ensures
        a == b,
    decreases a + b,
{
    lemma_decimal_digits(a);
    lemma_decimal_digits(b);
    if a >= 10 && b >= 10 {
        assert(decimal(a).last() == decimal(b).last());
        assert(decimal(a).drop_last() =~= decimal(a / 10));
        assert(decimal(b).drop_last() =~= decimal(b / 10));
        lemma_decimal_injective(a / 10, b / 10);
        assert(decimal(a).last() == digit_char(a % 10));
        assert(decimal(b).last() == digit_char(b % 10));
        lemma_digit_injective(a % 10, b % 10);
        assert(a == 10 * (a / 10) + a % 10);
        assert(b == 10 * (b / 10) + b % 10);
    } else if a < 10 && b < 10 {
        assert(decimal(a) == seq![digit_char(a)]);
        assert(decimal(b) == seq![digit_char(b)]);
        assert(decimal(a)[0] == digit_char(a));
        assert(decimal(b)[0] == digit_char(b));
        lemma_digit_injective(a, b);
    } else if a < 10 {
        assert(decimal(a).len() == 1);
    } else {
        assert(decimal(b).len() == 1);
    }
}

proof fn lemma_lower_candidate(base: Seq<char>, k: nat)
    requires
        k >= 2,
    ensures
        lower(candidate(base, k)) == lower(base) + seq!['-'] + decimal(k),
{
    lemma_decimal_digits(k);
    let c = candidate(base, k);
    let r = lower(base) + seq!['-'] + decimal(k);
    assert forall|i: int| 0 <= i < c.len() implies lower(c)[i] == r[i] by {
        if i >= base.len() + 1 {
            assert(c[i] == decimal(k)[i - base.len() - 1]);
        }
    }
    assert(lower(c) =~= r);
}

proof fn lemma_candidates_distinct(base: Seq<char>, a: nat, b: nat)
    requires
        1 <= a,
        1 <= b,
        lower(candidate(base, a)) == lower(candidate(base, b)),
    ensures
        a == b,
{
    if a >= 2 {
        lemma_lower_candidate(base, a);
        lemma_decimal_digits(a);
    }
    if b >= 2 {
        lemma_lower_candidate(base, b);
        lemma_decimal_digits(b);
    }
    if a >= 2 && b >= 2 {
        let p = lower(base).len() + 1;
        let la = lower(base) + seq!['-'] + decimal(a);
        let lb = lower(base) + seq!['-'] + decimal(b);
        assert(la.subrange(p as int, la.len() as int) =~= decimal(a));
        assert(lb.subrange(p as int, lb.len() as int) =~= decimal(b));
        lemma_decimal_injective(a, b);
    }
}

/// Where every candidate up to the `k`-th is taken, there are at least `k`
/// ids taken.
proof fn lemma_collisions_bound(ids: Set<Seq<char>>, base: Seq<char>, k: nat)
    requires
        ids.finite(),
        k >= 1,
        forall|j: nat| 1 <= j <= k ==> ids.contains(lower(#[trigger] candidate(base, j))),
    ensures
        k <= ids.len(),
{
    let f = |j: int| lower(candidate(base, j as nat));
    let dom = set_int_range(1, k as int + 1);
    lemma_int_range(1, k as int + 1);
    assert forall|x: int, y: int| dom.contains(x) && dom.contains(y) && #[trigger] f(x) == #[trigger] f(y) implies x == y by {
        lemma_candidates_distinct(base, x as nat, y as nat);
    }
    let c = dom.map(f);
    lemma_map_size(dom, c, f);
    assert forall|x: Seq<char>| c.contains(x) implies ids.contains(x) by {
        let j = choose|j: int| dom.contains(j) && f(j) == x;
        assert(ids.contains(lower(candidate(base, j as nat))));
    }
    lemma_len_subset(c, ids);
}

fn push_decimal(out: &mut String, n: usize)
    ensures
        final(out)@ == old(out)@ + decimal(n as nat),
    decreases n,
{
    if n >= 10 {
        push_decimal(out, n / 10);
    }
    let c = digit(n % 10);
    push_char(out, c);
    proof {
        if n < 10 {
            assert(final(out)@ =~= old(out)@ + decimal(n as nat));
        } else {
            assert(final(out)@ =~= old(out)@ + decimal(n as nat));
        }
    }
}

fn lowered_room_ids(rooms: &Vec<HassRoomConfig>) -> (r: Vec<String>)
    ensures
        strs_view(r@) == rooms_view(rooms@).map_values(|x: RoomView| lower(x.id)),
{
    let mut out: Vec<String> = Vec::new();
    let mut i: usize = 0;
    while i < rooms.len()
        invariant
            0 <= i <= rooms@.len(),
            strs_view(out@) == rooms_view(rooms@.subrange(0, i as int)).map_values(|x: RoomView| lower(x.id)),
        decreases rooms@.len() - i,
    {
        let l = lower_text(rooms[i].id.as_str());
        let ghost before = out@;
        let ghost lv = l@;
        out.push(l);
        proof {
            let f = |x: RoomView| lower(x.id);
            let sub0 = rooms@.subrange(0, i as int);
            let sub1 = rooms@.subrange(0, i + 1);
            assert(strs_view(out@) =~= strs_view(before).push(lv));
            assert(sub1 =~= sub0.push(rooms@[i as int]));
            assert(rooms_view(sub1) =~= rooms_view(sub0).push(rooms@[i as int]@));
            assert(rooms_view(sub1).map_values(f) =~= rooms_view(sub0).map_values(f).push(lower(rooms@[i as int].id@)));
        }
        i = i + 1;
    }
    proof {
        assert(rooms@.subrange(0, rooms@.len() as int) =~= rooms@);
    }
    out
}

fn list_contains(l: &Vec<String>, s: &String) -> (r: bool)
    ensures
        r == strs_view(l@).contains(s@),
{
    let mut i: usize = 0;
    while i < l.len()
        invariant
            0 <= i <= l@.len(),
            forall|j: int| 0 <= j < i ==> strs_view(l@)[j] != s@,
        decreases l@.len() - i,
    {
        if l[i] == *s {
            assert(strs_view(l@)[i as int] == s@);
            return true;
        }
        i = i + 1;
    }
    false
}

/// `id` is the first of `candidate(base, 1)`, `candidate(base, 2)`, ...
/// whose lower-case form no room id has in lower case.
pub open spec fn first_free(rooms: Seq<RoomView>, base: Seq<char>, id: Seq<char>) -> bool {
    let taken = rooms.map_values(|r: RoomView| lower(r.id)).to_set();
    exists|k: nat|
        k >= 1 && id == candidate(base, k) && !taken.contains(lower(id)) && (forall|j: nat|
            1 <= j < k ==> taken.contains(lower(#[trigger] candidate(base, j))))
}

/// The first free room id made from `base` (see `first_free`).
pub fn free_room_id(rooms: &Vec<HassRoomConfig>, base: &String) -> (r: String)
    requires
        rooms@.len() < usize::MAX,
    ensures
        first_free(rooms_view(rooms@), base@, r@),
{
    let ids = lowered_room_ids(rooms);
    let ghost taken = rooms_view(rooms@).map_values(|r: RoomView| lower(r.id)).to_set();
    proof {
        assert(ids@.len() == strs_view(ids@).len());
        assert(strs_view(ids@).to_set() == taken);
        strs_view(ids@).lemma_cardinality_of_set();
    }
    let mut room_id = base.clone();
    let mut k: usize = 1;
    while list_contains(&ids, &lower_text(room_id.as_str()))
        invariant
            k >= 1,
            k <= ids@.len() + 1,
            ids@.len() < usize::MAX,
            room_id@ == candidate(base@, k as nat),
            strs_view(ids@).to_set() == taken,
            taken.finite(),
            taken.len() <= ids@.len(),
            forall|j: nat| 1 <= j < k ==> taken.contains(lower(#[trigger] candidate(base@, j))),
        decreases ids@.len() + 1 - k,
    {
        proof {
            assert(strs_view(ids@).contains(lower(room_id@)));
            lemma_collisions_bound(taken, base@, k as nat);
        }
        k = k + 1;
        room_id = base.clone();
        push_char(&mut room_id, '-');
        push_decimal(&mut room_id, k);
        proof {
            assert(room_id@ =~= candidate(base@, k as nat));
        }
    }
    proof {
        assert(!taken.contains(lower(room_id@)));
    }
    room_id
}

impl HassUiConfig {
    /// The room for a Home Assistant area: the default room where the area
    /// is ignored (ASCII case ignored); else the room already made for it;
    /// else a new room, auto-created, named after the area, under the first
    /// of `area_base(area)`, then with `-2`, `-3`, ... that no room uses
    /// (ASCII case ignored). A new room is added and the document normalized.
    pub fn ensure_room_for_area(&mut self, area_name: &str) -> (r: String)
        requires
            old(self).wf(),
            old(self)@.rooms.len() < usize::MAX,
        ensures
            final(self).wf(),
            any_eq_ignore_case(old(self)@.ignored_area_names, area_name@) ==> r@ == default_room_id()
                && final(self)@ == old(self)@,
            !any_eq_ignore_case(old(self)@.ignored_area_names, area_name@) && area_room(
                old(self)@.rooms,
                area_name@,
            ) is Some ==> Some(r@) == area_room(old(self)@.rooms, area_name@) && final(self)@ == old(
                self,
            )@,
            !any_eq_ignore_case(old(self)@.ignored_area_names, area_name@) && area_room(
                old(self)@.rooms,
                area_name@,
            ) is None ==> first_free(old(self)@.rooms, area_base(area_name@), r@) && final(self)@
                == normalized(with_area_room(old(self)@, r@, area_name@)),
    {
        let mut i: usize = 0;
        while i < self.ignored_area_names.len()
            invariant
                0 <= i <= self.ignored_area_names@.len(),
                self.wf(),
                *self == *old(self),
                forall|j: int|
                    0 <= j < i ==> !crate::text::eq_ignore_case(
                        #[trigger] strs_view(self.ignored_area_names@)[j],
                        area_name@,
                    ),
            decreases self.ignored_area_names@.len() - i,
        {
            if text_eq_ignore_case(self.ignored_area_names[i].as_str(), area_name) {
                assert(crate::text::eq_ignore_case(strs_view(self.ignored_area_names@)[i as int], area_name@));
                return HassUiConfig::default_room_id();
            }
            i = i + 1;
        }
        match self.room_for_area(area_name) {
            Some(room_id) => {
                return room_id;
            },
            None => {},
        }
        let mut base = String::from_str("area-");
        proof {
            reveal_strlit("area-");
            assert(base@ =~= area_prefix());
        }
        let sane = sanitize(area_name);
        if sane.as_str().unicode_len() > 0 {
            base.append(sane.as_str());
        } else {
            base.append("room");
            proof {
                reveal_strlit("room");
            }
        }
        proof {
            assert(base@ =~= area_base(area_name@));
        }
        let room_id = free_room_id(&self.rooms, &base);
        let room = HassRoomConfig {
            id: room_id.clone(),
            name: String::from_str(area_name),
            source_area: Some(String::from_str(area_name)),
            auto_created: true,
        };
        let ghost v0 = self@;
        let ghost rv = room@;
        let ghost before = self.rooms@;
        self.rooms.push(room);
        proof {
            assert(rooms_view(self.rooms@) =~= rooms_view(before).push(rv));
            assert(self@ == with_area_room(v0, room_id@, area_name@));
        }
        self.normalize();
        room_id
    }
}

} // verus!
