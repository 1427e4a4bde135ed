use vstd::prelude::*;
use vstd::string::StrSliceExecFns;
use vstd::string::StringExecFns;

use crate::keyed::{keys_unique, lemma_map_of_at, lemma_map_of_dom, lemma_map_of_push, lemma_map_of_update, map_of};
use crate::text::{trim_text, trimmed};

verus! {

#[derive(Clone, Copy, Debug, PartialEq, Eq, Structural)]
pub enum HassPatinaStage {
    Fresh,
    Used,
    Loved,
}

/// How much the bridge has been used: when it was installed, how many
/// interactions it saw in all, and how many under each key.
///
/// Each key occurs once in `interactions_by_key`.
#[derive(Debug)]
pub struct HassPatinaState {
    pub install_date: String,
    pub interaction_count: u64,
    pub interactions_by_key: Vec<(String, u64)>,
}

/// What the user interface shows of the patina.
#[derive(Debug)]
pub struct HassPatinaPublic {
    pub install_date: String,
    pub interaction_count: u64,
    pub patina_level: u8,
    pub stage: HassPatinaStage,
}

pub open spec fn min_nat(a: nat, b: nat) -> nat {
    if a < b {
        a
    } else {
        b
    }
}

/// `a / b` rounded to the nearest integer, halves up.
pub open spec fn round_div(a: nat, b: nat) -> nat
    recommends
        b > 0,
{
    (2 * a + b) / (2 * b)
}

/// The patina level: up to 20 for age (a year gives all of it) and up to 80
/// for interactions (5000 give all of it), at most 100 in all.
pub open spec fn patina_level_of(days: nat, count: nat) -> nat {
    let age = min_nat(days, 365);
    min_nat(
        round_div(age * 20, 365) + min_nat(80, round_div(min_nat(count, 5000) * 80, 5000)),
        100,
    )
}

pub open spec fn stage_of(level: nat) -> HassPatinaStage {
    if level < 26 {
        HassPatinaStage::Fresh
    } else if level < 71 {
        HassPatinaStage::Used
    } else {
        HassPatinaStage::Loved
    }
}

/// The weight of an interaction of this kind.
pub open spec fn event_weight(kind: Seq<char>) -> u64 {
    if kind == seq!['t', 'o', 'g', 'g', 'l', 'e'] {
        2
    } else if kind == seq!['a', 'p', 'p', 'l', 'y'] {
        4
    } else if kind == seq!['s', 'y', 'n', 'c'] {
        3
    } else if kind == seq!['r', 'e', 's', 'e', 't'] {
        5
    } else {
        1
    }
}

pub open spec fn sat_add(a: u64, b: u64) -> u64 {
    if a + b > u64::MAX {
        u64::MAX
    } else {
        (a + b) as u64
    }
}

pub open spec fn tallies_view(v: Seq<(String, u64)>) -> Seq<(Seq<char>, u64)> {
    v.map_values(|e: (String, u64)| (e.0@, e.1))
}

/// The tallies after `w` more interactions under key `k`.
pub open spec fn add_tally(m: Map<Seq<char>, u64>, k: Seq<char>, w: u64) -> Map<Seq<char>, u64> {
    if m.contains_key(k) {
        m.insert(k, sat_add(m[k], w))
    } else {
        m.insert(k, w)
    }
}

/// The level of patina after `days` days and `count` interactions.
pub fn patina_level(days: u64, count: u64) -> (r: u8)
    ensures
        r as nat == patina_level_of(days as nat, count as nat),
{
    let age: u64 = if days < 365 {
        days
    } else {
        365
    };
    let c: u64 = if count < 5000 {
        count
    } else {
        5000
    };
    let age_part: u64 = (2 * age * 20 + 365) / (2 * 365);
    let use_part0: u64 = (2 * c * 80 + 5000) / (2 * 5000);
    let use_part: u64 = if use_part0 < 80 {
        use_part0
    } else {
        80
    };
    assert(age_part <= 20) by (nonlinear_arith)
        requires
            age <= 365,
            age_part as int == (2 * age * 20 + 365) as int / 730int,
    ;
    let level: u64 = if age_part + use_part < 100 {
        age_part + use_part
    } else {
        100
    };
    level as u8
}

/// The stage that a patina level falls in.
pub fn patina_stage(level: u8) -> (r: HassPatinaStage)
    ensures
        r == stage_of(level as nat),
{
    if level >= 71 {
        HassPatinaStage::Loved
    } else if level >= 26 {
        HassPatinaStage::Used
    } else {
        HassPatinaStage::Fresh
    }
}

/// The weight of an interaction of this kind: toggle 2, apply 4, sync 3,
/// reset 5, anything else 1.
pub fn patina_event_weight(kind: &str) -> (r: u64)
    ensures
        r == event_weight(kind@),
{
    let k = String::from_str(kind);
    let toggle = String::from_str("toggle");
    let apply = String::from_str("apply");
    let sync = String::from_str("sync");
    let reset = String::from_str("reset");
    proof {
        reveal_strlit("toggle");
        reveal_strlit("apply");
        reveal_strlit("sync");
        reveal_strlit("reset");
        assert(toggle@ =~= seq!['t', 'o', 'g', 'g', 'l', 'e']);
        assert(apply@ =~= seq!['a', 'p', 'p', 'l', 'y']);
        assert(sync@ =~= seq!['s', 'y', 'n', 'c']);
        assert(reset@ =~= seq!['r', 'e', 's', 'e', 't']);
    }
    if k == toggle {
        2
    } else if k == apply {
        4
    } else if k == sync {
        3
    } else if k == reset {
        5
    } else {
        1
    }
}

impl HassPatinaState {
    pub open spec fn wf(&self) -> bool {
        keys_unique(tallies_view(self.interactions_by_key@))
    }

    pub open spec fn tallies(&self) -> Map<Seq<char>, u64> {
        map_of(tallies_view(self.interactions_by_key@))
    }

    /// A fresh state, installed at `now`.
    pub fn new(now: String) -> (r: Self)
        ensures
            r.wf(),
            r.install_date@ == now@,
            r.interaction_count == 0,
            r.tallies() == Map::<Seq<char>, u64>::empty(),
    {
        let r = HassPatinaState { install_date: now, interaction_count: 0, interactions_by_key: Vec::new() };
        proof {
            assert(tallies_view(r.interactions_by_key@) =~= Seq::empty());
        }
        r
    }

    /// Counts one interaction of this kind: its weight is added to the total
    /// and, when a non-blank key is given, to the tally of the trimmed key
    /// (both saturating). A blank install date becomes `now`.
    pub fn record_event(&mut self, kind: &str, key: Option<&str>, now: &str)
        requires
            old(self).wf(),
        ensures
            final(self).wf(),
            final(self).install_date@ == if trimmed(old(self).install_date@).len() == 0 {
                now@
            } else {
                old(self).install_date@
            },
            final(self).interaction_count == sat_add(
                old(self).interaction_count,
                event_weight(kind@),
            ),
            final(self).tallies() == match key {
                Some(k) => if trimmed(k@).len() > 0 {
                    add_tally(old(self).tallies(), trimmed(k@), event_weight(kind@))
                } else {
                    old(self).tallies()
                },
                None => old(self).tallies(),
            },
    {
        if trim_text(self.install_date.as_str()).as_str().unicode_len() == 0 {
            self.install_date = String::from_str(now);
        }
        let weight = patina_event_weight(kind);
        self.interaction_count = self.interaction_count.saturating_add(weight);
        match key {
            Some(k) => {
                let t = trim_text(k);
                if t.as_str().unicode_len() > 0 {
                    self.add_to_tally(t, weight);
                }
            },
            None => {},
        }
    }

    fn add_to_tally(&mut self, key: String, weight: u64)
        requires
            old(self).wf(),
        ensures
            final(self).wf(),
            final(self).install_date == old(self).install_date,
            final(self).interaction_count == old(self).interaction_count,
            final(self).tallies() == add_tally(old(self).tallies(), key@, weight),
    {
        let ghost s0 = tallies_view(self.interactions_by_key@);
        let mut i: usize = 0;
        while i < self.interactions_by_key.len()
            invariant
                0 <= i <= self.interactions_by_key@.len(),
                s0 == tallies_view(self.interactions_by_key@),
                keys_unique(s0),
                s0 == tallies_view(old(self).interactions_by_key@),
                self.install_date == old(self).install_date,
                self.interaction_count == old(self).interaction_count,
                forall|j: int| 0 <= j < i ==> (#[trigger] s0[j]).0 != key@,
            decreases self.interactions_by_key@.len() - i,
        {
            if self.interactions_by_key[i].0 == key {
                proof {
                    lemma_map_of_at(s0, i as int);
                }
                let c = self.interactions_by_key[i].1;
                self.interactions_by_key[i].1 = c.saturating_add(weight);
                proof {
                    assert(tallies_view(self.interactions_by_key@) =~= s0.update(
                        i as int,
                        (key@, sat_add(c, weight)),
                    ));
                    lemma_map_of_update(s0, i as int, sat_add(c, weight));
                    assert(s0[i as int].0 == key@ && s0[i as int].1 == c);
                    assert(self.tallies() =~= add_tally(map_of(s0), key@, weight));
                }
                return;
            }
            i = i + 1;
        }
        proof {
            lemma_map_of_dom(s0, key@);
            lemma_map_of_push(s0, key@, weight);
        }
        let ghost kv = key@;
        self.interactions_by_key.push((key, weight));
        proof {
            assert(tallies_view(self.interactions_by_key@) =~= s0.push((kv, weight)));
        }
    }

    /// What the user interface shows, `days` days after install.
    pub fn public(&self, days_since_install: u64) -> (r: HassPatinaPublic)
        ensures
            r.install_date@ == self.install_date@,
            r.interaction_count == self.interaction_count,
            r.patina_level as nat == patina_level_of(
                days_since_install as nat,
                self.interaction_count as nat,
            ),
            r.stage == stage_of(r.patina_level as nat),
    {
        let level = patina_level(days_since_install, self.interaction_count);
        HassPatinaPublic {
            install_date: self.install_date.clone(),
            interaction_count: self.interaction_count,
            patina_level: level,
            stage: patina_stage(level),
        }
    }
}

} // verus!
