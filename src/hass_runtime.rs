use vstd::prelude::*;
use vstd::string::StrSliceExecFns;
use vstd::string::StringExecFns;

use crate::hass_ui::opt_view;
use crate::text::{trim_text, trimmed};

verus! {

/// How the bridge reaches Home Assistant.
#[derive(Debug)]
pub struct HassRuntimeConfig {
    pub enabled: bool,
    pub url: String,
    pub sync_mode: String,
    pub token: Option<String>,
}

/// The connection settings as the user interface sees them: whether a token
/// is set, not the token.
#[derive(Debug)]
pub struct HassRuntimeConfigPublic {
    pub enabled: bool,
    pub url: String,
    pub sync_mode: String,
    pub token_present: bool,
}

#[derive(Debug)]
pub struct HassRuntimeConfigUpdate {
    pub enabled: bool,
    pub url: String,
    pub sync_mode: Option<String>,
}

#[derive(Debug)]
pub struct HassTokenRequest {
    pub token: String,
}

#[derive(Clone, Copy, Debug, PartialEq, Eq, Structural)]
pub enum HassConfigError {
    /// The token given is blank.
    EmptyToken,
}

pub open spec fn manual_mode() -> Seq<char> {
    seq!['m', 'a', 'n', 'u', 'a', 'l']
}

/// The sync mode asked for, trimmed, or manual where none or a blank one is.
pub open spec fn sync_mode_of(m: Option<Seq<char>>) -> Seq<char> {
    match m {
        Some(s) => if trimmed(s).len() > 0 {
            trimmed(s)
        } else {
            manual_mode()
        },
        None => manual_mode(),
    }
}

/// The token, trimmed, where it is not blank.
pub open spec fn token_of(t: Option<Seq<char>>) -> Option<Seq<char>> {
    match t {
        Some(s) => if trimmed(s).len() > 0 {
            Some(trimmed(s))
        } else {
            None
        },
        None => None,
    }
}

fn manual() -> (r: String)
    ensures
        r@ == manual_mode(),
{
    let r = String::from_str("manual");
    proof {
        reveal_strlit("manual");
        assert(r@ =~= manual_mode());
    }
    r
}

impl HassRuntimeConfig {
    /// Enabled, no URL, manual sync, no token.
    pub fn default() -> (r: Self)
        ensures
            r.enabled,
            r.url@ == Seq::<char>::empty(),
            r.sync_mode@ == manual_mode(),
            r.token is None,
    {
        HassRuntimeConfig { enabled: true, url: String::new(), sync_mode: manual(), token: None }
    }

    /// Completes settings read from disk: a blank URL takes the fallback,
    /// the URL is trimmed, and a blank sync mode becomes manual.
    pub fn complete(&mut self, fallback_url: Option<String>)
        ensures
            final(self).enabled == old(self).enabled,
            final(self).token == old(self).token,
            final(self).url@ == if trimmed(old(self).url@).len() == 0 && fallback_url is Some {
                trimmed(fallback_url->0@)
            } else {
                trimmed(old(self).url@)
            },
            final(self).sync_mode@ == if trimmed(old(self).sync_mode@).len() == 0 {
                manual_mode()
            } else {
                old(self).sync_mode@
            },
    {
        if trim_text(self.url.as_str()).as_str().unicode_len() == 0 {
            match fallback_url {
                Some(u) => {
                    self.url = u;
                },
                None => {},
            }
        }
        self.url = trim_text(self.url.as_str());
        if trim_text(self.sync_mode.as_str()).as_str().unicode_len() == 0 {
            self.sync_mode = manual();
        }
    }

    /// The settings without the token itself.
    pub fn public_config(&self) -> (r: HassRuntimeConfigPublic)
        ensures
            r.enabled == self.enabled,
            r.url@ == self.url@,
            r.sync_mode@ == self.sync_mode@,
            r.token_present == token_of(opt_view(self.token)) is Some,
    {
        let token_present = match &self.token {
            Some(t) => trim_text(t.as_str()).as_str().unicode_len() > 0,
            None => false,
        };
        HassRuntimeConfigPublic {
            enabled: self.enabled,
            url: self.url.clone(),
            sync_mode: self.sync_mode.clone(),
            token_present,
        }
    }

    /// Applies settings from the user interface; the token stays.
    pub fn set_config_update(&mut self, update: HassRuntimeConfigUpdate)
        ensures
            final(self).enabled == update.enabled,
            final(self).url@ == trimmed(update.url@),
            final(self).sync_mode@ == sync_mode_of(opt_view(update.sync_mode)),
            final(self).token == old(self).token,
    {
        self.enabled = update.enabled;
        self.url = trim_text(update.url.as_str());
        self.sync_mode = match &update.sync_mode {
            Some(m) => {
                let t = trim_text(m.as_str());
                if t.as_str().unicode_len() > 0 {
                    t
                } else {
                    manual()
                }
            },
            None => manual(),
        };
    }

    /// Sets the token, trimmed; a blank one is refused and nothing changes.
    pub fn set_token(&mut self, token: String) -> (r: Result<(), HassConfigError>)
        ensures
            trimmed(token@).len() == 0 <==> r == Err::<(), HassConfigError>(HassConfigError::EmptyToken),
            r is Ok ==> opt_view(final(self).token) == Some(trimmed(token@)),
            r is Err ==> opt_view(final(self).token) == opt_view(old(self).token),
            final(self).enabled == old(self).enabled,
            final(self).url == old(self).url,
            final(self).sync_mode == old(self).sync_mode,
    {
        let t = trim_text(token.as_str());
        if t.as_str().unicode_len() == 0 {
            return Err(HassConfigError::EmptyToken);
        }
        self.token = Some(t);
        Ok(())
    }

    /// Forgets the token.
    pub fn clear_token(&mut self)
        ensures
            final(self).token is None,
            final(self).enabled == old(self).enabled,
            final(self).url == old(self).url,
            final(self).sync_mode == old(self).sync_mode,
    {
        self.token = None;
    }

    /// The token, trimmed, where one is set and not blank.
    pub fn token(&self) -> (r: Option<String>)
        ensures
            opt_view(r) == token_of(opt_view(self.token)),
    {
        match &self.token {
            Some(t) => {
                let s = trim_text(t.as_str());
                if s.as_str().unicode_len() > 0 {
                    Some(s)
                } else {
                    None
                }
            },
            None => None,
        }
    }
}

} // verus!
