//! App configuration: Entra `client_id` and authority, plus a few overrides
//! a `config.json` may carry. Reading the file is the shell's job; the rules
//! for overlaying it on the defaults live here.
use vstd::prelude::*;
use std::collections::HashMap;

verus! {

/// Shipped client_id: empty until Spite's own multitenant Entra app is
/// registered; until then users set `client_id` in `config.json`.
pub const DEFAULT_CLIENT_ID: &'static str = "";

/// `/common` resolves each user's tenant from their sign-in address.
pub const DEFAULT_AUTHORITY: &'static str = "https://login.microsoftonline.com/common";

pub const CONFIG_FILE: &'static str = "config.json";

/// Initial-sync window size: how many recent messages to backfill.
pub const DEFAULT_BACKFILL_COUNT: u32 = 200;

/// Undo-send window: seconds a queued message waits before actually sending.
pub const DEFAULT_UNDO_SEND_SECONDS: u32 = 15;

#[derive(Debug, Clone)]
pub struct AppConfig {
    pub client_id: String,
    pub authority: String,
    /// Mail database location; `None` means the platform app-data dir.
    pub db_path: Option<String>,
    /// Recent messages to backfill on first sync (clamped to 1..=1000 where used).
    pub backfill_count: u32,
    /// Undo-send delay in seconds (clamped to 0..=120 where used).
    pub undo_send_seconds: u32,
    /// Keyboard-shortcut overrides (action name to key).
    pub keymap: HashMap<String, String>,
}

/// The partial shape of `config.json`; absent fields keep their defaults.
#[derive(Debug, Default)]
pub struct ConfigOverrides {
    pub client_id: Option<String>,
    pub authority: Option<String>,
    pub db_path: Option<String>,
    pub backfill_count: Option<u32>,
    pub undo_send_seconds: Option<u32>,
    pub keymap: Option<HashMap<String, String>>,
}

impl Default for AppConfig {
    fn default() -> (r: Self)
        ensures
            r.client_id@ == DEFAULT_CLIENT_ID@,
            r.authority@ == DEFAULT_AUTHORITY@,
            r.db_path is None,
            r.backfill_count == DEFAULT_BACKFILL_COUNT,
            r.undo_send_seconds == DEFAULT_UNDO_SEND_SECONDS,
            r.keymap@ == Map::<String, String>::empty(),
    {
        AppConfig {
            client_id: String::from_str(DEFAULT_CLIENT_ID),
            authority: String::from_str(DEFAULT_AUTHORITY),
            db_path: None,
            backfill_count: DEFAULT_BACKFILL_COUNT,
            undo_send_seconds: DEFAULT_UNDO_SEND_SECONDS,
            keymap: HashMap::new(),
        }
    }
}

pub open spec fn or_keep<T>(o: Option<T>, keep: T) -> T {
    match o {
        Some(v) => v,
        None => keep,
    }
}

impl AppConfig {
    /// False while the placeholder (empty) client_id is in effect.
    pub fn is_configured(&self) -> (r: bool)
        ensures
            r == (self.client_id@.len() > 0),
    {
        !self.client_id.as_str().is_empty()
    }

    /// The configuration with every field present in `o` replacing the
    /// current one and every absent field kept.
    pub fn with_overrides(self, o: ConfigOverrides) -> (r: AppConfig)
        ensures
            r.client_id == or_keep(o.client_id, self.client_id),
            r.authority == or_keep(o.authority, self.authority),
            r.db_path == (match o.db_path {
                Some(p) => Some(p),
                None => self.db_path,
            }),
            r.backfill_count == or_keep(o.backfill_count, self.backfill_count),
            r.undo_send_seconds == or_keep(o.undo_send_seconds, self.undo_send_seconds),
            r.keymap == or_keep(o.keymap, self.keymap),
    {
        let mut cfg = self;
        match o.client_id {
            Some(v) => cfg.client_id = v,
            None => {},
        }
        match o.authority {
            Some(v) => cfg.authority = v,
            None => {},
        }
        match o.db_path {
            Some(v) => cfg.db_path = Some(v),
            None => {},
        }
        match o.backfill_count {
            Some(v) => cfg.backfill_count = v,
            None => {},
        }
        match o.undo_send_seconds {
            Some(v) => cfg.undo_send_seconds = v,
            None => {},
        }
        match o.keymap {
            Some(v) => cfg.keymap = v,
            None => {},
        }
        cfg
    }

    /// The backfill window actually used: `backfill_count` clamped to 1..=1000.
    pub fn effective_backfill_count(&self) -> (r: u32)
        ensures
            r == if self.backfill_count < 1 {
                1
            } else if self.backfill_count > 1000 {
                1000
            } else {
                self.backfill_count
            },
    {
        clamp_backfill(self.backfill_count)
    }

    /// The undo-send delay actually used: `undo_send_seconds` capped at 120
    /// (0 sends immediately).
    pub fn effective_undo_seconds(&self) -> (r: u32)
        ensures
            r == if self.undo_send_seconds > 120 {
                120
            } else {
                self.undo_send_seconds
            },
    {
        if self.undo_send_seconds > 120 {
            120
        } else {
            self.undo_send_seconds
        }
    }
}

/// A backfill count clamped to 1..=1000, the window Graph is asked for.
pub fn clamp_backfill(n: u32) -> (r: u32)
    ensures
        r == if n < 1 {
            1
        } else if n > 1000 {
            1000
        } else {
            n
        },
{
    if n < 1 {
        1
    } else if n > 1000 {
        1000
    } else {
        n
    }
}

} // verus!
