//! What the tracker keeps and what it is sent.

use vstd::prelude::*;

verus! {

/// A tracked habit. `id` is a slug of the name that it was created under; `kind` fixes
/// how its sessions are logged. Neither changes.
pub struct Track<S> {
    pub id: String,
    pub name: String,
    /// `box`, `check` or `loe`.
    pub kind: String,
    pub tau_days: S,
    /// The load that one occurrence is expected to have.
    pub mean_load: S,
    pub period_days: S,
    pub alert_mult: S,
    /// The weekdays on which an occurrence is due, 0 for Sunday to 6 for Saturday.
    pub weekdays: Vec<u32>,
    /// The load of one occurrence, for the kinds `check` and `loe`.
    pub unit_load: S,
    pub created_ms: i64,
}

/// A track to create: all but what the tracker assigns.
pub struct CreateTrack<S> {
    pub name: String,
    pub kind: String,
    pub tau_days: S,
    pub mean_load: S,
    pub period_days: S,
    pub alert_mult: S,
    pub weekdays: Vec<u32>,
    pub unit_load: S,
}

/// The fields of a track that can change.
pub struct UpdateTrack<S> {
    pub name: String,
    pub tau_days: S,
    pub mean_load: S,
    pub period_days: S,
    pub alert_mult: S,
    pub weekdays: Vec<u32>,
    pub unit_load: S,
}

/// The settings that all tracks share.
pub struct Settings {
    /// The topic that pages go to; no pages where it is blank.
    pub ntfy_url: String,
    pub dashboard_url: String,
    /// The local hour of the day before which nothing is paged.
    pub alert_hour: u32,
    /// The days that the fitness is computed over.
    pub warmup_days: i64,
}

impl Settings {
    /// The settings that hold until others are stored.
    pub open spec fn is_default(self) -> bool {
        &&& self.ntfy_url@ == Seq::<char>::empty()
        &&& self.dashboard_url@ == Seq::<char>::empty()
        &&& self.alert_hour == 8
        &&& self.warmup_days == 90
    }
}

impl Default for Settings {
    fn default() -> (r: Self)
        ensures
            r.is_default(),
    {
        Settings {
            ntfy_url: String::new(),
            dashboard_url: String::new(),
            alert_hour: 8,
            warmup_days: 90,
        }
    }
}

/// A logged session, as the model reads it.
pub struct LoggedSession<S> {
    pub ts_ms: i64,
    pub load: S,
}

/// A session as it is kept: with the fields that its load was computed from.
pub struct StoredSession<S> {
    pub ts_ms: i64,
    pub load: S,
    pub duration_min: Option<S>,
    pub intensity: Option<S>,
    pub loe: Option<String>,
}

/// A session to log. The track's kind says which fields it needs.
pub struct SessionBody<S> {
    pub ts_ms: Option<i64>,
    pub duration_min: Option<S>,
    pub intensity: Option<S>,
    pub loe: Option<String>,
}

/// A skipped occurrence. Without a reason it is the sign of a relapse.
pub struct Skip {
    pub scheduled_date: String,
    pub reason: Option<String>,
    pub ts_ms: i64,
}

/// A skip to log.
pub struct SkipBody {
    pub scheduled_date: String,
    pub reason: Option<String>,
}

/// An occurrence that has come due.
pub struct Scheduled {
    pub materialized_ms: i64,
}

/// What the store keeps for the tracker.
pub enum Record<'a, S> {
    Settings(Settings),
    Track(&'a Track<S>),
    Session(StoredSession<S>),
    Skip(Skip),
    Scheduled(Scheduled),
    /// The day of the last page of a track.
    Day(String),
}

}
