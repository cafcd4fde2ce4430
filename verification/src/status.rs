//! The sync status that the mobile app shows: whether the last sync
//! connected, how many changes wait, and what went wrong, and when that
//! report is too old to trust.

use vstd::prelude::*;

use crate::list::now_rfc3339;
use crate::text::owned;

verus! {

broadcast use vstd::string::group_string_axioms;

/// The sync status shown to the user.
#[derive(Debug, Clone)]
pub struct SyncStatusInfo {
    pub connected: bool,
    pub last_sync: Option<String>,
    pub pending_changes: u32,
    pub error: Option<String>,
}

/// A status as plain values.
pub struct StatusView {
    pub connected: bool,
    pub last_sync: Option<Seq<char>>,
    pub pending_changes: u32,
    pub error: Option<Seq<char>>,
}

/// The view of an optional string.
pub open spec fn opt_view(s: Option<String>) -> Option<Seq<char>> {
    match s {
        Some(v) => Some(v@),
        None => None,
    }
}

/// A status as plain values.
pub open spec fn status_view(s: SyncStatusInfo) -> StatusView {
    StatusView {
        connected: s.connected,
        last_sync: opt_view(s.last_sync),
        pending_changes: s.pending_changes,
        error: opt_view(s.error),
    }
}

/// The status shown at `now` for the last report `last`, made at
/// `last_update`: "Sync not configured" when sync is not enabled, "Status
/// outdated" (not connected) when the report is more than two minutes old,
/// else the report itself.
pub open spec fn reported(last: StatusView, last_update: u64, enabled: bool, now: u64) -> StatusView {
    if !enabled {
        StatusView { connected: false, last_sync: None, pending_changes: 0, error: Some("Sync not configured"@) }
    } else if now > last_update + STATUS_MAX_AGE_SECS {
        StatusView { connected: false, error: Some("Status outdated"@), ..last }
    } else {
        last
    }
}

/// How many seconds a status report stays current.
pub const STATUS_MAX_AGE_SECS: u64 = 120;

/// The latest status report and when it was made (in seconds of a clock
/// that only moves forward).
pub struct SyncStatusTracker {
    pub status: SyncStatusInfo,
    pub last_update: u64,
}

/// Whether sync is enabled: a non-empty server URL and a valid login.
pub open spec fn sync_enabled_spec(url: Option<Seq<char>>, jwt_valid: bool) -> bool {
    (url matches Some(u) && u.len() > 0) && jwt_valid
}

/// Whether sync is enabled: a non-empty server URL and a valid login.
pub fn sync_enabled(url: Option<&str>, jwt_valid: bool) -> (r: bool)
    ensures
        r == sync_enabled_spec(
            match url {
                Some(u) => Some(u@),
                None => None,
            },
            jwt_valid,
        ),
{
    let has_url = match url {
        Some(u) => !u.is_empty(),
        None => false,
    };
    has_url && jwt_valid
}

fn copy_opt(s: &Option<String>) -> (r: Option<String>)
    ensures
        match s {
            Some(v) => r matches Some(w) && w@ == v@,
            None => r is None,
        },
{
    match s {
        Some(v) => Some(v.clone()),
        None => None,
    }
}

impl SyncStatusTracker {
    /// A tracker that has not seen a sync yet, as of `now`.
    pub fn new(now: u64) -> (r: Self)
        ensures
            !r.status.connected,
            r.status.last_sync is None,
            r.status.pending_changes == 0,
            r.status.error is None,
            r.last_update == now,
    {
        SyncStatusTracker {
            status: SyncStatusInfo { connected: false, last_sync: None, pending_changes: 0, error: None },
            last_update: now,
        }
    }

    /// Record a status report made at `now`; a connected report also records
    /// the current time as the last sync.
    pub fn update_sync_status(&mut self, connected: bool, pending_changes: u32, error: Option<String>, now: u64)
        ensures
            final(self).status.connected == connected,
            final(self).status.pending_changes == pending_changes,
            opt_view(final(self).status.error) == opt_view(error),
            connected ==> final(self).status.last_sync is Some,
            !connected ==> opt_view(final(self).status.last_sync) == opt_view(old(self).status.last_sync),
            final(self).last_update == now,
    {
        self.status.connected = connected;
        self.status.pending_changes = pending_changes;
        self.status.error = error;
        if connected {
            self.status.last_sync = Some(now_rfc3339());
        }
        self.last_update = now;
    }

    /// The status to show at `now`: "Sync not configured" when sync is not
    /// enabled, "Status outdated" (not connected) when the last report is
    /// more than two minutes old, else the last report.
    pub fn get_sync_status(&self, enabled: bool, now: u64) -> (r: SyncStatusInfo)
        ensures
            status_view(r) == reported(status_view(self.status), self.last_update, enabled, now),
    {
        if !enabled {
            return SyncStatusInfo {
                connected: false,
                last_sync: None,
                pending_changes: 0,
                error: Some(owned("Sync not configured")),
            };
        }
        let stale = now > self.last_update && now - self.last_update > STATUS_MAX_AGE_SECS;
        if stale {
            return SyncStatusInfo {
                connected: false,
                last_sync: copy_opt(&self.status.last_sync),
                pending_changes: self.status.pending_changes,
                error: Some(owned("Status outdated")),
            };
        }
        SyncStatusInfo {
            connected: self.status.connected,
            last_sync: copy_opt(&self.status.last_sync),
            pending_changes: self.status.pending_changes,
            error: copy_opt(&self.status.error),
        }
    }
}

/// Mark sync as connected at `now`: no pending changes, no error.
pub fn mark_sync_connected(tracker: &mut SyncStatusTracker, now: u64)
    ensures
        final(tracker).status.connected,
        final(tracker).status.pending_changes == 0,
        final(tracker).status.error is None,
        final(tracker).status.last_sync is Some,
        final(tracker).last_update == now,
{
    tracker.update_sync_status(true, 0, None, now)
}

/// Mark sync as disconnected at `now`, with the error that caused it.
pub fn mark_sync_disconnected(tracker: &mut SyncStatusTracker, error: String, now: u64)
    ensures
        !final(tracker).status.connected,
        final(tracker).status.pending_changes == 0,
        opt_view(final(tracker).status.error) == Some(error@),
        opt_view(final(tracker).status.last_sync) == opt_view(old(tracker).status.last_sync),
        final(tracker).last_update == now,
{
    tracker.update_sync_status(false, 0, Some(error), now)
}

/// Record how many changes are waiting, at `now`, keeping the connection
/// state and the error.
pub fn update_pending_changes(tracker: &mut SyncStatusTracker, count: u32, now: u64)
    ensures
        final(tracker).status.connected == old(tracker).status.connected,
        final(tracker).status.pending_changes == count,
        opt_view(final(tracker).status.error) == opt_view(old(tracker).status.error),
        old(tracker).status.connected ==> final(tracker).status.last_sync is Some,
        !old(tracker).status.connected ==> opt_view(final(tracker).status.last_sync) == opt_view(old(tracker).status.last_sync),
        final(tracker).last_update == now,
{
    let connected = tracker.status.connected;
    let error = copy_opt(&tracker.status.error);
    tracker.update_sync_status(connected, count, error, now)
}

/// A status read within two minutes of a connected report with nothing
/// pending and no error shows exactly that, when sync is enabled.
pub proof fn lemma_connected_is_reported(last: StatusView, last_update: u64, later: u64)
    requires
        last.connected,
        last.pending_changes == 0,
        last.error is None,
        later <= last_update + STATUS_MAX_AGE_SECS,
    ensures
        reported(last, last_update, true, later) == last,
        reported(last, last_update, true, later).connected,
{
}

/// Once a report is more than two minutes old it is never shown as
/// connected.
pub proof fn lemma_stale_is_disconnected(last: StatusView, last_update: u64, enabled: bool, later: u64)
    requires
        later > last_update + STATUS_MAX_AGE_SECS,
    ensures
        !reported(last, last_update, enabled, later).connected,
{
}

} // verus!
