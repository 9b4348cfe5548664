//! Cache freshness policy.
//!
//! A single persisted timestamp records when the top-level metadata was last
//! refreshed.  The manager decides whether that cache is stale: a refresh is due
//! when it is forced, or when strictly more than the configured interval has
//! passed since the last refresh.

use vstd::prelude::*;

verus! {

/// Freshness bookkeeping persisted at a fixed path under the cache root:
/// the Unix timestamp (in seconds) of the last successful metadata refresh.
#[derive(Clone, Debug)]
pub struct CacheMeta {
    pub last_modified: u64,
}

/// Decides whether the top-level metadata cache must be refreshed.
///
/// On a first run no metadata file exists and the timestamp is taken as
/// epoch zero, so the cache is always considered stale.
#[derive(Debug)]
pub struct CachesManager {
    /// Cache root directory.
    pub root: String,
    /// Unix timestamp (seconds) of the last successful refresh.
    pub last_modified: u64,
    /// Refresh interval in seconds.
    pub update_interval: u64,
    /// Whether a refresh is forced regardless of age.
    pub force: bool,
}

impl CachesManager {
    /// What `should_refresh_at` returns: forced, or strictly older than the
    /// interval.  The boundary `now - last_modified == update_interval` is
    /// still fresh.
    pub open spec fn spec_should_refresh(self, now: u64) -> bool {
        self.force || now - self.last_modified > self.update_interval
    }

    /// Builds the manager from the configured root, interval and force flag,
    /// and from the persisted metadata if any; a missing metadata file
    /// counts as a refresh at epoch zero.
    pub fn new(root: String, update_interval: u64, force: bool, meta: Option<CacheMeta>) -> (m: Self)
        ensures
            m.root == root,
            m.update_interval == update_interval,
            m.force == force,
            m.last_modified == (match meta {
                Some(c) => c.last_modified,
                None => 0u64,
            }),
    {
        let last_modified: u64 = match meta {
            Some(c) => c.last_modified,
            None => 0,
        };
        CachesManager { root, last_modified, update_interval, force }
    }

    /// Whether the metadata cache must be refreshed as of the instant `now`.
    pub fn should_refresh_cache(&self, now: u64) -> (r: bool)
        ensures
            r == self.spec_should_refresh(now),
    {
        self.force || (now > self.last_modified && now - self.last_modified > self.update_interval)
    }

    /// Records a successful refresh at the instant `now`, and returns the
    /// metadata value to persist.  A failed refresh never reaches this call,
    /// so failure leaves the previous freshness state untouched.
    pub fn flush_meta(&mut self, now: u64) -> (meta: CacheMeta)
        ensures
            final(self).last_modified == now,
            final(self).root == old(self).root,
            final(self).update_interval == old(self).update_interval,
            final(self).force == old(self).force,
            meta.last_modified == now,
    {
        self.last_modified = now;
        CacheMeta { last_modified: now }
    }
}

/// The freshness rule itself: a refresh is due exactly when it is forced or
/// when strictly more than `update_interval` seconds have passed since
/// `last_modified`; at exactly `update_interval` seconds the cache is fresh.
pub proof fn lemma_should_refresh_iff(m: CachesManager, now: u64)
    ensures
        m.spec_should_refresh(now) <==> (m.force || now - m.last_modified > m.update_interval),
        now - m.last_modified == m.update_interval && !m.force ==> !m.spec_should_refresh(now),
{
}

} // verus!
