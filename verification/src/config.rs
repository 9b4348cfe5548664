//! Configuration consumed by the synchronization pipeline: cache root,
//! progress visibility, refresh interval, force flag, and the concurrency
//! limit of the orchestrator.  Every field is optional; getters supply the
//! documented defaults.  Loading the configuration file and resolving the
//! platform cache directory happen outside the library, which only receives
//! the parsed values.

use vstd::prelude::*;

verus! {

#[derive(Clone, Debug)]
pub struct Config {
    /// The directory where the cache is stored.
    pub cache_dir: Option<String>,
    /// Whether to show progress bars.
    pub progress: Option<bool>,
    /// The interval to update the cache, in seconds.
    pub update_interval: Option<u64>,
    /// Whether to force update the cache.
    pub force: Option<bool>,
    /// The number of concurrent downloads.
    pub limit: Option<usize>,
}

impl Config {
    /// The cache directory, or the caller-resolved platform default when the
    /// configuration names none.
    pub open spec fn spec_cache_dir(self, default: Seq<char>) -> Seq<char> {
        match self.cache_dir {
            Some(d) => d@,
            None => default,
        }
    }

    /// Progress bars are shown unless switched off.
    pub open spec fn spec_progress(self) -> bool {
        match self.progress {
            Some(p) => p,
            None => true,
        }
    }

    /// The refresh interval defaults to one day.
    pub open spec fn spec_update_interval(self) -> u64 {
        match self.update_interval {
            Some(i) => i,
            None => 86400,
        }
    }

    /// A refresh is not forced unless asked for.
    pub open spec fn spec_force(self) -> bool {
        match self.force {
            Some(f) => f,
            None => false,
        }
    }

    /// At most five documentation sets are updated concurrently by default.
    pub open spec fn spec_limit(self) -> usize {
        match self.limit {
            Some(l) => l,
            None => 5,
        }
    }

    /// The configured cache directory; `default` stands in when none is
    /// configured (the platform cache home, resolved by the caller).
    pub fn cache_dir<'a>(&'a self, default: &'a str) -> (r: &'a str)
        ensures
            r@ == self.spec_cache_dir(default@),
    {
        match &self.cache_dir {
            Some(d) => d.as_str(),
            None => default,
        }
    }

    pub fn progress(&self) -> (r: bool)
        ensures
            r == self.spec_progress(),
    {
        match self.progress {
            Some(p) => p,
            None => true,
        }
    }

    pub fn update_interval(&self) -> (r: u64)
        ensures
            r == self.spec_update_interval(),
    {
        match self.update_interval {
            Some(i) => i,
            None => 86400,
        }
    }

    pub fn force(&self) -> (r: bool)
        ensures
            r == self.spec_force(),
    {
        match self.force {
            Some(f) => f,
            None => false,
        }
    }

    pub fn limit(&self) -> (r: usize)
        ensures
            r == self.spec_limit(),
    {
        match self.limit {
            Some(l) => l,
            None => 5,
        }
    }

    /// Overlays `other` on `self`: every field set in `other` wins, every
    /// field left unset keeps the value from `self`.
    pub fn extends(self, other: Config) -> (r: Config)
        ensures
            r.cache_dir == (if other.cache_dir is Some { other.cache_dir } else { self.cache_dir }),
            r.progress == (if other.progress is Some { other.progress } else { self.progress }),
            r.update_interval == (if other.update_interval is Some {
                other.update_interval
            } else {
                self.update_interval
            }),
            r.force == (if other.force is Some { other.force } else { self.force }),
            r.limit == (if other.limit is Some { other.limit } else { self.limit }),
    {
        Config {
            cache_dir: match other.cache_dir {
                Some(d) => Some(d),
                None => self.cache_dir,
            },
            progress: match other.progress {
                Some(p) => Some(p),
                None => self.progress,
            },
            update_interval: match other.update_interval {
                Some(i) => Some(i),
                None => self.update_interval,
            },
            force: match other.force {
                Some(f) => Some(f),
                None => self.force,
            },
            limit: match other.limit {
                Some(l) => Some(l),
                None => self.limit,
            },
        }
    }

    /// The configuration read from the configuration file: the parsed value
    /// when loading succeeded, and the default configuration when the file
    /// was missing or malformed.
    pub fn new_from_file(loaded: Option<Config>) -> (r: Config)
        ensures
            r == (match loaded {
                Some(c) => c,
                None => Config {
                    cache_dir: None,
                    progress: None,
                    update_interval: None,
                    force: None,
                    limit: None,
                },
            }),
    {
        match loaded {
            Some(c) => c,
            None => Config::default(),
        }
    }
}

impl Default for Config {
    /// The default configuration leaves every field unset.
    fn default() -> (r: Config)
        ensures
            r.cache_dir is None,
            r.progress is None,
            r.update_interval is None,
            r.force is None,
            r.limit is None,
    {
        Config { cache_dir: None, progress: None, update_interval: None, force: None, limit: None }
    }
}

} // verus!
