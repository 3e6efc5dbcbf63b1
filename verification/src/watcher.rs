//! The watcher's decision core: debouncing of file-change events and the
//! bookkeeping of when the serving registry was produced. The surrounding
//! process installs the filesystem watches, runs the timer, and rebuilds;
//! every decision it takes comes from here.

use vstd::prelude::*;

verus! {

/// Options for configuring a watcher.
pub struct WatcherOptions {
    /// How long to wait after a change before rebuilding, in milliseconds.
    pub debounce_duration_ms: u64,
}

impl Default for WatcherOptions {
    /// One second of debounce.
    fn default() -> (r: Self)
        ensures
            r.debounce_duration_ms == 1000,
    {
        WatcherOptions { debounce_duration_ms: 1000 }
    }
}

impl Clone for WatcherOptions {
    fn clone(&self) -> (r: Self)
        ensures
            r == self,
    {
        WatcherOptions { debounce_duration_ms: self.debounce_duration_ms }
    }
}

/// The mathematical state of the debounce machine.
pub struct WatcherModel {
    pub debounce_ms: int,
    pub deadline_ms: Option<int>,
    pub pending: Seq<Seq<char>>,
    pub last_modified_ms: int,
}

/// The state after a file change at `now`: the rebuild deadline moves one
/// debounce window past `now`, and the path joins the pending set.
pub open spec fn wm_change(m: WatcherModel, path: Seq<char>, now: int) -> WatcherModel {
    WatcherModel {
        deadline_ms: Some(
            if now + m.debounce_ms <= u64::MAX as int {
                now + m.debounce_ms
            } else {
                u64::MAX as int
            },
        ),
        pending: m.pending.push(path),
        ..m
    }
}

/// Whether the timer at `now` fires a rebuild: a deadline is set and has
/// passed.
pub open spec fn wm_timer_fires(m: WatcherModel, now: int) -> bool {
    m.deadline_ms matches Some(d) && now >= d
}

/// The state after a successful rebuild at `now`: the build time only
/// moves forward, even against a clock that stepped back.
pub open spec fn wm_rebuilt(m: WatcherModel, now: int) -> WatcherModel {
    WatcherModel {
        deadline_ms: None,
        pending: Seq::empty(),
        last_modified_ms: if now >= m.last_modified_ms {
            now
        } else {
            m.last_modified_ms
        },
        ..m
    }
}

/// A successful rebuild never moves the build time backwards.
pub proof fn lemma_last_modified_monotonic(m: WatcherModel, now: int)
    ensures
        wm_rebuilt(m, now).last_modified_ms >= m.last_modified_ms,
{
}

/// Watcher liveness: after a tracked file changes, the timer fires as soon
/// as the debounce window elapses, and a rebuild that completes at any
/// later wall-clock time strictly advances the registry's build time.
pub proof fn lemma_watcher_liveness(
    m0: WatcherModel,
    path: Seq<char>,
    t_change: int,
    t_timer: int,
    t_build: int,
)
    requires
        wm_change(m0, path, t_change).deadline_ms matches Some(d) && t_timer >= d,
        t_build > m0.last_modified_ms,
    ensures
        wm_timer_fires(wm_change(m0, path, t_change), t_timer),
        wm_rebuilt(wm_change(m0, path, t_change), t_build).last_modified_ms
            > m0.last_modified_ms,
{
}

/// The live debounce state a watcher worker drives.
pub struct OptionsWatcherState {
    pub debounce_duration_ms: u64,
    pub deadline_ms: Option<u64>,
    pub pending_paths: Vec<String>,
    pub last_modified_ms: u64,
}

impl OptionsWatcherState {
    pub open spec fn model(self) -> WatcherModel {
        WatcherModel {
            debounce_ms: self.debounce_duration_ms as int,
            deadline_ms: match self.deadline_ms {
                Some(d) => Some(d as int),
                None => None,
            },
            pending: crate::locator::strs_view(self.pending_paths@),
            last_modified_ms: self.last_modified_ms as int,
        }
    }

    pub fn new(debounce_duration_ms: u64, now_ms: u64) -> (r: Self)
        ensures
            r.model() == (WatcherModel {
                debounce_ms: debounce_duration_ms as int,
                deadline_ms: None,
                pending: Seq::empty(),
                last_modified_ms: now_ms as int,
            }),
    {
        let r = OptionsWatcherState {
            debounce_duration_ms,
            deadline_ms: None,
            pending_paths: Vec::new(),
            last_modified_ms: now_ms,
        };
        proof {
            assert(crate::locator::strs_view(r.pending_paths@) =~= Seq::<Seq<char>>::empty());
        }
        r
    }

    /// Records a change: the rebuild deadline moves one debounce window
    /// past `now_ms`.
    pub fn on_file_changed(&mut self, path: String, now_ms: u64)
        ensures
            final(self).model() == wm_change(old(self).model(), path@, now_ms as int),
    {
        self.deadline_ms = Some(
            if now_ms <= u64::MAX - self.debounce_duration_ms {
                now_ms + self.debounce_duration_ms
            } else {
                u64::MAX
            },
        );
        let ghost prev = self.pending_paths@;
        self.pending_paths.push(path);
        proof {
            assert(crate::locator::strs_view(self.pending_paths@) =~= crate::locator::strs_view(
                prev,
            ).push(self.pending_paths@.last()@));
        }
    }

    /// Fires when the debounce window has elapsed: hands back the changed
    /// paths and clears the pending state.
    pub fn on_timer(&mut self, now_ms: u64) -> (r: Option<Vec<String>>)
        ensures
            wm_timer_fires(old(self).model(), now_ms as int) ==> (r matches Some(paths)
                && crate::locator::strs_view(paths@) == old(self).model().pending
                && final(self).model() == (WatcherModel {
                deadline_ms: None,
                pending: Seq::empty(),
                ..old(self).model()
            })),
            !wm_timer_fires(old(self).model(), now_ms as int) ==> r is None && *final(self)
                == *old(self),
    {
        let fires = match self.deadline_ms {
            Some(d) => now_ms >= d,
            None => false,
        };
        if fires {
            self.deadline_ms = None;
            let mut taken: Vec<String> = Vec::new();
            core::mem::swap(&mut taken, &mut self.pending_paths);
            proof {
                assert(crate::locator::strs_view(self.pending_paths@) =~= Seq::<
                    Seq<char>,
                >::empty());
            }
            Some(taken)
        } else {
            None
        }
    }

    /// Records that a rebuild finished successfully at `now_ms`; the new
    /// registry serves from that moment on.
    pub fn on_rebuild_succeeded(&mut self, now_ms: u64)
        ensures
            final(self).model() == wm_rebuilt(old(self).model(), now_ms as int),
            final(self).last_modified_ms >= old(self).last_modified_ms,
    {
        if now_ms >= self.last_modified_ms {
            self.last_modified_ms = now_ms;
        }
        self.deadline_ms = None;
        self.pending_paths = Vec::new();
        proof {
            assert(crate::locator::strs_view(self.pending_paths@) =~= Seq::<Seq<char>>::empty());
        }
    }

    /// A failed rebuild leaves the serving registry, and its build time,
    /// alone.
    pub fn on_rebuild_failed(&mut self)
        ensures
            final(self).model() == (WatcherModel {
                deadline_ms: None,
                pending: Seq::empty(),
                ..old(self).model()
            }),
    {
        self.deadline_ms = None;
        self.pending_paths = Vec::new();
        proof {
            assert(crate::locator::strs_view(self.pending_paths@) =~= Seq::<Seq<char>>::empty());
        }
    }
}

/// Collects the directories an options watcher will watch and rebuild
/// from.
pub struct OptionsWatcherBuilder {
    watched_directories: Vec<String>,
    debounce_timeout_ms: u64,
}

impl OptionsWatcherBuilder {
    pub closed spec fn spec_directories(self) -> Seq<Seq<char>> {
        crate::locator::strs_view(self.watched_directories@)
    }

    pub closed spec fn spec_debounce_ms(self) -> u64 {
        self.debounce_timeout_ms
    }

    pub fn new() -> (r: Self)
        ensures
            r.spec_directories() == Seq::<Seq<char>>::empty(),
            r.spec_debounce_ms() == 1000,
    {
        let r = OptionsWatcherBuilder { watched_directories: Vec::new(), debounce_timeout_ms: 1000 };
        proof {
            assert(crate::locator::strs_view(r.watched_directories@) =~= Seq::<Seq<char>>::empty());
        }
        r
    }

    /// Sets how long to wait after file changes before rebuilding.
    pub fn with_debounce_timeout(&mut self, debounce_timeout_ms: u64) -> (r: Result<(), String>)
        ensures
            r is Ok,
            final(self).spec_debounce_ms() == debounce_timeout_ms,
            final(self).spec_directories() == old(self).spec_directories(),
    {
        self.debounce_timeout_ms = debounce_timeout_ms;
        Ok(())
    }

    /// Applies packaged watcher options.
    pub fn with_watcher_options(&mut self, options: WatcherOptions)
        ensures
            final(self).spec_debounce_ms() == options.debounce_duration_ms,
            final(self).spec_directories() == old(self).spec_directories(),
    {
        self.debounce_timeout_ms = options.debounce_duration_ms;
    }

    /// Adds a directory to watch for changes.
    pub fn add_directory(&mut self, directory: &str) -> (r: Result<(), String>)
        ensures
            r is Ok,
            final(self).spec_directories() == old(self).spec_directories().push(directory@),
            final(self).spec_debounce_ms() == old(self).spec_debounce_ms(),
    {
        let ghost prev = self.watched_directories@;
        self.watched_directories.push(directory.to_owned());
        proof {
            assert(crate::locator::strs_view(self.watched_directories@) =~= crate::locator::strs_view(
                prev,
            ).push(directory@));
        }
        Ok(())
    }

    /// The directories added so far, for the process that installs the
    /// watches.
    pub fn directories(&self) -> (r: &Vec<String>)
        ensures
            crate::locator::strs_view(r@) == self.spec_directories(),
    {
        &self.watched_directories
    }

    /// The configured debounce, for the process that runs the timer.
    pub fn debounce_timeout_ms(&self) -> (r: u64)
        ensures
            r == self.spec_debounce_ms(),
    {
        self.debounce_timeout_ms
    }
}

/// Collects the directories a watchable provider loads from.
pub struct WatchableOptionsProviderBuilder {
    watched_directories: Vec<String>,
}

impl WatchableOptionsProviderBuilder {
    pub closed spec fn spec_directories(self) -> Seq<Seq<char>> {
        crate::locator::strs_view(self.watched_directories@)
    }

    pub fn new() -> (r: Self)
        ensures
            r.spec_directories() == Seq::<Seq<char>>::empty(),
    {
        let r = WatchableOptionsProviderBuilder { watched_directories: Vec::new() };
        proof {
            assert(crate::locator::strs_view(r.watched_directories@) =~= Seq::<Seq<char>>::empty());
        }
        r
    }

    /// Adds a directory whose feature files the provider will load and
    /// watch.
    pub fn add_directory(&mut self, directory: &str) -> (r: Result<(), String>)
        ensures
            r is Ok,
            final(self).spec_directories() == old(self).spec_directories().push(directory@),
    {
        let ghost prev = self.watched_directories@;
        self.watched_directories.push(directory.to_owned());
        proof {
            assert(crate::locator::strs_view(self.watched_directories@) =~= crate::locator::strs_view(
                prev,
            ).push(directory@));
        }
        Ok(())
    }

    /// The directories added so far.
    pub fn directories(&self) -> (r: &Vec<String>)
        ensures
            crate::locator::strs_view(r@) == self.spec_directories(),
    {
        &self.watched_directories
    }
}

} // verus!
