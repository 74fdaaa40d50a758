//! The list of watched files: which paths are watched, and which cache
//! entry each of them invalidates.
//!
//! Watching itself is done by the operating system on the caller's behalf.
//! The list decides whether a path needs a new watch, and what an event on
//! a path means for the cache. Watches are never released.

use crate::cache::InvalidationTrigger;
use vstd::prelude::*;

verus! {

/// For how many milliseconds changes of a file are held back, so that the
/// writes of one save arrive as one event.
pub const DEBOUNCE_MILLIS: u64 = 100;

/// The kinds of change that the operating system reports.
#[derive(Clone, Copy, Debug, PartialEq, Eq, Structural)]
pub enum FileEvent {
    /// The content of the file was written.
    Write,
    /// Anything else: created, removed, renamed, permissions changed.
    Other,
}

struct Watch {
    path: String,
    trigger: InvalidationTrigger,
}

/// The abstract state of one watch.
pub struct WatchView {
    pub path: Seq<char>,
    pub trigger: InvalidationTrigger,
}

/// The watched files.
pub struct WatchList {
    watches: Vec<Watch>,
}

impl View for WatchList {
    type V = Seq<WatchView>;

    closed spec fn view(&self) -> Seq<WatchView> {
        Seq::new(
            self.watches@.len(),
            |i: int| WatchView { path: self.watches@[i].path@, trigger: self.watches@[i].trigger },
        )
    }
}

/// The position of the watch on `path`, or the number of watches if the
/// path is not watched.
pub open spec fn watch_position(watches: Seq<WatchView>, path: Seq<char>) -> int
    decreases watches.len(),
{
    if watches.len() == 0 {
        0
    } else if watches.first().path == path {
        0
    } else {
        1 + watch_position(watches.drop_first(), path)
    }
}

/// Whether `path` is watched.
pub open spec fn watched(watches: Seq<WatchView>, path: Seq<char>) -> bool {
    watch_position(watches, path) < watches.len()
}

impl WatchList {
    /// A list without watches.
    pub fn new() -> (list: WatchList)
        ensures
            list@.len() == 0,
    {
        WatchList { watches: Vec::new() }
    }

    /// The number of watched paths.
    pub fn len(&self) -> (n: usize)
        ensures
            n == self@.len(),
    {
        self.watches.len()
    }

    fn find(&self, path: &str) -> (at: usize)
        ensures
            at == watch_position(self@, path@),
            at <= self@.len(),
    {
        let ghost all = self@;
        let wanted = path.to_owned();
        let mut i: usize = 0;
        assert(all.skip(0) =~= all);
        while i < self.watches.len()
            invariant
                i <= self.watches.len(),
                all == self@,
                wanted@ == path@,
                watch_position(all, path@) == i + watch_position(all.skip(i as int), path@),
            decreases self.watches.len() - i,
        {
            proof {
                assert(all.skip(i as int).first() == all[i as int]);
                assert(all.skip(i as int).drop_first() =~= all.skip(i + 1));
            }
            if self.watches[i].path == wanted {
                return i;
            }
            i += 1;
        }
        assert(all.skip(self.watches.len() as int) =~= Seq::empty());
        i
    }

    /// Notes that a change of the file at `path` is to fire `trigger`.
    /// Says whether the path needs a new watch: a path that is watched
    /// already only has its trigger replaced.
    pub fn watch(&mut self, path: &str, trigger: InvalidationTrigger) -> (is_new: bool)
        ensures
            is_new == !watched(old(self)@, path@),
            final(self)@ == if is_new {
                old(self)@.push(WatchView { path: path@, trigger })
            } else {
                old(self)@.update(
                    watch_position(old(self)@, path@),
                    WatchView { path: path@, trigger },
                )
            },
    {
        let at = self.find(path);
        if at < self.watches.len() {
            self.watches[at].trigger = trigger;
            proof {
                lemma_watch_position(old(self)@, path@);
                assert(self@ =~= old(self)@.update(at as int, WatchView { path: path@, trigger }));
            }
            false
        } else {
            self.watches.push(Watch { path: path.to_owned(), trigger });
            assert(self@ =~= old(self)@.push(WatchView { path: path@, trigger }));
            true
        }
    }

    /// The trigger to fire for an event on the file at `path`: that of the
    /// path's watch if the file was written, none for any other event and
    /// for a path that is not watched.
    pub fn on_event(&self, path: &str, event: FileEvent) -> (fire: Option<InvalidationTrigger>)
        ensures
            fire == if event == FileEvent::Write && watched(self@, path@) {
                Some(self@[watch_position(self@, path@)].trigger)
            } else {
                None
            },
    {
        match event {
            FileEvent::Write => {
                let at = self.find(path);
                if at < self.watches.len() {
                    Some(self.watches[at].trigger)
                } else {
                    None
                }
            },
            FileEvent::Other => None,
        }
    }
}

proof fn lemma_watch_position(watches: Seq<WatchView>, path: Seq<char>)
    ensures
        0 <= watch_position(watches, path) <= watches.len(),
        watched(watches, path) ==> watches[watch_position(watches, path)].path == path,
    decreases watches.len(),
{
    if watches.len() > 0 && watches.first().path != path {
        lemma_watch_position(watches.drop_first(), path);
        let at = watch_position(watches.drop_first(), path);
        if at < watches.len() - 1 {
            assert(watches.drop_first()[at] == watches[at + 1]);
        }
    }
}

} // verus!
