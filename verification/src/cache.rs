//! The artifact cache: one entry per work descriptor, holding the latest
//! output together with a validity flag and an in-progress marker.
//!
//! The cache never runs work itself. `evaluate` tells the caller whether the
//! stored output is current, whether somebody else is already producing it,
//! or whether the caller has to run the work and hand the result to
//! `complete`. Entries are kept for the lifetime of the cache.

use vstd::prelude::*;

verus! {

/// The kinds of derived artifact the cache knows about.
#[derive(Clone, Copy, Debug, PartialEq, Eq, Hash, Structural)]
pub enum WorkKind {
    /// The bytes of the file at a path.
    LoadFile,
    /// The include-expanded source of the shader at a path.
    PreprocessShader,
}

/// An immutable description of one unit of derived computation. Two
/// descriptors with equal fields denote the same cache entry.
#[derive(Clone, Debug, Hash)]
pub struct WorkDescriptor {
    pub kind: WorkKind,
    pub path: String,
}

/// What identifies a cache entry: the descriptor's content.
pub struct WorkId {
    pub kind: WorkKind,
    pub path: Seq<char>,
}

impl View for WorkDescriptor {
    type V = WorkId;

    open spec fn view(&self) -> WorkId {
        WorkId { kind: self.kind, path: self.path@ }
    }
}

impl WorkDescriptor {
    pub fn new(kind: WorkKind, path: String) -> (d: WorkDescriptor)
        ensures
            d@ == (WorkId { kind, path: path@ }),
    {
        WorkDescriptor { kind, path }
    }

    /// Content equality.
    pub fn same(&self, other: &WorkDescriptor) -> (b: bool)
        ensures
            b == (self@ == other@),
    {
        let kinds = match (self.kind, other.kind) {
            (WorkKind::LoadFile, WorkKind::LoadFile) => true,
            (WorkKind::PreprocessShader, WorkKind::PreprocessShader) => true,
            _ => false,
        };
        kinds && self.path == other.path
    }

    /// A copy with the same content.
    pub fn duplicate(&self) -> (d: WorkDescriptor)
        ensures
            d@ == self@,
    {
        WorkDescriptor { kind: self.kind, path: self.path.clone() }
    }
}

/// Entitles its holder to ask for the current value of one cache entry.
/// Handles are small and freely copied; many may name one entry.
#[derive(Clone, Copy, Debug, PartialEq, Eq, Hash, Structural)]
pub struct Handle {
    index: usize,
}

impl Handle {
    /// The position of the entry this handle names.
    pub closed spec fn slot(self) -> int {
        self.index as int
    }

    /// The capability to mark this handle's entry stale.
    pub fn invalidation_trigger(&self) -> (t: InvalidationTrigger)
        ensures
            t.slot() == self.slot(),
    {
        InvalidationTrigger { index: self.index }
    }
}

/// Marks one cache entry stale when handed to `ArtifactCache::invalidate`.
/// It may be used any number of times.
#[derive(Clone, Copy, Debug, PartialEq, Eq, Hash, Structural)]
pub struct InvalidationTrigger {
    index: usize,
}

impl InvalidationTrigger {
    /// The position of the entry this trigger marks.
    pub closed spec fn slot(self) -> int {
        self.index as int
    }
}

/// The answer to a request for an artifact.
#[derive(Clone, Copy, Debug, PartialEq, Eq, Structural)]
pub enum Evaluation {
    /// The stored output is current; read it with `output`.
    Current(Handle),
    /// The caller has to run the work now and pass its result to `complete`.
    Run(Handle),
    /// A run of this work is already under way; its result will be shared.
    InFlight(Handle),
}

/// The three answers, with the entry named by position.
pub enum Step {
    Current(int),
    Run(int),
    InFlight(int),
}

impl View for Evaluation {
    type V = Step;

    open spec fn view(&self) -> Step {
        match *self {
            Evaluation::Current(h) => Step::Current(h.slot()),
            Evaluation::Run(h) => Step::Run(h.slot()),
            Evaluation::InFlight(h) => Step::InFlight(h.slot()),
        }
    }
}

/// The abstract state of one entry.
#[verifier::ext_equal]
pub struct EntryState<T> {
    /// The descriptor content the entry is keyed by.
    pub id: WorkId,
    /// The result of the last completed run, if any.
    pub output: Option<T>,
    /// Set by invalidation, cleared when a run starts.
    pub dirty: bool,
    /// Set when a run starts, cleared when it completes.
    pub in_progress: bool,
    /// The entries that the current or last run of this entry read.
    pub deps: Set<int>,
}

/// The abstract state of the cache: its entries, by position.
#[verifier::ext_equal]
pub struct CacheState<T> {
    pub entries: Seq<EntryState<T>>,
}

impl<T> CacheState<T> {
    pub open spec fn empty() -> Self {
        CacheState { entries: Seq::empty() }
    }

    pub open spec fn holds(self, i: int) -> bool {
        0 <= i < self.entries.len()
    }

    pub open spec fn wf(self) -> bool {
        &&& forall|i: int, j: int|
            self.holds(i) && self.holds(j) && #[trigger] self.entries[i].id
                == #[trigger] self.entries[j].id ==> i == j
        &&& forall|i: int, d: int|
            self.holds(i) && #[trigger] self.entries[i].deps.contains(d) ==> self.holds(d)
        &&& forall|i: int|
            self.holds(i) && !(#[trigger] self.entries[i]).dirty && !self.entries[i].in_progress
                ==> self.entries[i].output is Some
    }

    /// Some entry is keyed by `id`.
    pub open spec fn knows(self, id: WorkId) -> bool {
        exists|i: int| self.holds(i) && #[trigger] self.entries[i].id == id
    }

    /// The position of the entry keyed by `id`.
    pub open spec fn position(self, id: WorkId) -> int {
        choose|i: int| self.holds(i) && #[trigger] self.entries[i].id == id
    }

    /// The entry's last run is still valid.
    pub open spec fn is_up_to_date(self, i: int) -> bool {
        self.holds(i) && !self.entries[i].dirty && !self.entries[i].in_progress
    }

    /// A fresh entry: never evaluated, so it needs a run.
    pub open spec fn fresh(id: WorkId) -> EntryState<T> {
        EntryState { id, output: None, dirty: true, in_progress: false, deps: Set::empty() }
    }

    /// The cache with an entry for `id`, added at the end when none exists.
    pub open spec fn intern(self, id: WorkId) -> Self {
        if self.knows(id) {
            self
        } else {
            CacheState { entries: self.entries.push(Self::fresh(id)) }
        }
    }

    /// The position of the entry for `id` once it is interned.
    pub open spec fn slot_of(self, id: WorkId) -> int {
        if self.knows(id) {
            self.position(id)
        } else {
            self.entries.len() as int
        }
    }

    /// The entry at `i` as it is when a run of it starts.
    pub open spec fn started(e: EntryState<T>) -> EntryState<T> {
        EntryState { dirty: false, in_progress: true, deps: Set::empty(), ..e }
    }

    /// What a request for `id` answers.
    pub open spec fn answer(self, id: WorkId) -> Step {
        let i = self.slot_of(id);
        let e = self.intern(id).entries[i];
        if e.in_progress {
            Step::InFlight(i)
        } else if e.dirty {
            Step::Run(i)
        } else {
            Step::Current(i)
        }
    }

    /// The cache after a request for `id`.
    pub open spec fn evaluate(self, id: WorkId) -> Self {
        let c = self.intern(id);
        let i = self.slot_of(id);
        if self.answer(id) is Run {
            CacheState { entries: c.entries.update(i, Self::started(c.entries[i])) }
        } else {
            c
        }
    }

    /// A run of entry `i` is under way and can be completed.
    pub open spec fn running(self, i: int) -> bool {
        self.holds(i) && self.entries[i].in_progress
    }

    /// The cache after the run of entry `i` ended with `output`.
    pub open spec fn complete(self, i: int, output: T) -> Self {
        if self.running(i) {
            CacheState {
                entries: self.entries.update(
                    i,
                    EntryState { output: Some(output), in_progress: false, ..self.entries[i] },
                ),
            }
        } else {
            self
        }
    }

    /// The cache after the running entry `reader` read entry `source`.
    pub open spec fn depend(self, reader: int, source: int) -> Self {
        if self.running(reader) && self.holds(source) {
            CacheState {
                entries: self.entries.update(
                    reader,
                    EntryState {
                        deps: self.entries[reader].deps.insert(source),
                        ..self.entries[reader]
                    },
                ),
            }
        } else {
            self
        }
    }

    /// Entry `reader` read entry `source` in its current or last run.
    pub open spec fn reads(self, reader: int, source: int) -> bool {
        self.holds(reader) && self.entries[reader].deps.contains(source)
    }

    /// Each element of `p` after the first read the one before it.
    pub open spec fn chain(self, p: Seq<int>) -> bool {
        &&& p.len() > 0
        &&& forall|k: int| 0 <= k < p.len() - 1 ==> self.reads(#[trigger] p[k + 1], p[k])
    }

    /// `to` is `from` itself or was derived from it, directly or through
    /// other entries.
    pub open spec fn reaches(self, from: int, to: int) -> bool {
        exists|p: Seq<int>| #[trigger] self.chain(p) && p.first() == from && p.last() == to
    }

    /// The cache after the trigger of entry `i` fired: the entry and
    /// everything derived from it is dirty, nothing else changes.
    pub open spec fn invalidate(self, i: int) -> Self {
        CacheState {
            entries: Seq::new(
                self.entries.len(),
                |j: int|
                    if self.reaches(i, j) {
                        EntryState { dirty: true, ..self.entries[j] }
                    } else {
                        self.entries[j]
                    },
            ),
        }
    }
}

struct CacheEntry<T> {
    descriptor: WorkDescriptor,
    output: Option<T>,
    dirty: bool,
    in_progress: bool,
    deps: Vec<usize>,
}

impl<T> CacheEntry<T> {
    spec fn state(self) -> EntryState<T> {
        EntryState {
            id: self.descriptor@,
            output: self.output,
            dirty: self.dirty,
            in_progress: self.in_progress,
            deps: Set::new(|d: int| 0 <= d <= usize::MAX && self.deps@.contains(d as usize)),
        }
    }
}

/// The memoization engine. It maps a work descriptor's content to the
/// latest output and is the sole authority on whether that output is
/// still current.
pub struct ArtifactCache<T> {
    entries: Vec<CacheEntry<T>>,
}

impl<T> View for ArtifactCache<T> {
    type V = CacheState<T>;

    closed spec fn view(&self) -> CacheState<T> {
        CacheState { entries: Seq::new(self.entries@.len(), |i: int| self.entries@[i].state()) }
    }
}

/// How many positions of `seen` are still unmarked.
spec fn unseen(seen: Seq<bool>) -> nat
    decreases seen.len(),
{
    if seen.len() == 0 {
        0
    } else {
        unseen(seen.drop_last()) + if seen.last() {
            0nat
        } else {
            1nat
        }
    }
}

proof fn lemma_marking_lowers_unseen(seen: Seq<bool>, i: int)
    requires
        0 <= i < seen.len(),
        !seen[i],
    ensures
        unseen(seen.update(i, true)) + 1 == unseen(seen),
    decreases seen.len(),
{
    if i == seen.len() - 1 {
        assert(seen.update(i, true).drop_last() =~= seen.drop_last());
    } else {
        lemma_marking_lowers_unseen(seen.drop_last(), i);
        assert(seen.update(i, true).drop_last() =~= seen.drop_last().update(i, true));
    }
}

/// A set of marks that holds `start` and, with each entry, the entries that
/// read it, holds every entry along a chain from `start`.
proof fn lemma_closed_marks_cover_chains<T>(
    c: CacheState<T>,
    seen: Seq<bool>,
    start: int,
    p: Seq<int>,
    k: int,
)
    requires
        seen.len() == c.entries.len(),
        c.holds(start),
        seen[start],
        forall|j: int, r: int| c.holds(j) && seen[j] && #[trigger] c.reads(r, j) ==> seen[r],
        c.chain(p),
        p.first() == start,
        0 <= k < p.len(),
    ensures
        c.holds(p[k]),
        seen[p[k]],
    decreases k,
{
    if k > 0 {
        lemma_closed_marks_cover_chains(c, seen, start, p, k - 1);
        assert(c.reads(p[(k - 1) + 1], p[k - 1]));
    }
}

/// A chain can be extended by an entry that read its last element.
proof fn lemma_reaches_step<T>(c: CacheState<T>, from: int, via: int, to: int)
    requires
        c.reaches(from, via),
        c.reads(to, via),
    ensures
        c.reaches(from, to),
{
    let p = choose|p: Seq<int>| #[trigger] c.chain(p) && p.first() == from && p.last() == via;
    let q = p.push(to);
    assert forall|k: int| 0 <= k < q.len() - 1 implies c.reads(#[trigger] q[k + 1], q[k]) by {
        if k < p.len() - 1 {
            assert(c.reads(p[k + 1], p[k]));
        }
    }
    assert(c.chain(q) && q.first() == from && q.last() == to);
}

/// Whether `deps` lists `x`.
fn lists(deps: &Vec<usize>, x: usize) -> (b: bool)
    ensures
        b == deps@.contains(x),
{
    let mut k: usize = 0;
    while k < deps.len()
        invariant
            k <= deps.len(),
            forall|m: int| 0 <= m < k ==> deps@[m] != x,
        decreases deps.len() - k,
    {
        if deps[k] == x {
            return true;
        }
        k += 1;
    }
    false
}

impl<T> ArtifactCache<T> {
    /// A cache without entries.
    pub fn new() -> (cache: Self)
        ensures
            cache@ == CacheState::<T>::empty(),
            cache@.wf(),
    {
        let cache = ArtifactCache { entries: Vec::new() };
        assert(cache@.entries =~= Seq::empty());
        cache
    }

    /// The number of entries.
    pub fn len(&self) -> (n: usize)
        ensures
            n == self@.entries.len(),
    {
        self.entries.len()
    }

    /// The handle of the entry for `descriptor`, if there is one.
    pub fn lookup(&self, descriptor: &WorkDescriptor) -> (found: Option<Handle>)
        requires
            self@.wf(),
        ensures
            found is Some <==> self@.knows(descriptor@),
            found matches Some(h) ==> h.slot() == self@.position(descriptor@),
    {
        let mut i: usize = 0;
        while i < self.entries.len()
            invariant
                self@.wf(),
                i <= self.entries.len(),
                forall|k: int| 0 <= k < i ==> (#[trigger] self@.entries[k]).id != descriptor@,
            decreases self.entries.len() - i,
        {
            if self.entries[i].descriptor.same(descriptor) {
                proof {
                    let p = self@.position(descriptor@);
                    assert(self@.entries[i as int].id == descriptor@);
                    assert(self@.holds(p) && self@.entries[p].id == descriptor@);
                }
                return Some(Handle { index: i });
            }
            i += 1;
        }
        None
    }

    /// Asks for the artifact that `descriptor` describes. An entry is made
    /// for it if none exists. The answer says whether the stored output is
    /// current, whether a run is already under way, or whether the caller
    /// has to run the work; in the last case the entry is marked as in
    /// progress, its dirty flag is cleared and its recorded reads are
    /// forgotten.
    pub fn evaluate(&mut self, descriptor: &WorkDescriptor) -> (answer: Evaluation)
        requires
            old(self)@.wf(),
        ensures
            final(self)@.wf(),
            final(self)@ == old(self)@.evaluate(descriptor@),
            answer@ == old(self)@.answer(descriptor@),
    {
        let found = self.lookup(descriptor);
        let i: usize = match found {
            Some(h) => h.index,
            None => {
                self.entries.push(
                    CacheEntry {
                        descriptor: descriptor.duplicate(),
                        output: None,
                        dirty: true,
                        in_progress: false,
                        deps: Vec::new(),
                    },
                );
                self.entries.len() - 1
            },
        };
        proof {
            assert(self@.entries[i as int].deps =~= CacheState::<T>::fresh(descriptor@).deps
                || old(self)@.knows(descriptor@));
            assert(self@ =~~= old(self)@.intern(descriptor@));
            assert(i == old(self)@.slot_of(descriptor@));
        }
        let handle = Handle { index: i };
        if self.entries[i].in_progress {
            Evaluation::InFlight(handle)
        } else if self.entries[i].dirty {
            let ghost before = self@;
            self.entries[i].dirty = false;
            self.entries[i].in_progress = true;
            self.entries[i].deps = Vec::new();
            proof {
                assert(self@.entries[i as int] =~~= CacheState::<T>::started(
                    before.entries[i as int],
                ));
                assert(self@ =~~= old(self)@.evaluate(descriptor@));
            }
            Evaluation::Run(handle)
        } else {
            Evaluation::Current(handle)
        }
    }

    /// Evaluates `descriptor` with `work` as its work item: if no entry
    /// exists for it or the entry is dirty, `work` is run once and its
    /// result is stored; in any other case `work` is not run and the cache
    /// stays as it is. The output is read through the handle.
    pub fn evaluate_with<F: FnOnce() -> T>(&mut self, descriptor: &WorkDescriptor, work: F) -> (handle:
        Handle)
        requires
            old(self)@.wf(),
            work.requires(()),
        ensures
            final(self)@.wf(),
            handle.slot() == old(self)@.slot_of(descriptor@),
            old(self)@.answer(descriptor@) is Run ==> exists|output: T|
                #[trigger] work.ensures((), output) && final(self)@ == old(self)@.evaluate(
                    descriptor@,
                ).complete(handle.slot(), output),
            !(old(self)@.answer(descriptor@) is Run) ==> final(self)@ == old(self)@.evaluate(
                descriptor@,
            ),
    {
        match self.evaluate(descriptor) {
            Evaluation::Run(handle) => {
                let output = work();
                let ghost made = output;
                self.complete(handle, output);
                proof {
                    assert(work.ensures((), made) && self@ == old(self)@.evaluate(
                        descriptor@,
                    ).complete(handle.slot(), made));
                }
                handle
            },
            Evaluation::Current(handle) => handle,
            Evaluation::InFlight(handle) => handle,
        }
    }

    /// Stores `output` as the result of the run of `handle`'s entry and
    /// clears its in-progress marker. A failure is stored like any other
    /// output. The dirty flag is left alone: an invalidation that arrived
    /// during the run keeps the entry stale. Returns whether a run of the
    /// entry was under way; if not, nothing changes.
    pub fn complete(&mut self, handle: Handle, output: T) -> (accepted: bool)
        requires
            old(self)@.wf(),
        ensures
            final(self)@.wf(),
            accepted == old(self)@.running(handle.slot()),
            final(self)@ == old(self)@.complete(handle.slot(), output),
    {
        let i = handle.index;
        if i < self.entries.len() && self.entries[i].in_progress {
            self.entries[i].output = Some(output);
            self.entries[i].in_progress = false;
            proof {
                assert(self@ =~~= old(self)@.complete(handle.slot(), output));
            }
            true
        } else {
            false
        }
    }

    /// Records that the running entry `reader` read the entry `source`, so
    /// that invalidating `source` also invalidates `reader`. Returns whether
    /// the read was recorded: `reader` has to be running and `source` has to
    /// exist.
    pub fn depend(&mut self, reader: Handle, source: Handle) -> (recorded: bool)
        requires
            old(self)@.wf(),
        ensures
            final(self)@.wf(),
            recorded == (old(self)@.running(reader.slot()) && old(self)@.holds(source.slot())),
            final(self)@ == old(self)@.depend(reader.slot(), source.slot()),
    {
        let r = reader.index;
        let x = source.index;
        if r < self.entries.len() && self.entries[r].in_progress && x < self.entries.len() {
            if !lists(&self.entries[r].deps, x) {
                self.entries[r].deps.push(x);
            }
            proof {
                let want = old(self)@.depend(reader.slot(), source.slot());
                assert(self@.entries[r as int].deps =~= want.entries[r as int].deps) by {
                    assert forall|d: int|
                        self@.entries[r as int].deps.contains(d) == want.entries[r as int].deps.contains(
                            d,
                        ) by {
                        let before = old(self).entries@[r as int].deps@;
                        let after = self.entries@[r as int].deps@;
                        if 0 <= d <= usize::MAX {
                            if before.contains(x) {
                                assert(after == before);
                            } else {
                                assert(after == before.push(x));
                                if before.contains(d as usize) {
                                    let k = choose|k: int| 0 <= k < before.len() && before[k] == d as usize;
                                    assert(after[k] == d as usize);
                                }
                                if d == x {
                                    assert(after[after.len() - 1] == x);
                                }
                            }
                        }
                    }
                }
                assert(self@ =~~= want);
            }
            true
        } else {
            false
        }
    }

    /// Whether the last evaluation of `handle`'s entry is still valid: it
    /// has completed and no invalidation has reached the entry since it
    /// started.
    pub fn is_up_to_date(&self, handle: Handle) -> (current: bool)
        ensures
            current == self@.is_up_to_date(handle.slot()),
    {
        let i = handle.index;
        i < self.entries.len() && !self.entries[i].dirty && !self.entries[i].in_progress
    }

    /// The output of the last completed run of `handle`'s entry, whether or
    /// not it is still current.
    pub fn output(&self, handle: Handle) -> (out: Option<&T>)
        ensures
            match out {
                Some(o) => self@.holds(handle.slot()) && self@.entries[handle.slot()].output
                    == Some(*o),
                None => !self@.holds(handle.slot()) || self@.entries[handle.slot()].output
                    is None,
            },
    {
        let i = handle.index;
        if i < self.entries.len() {
            self.entries[i].output.as_ref()
        } else {
            None
        }
    }

    /// The descriptor that `handle`'s entry is keyed by.
    pub fn descriptor(&self, handle: Handle) -> (d: Option<&WorkDescriptor>)
        ensures
            match d {
                Some(d) => self@.holds(handle.slot()) && self@.entries[handle.slot()].id == d@,
                None => !self@.holds(handle.slot()),
            },
    {
        let i = handle.index;
        if i < self.entries.len() {
            Some(&self.entries[i].descriptor)
        } else {
            None
        }
    }

    /// Fires `trigger`: its entry and every entry derived from it, directly
    /// or through other entries, becomes dirty. Outputs stay readable, and
    /// a run that is under way stays under way. A trigger that names no
    /// entry of this cache changes nothing.
    pub fn invalidate(&mut self, trigger: &InvalidationTrigger)
        requires
            old(self)@.wf(),
        ensures
            final(self)@.wf(),
            final(self)@ == old(self)@.invalidate(trigger.slot()),
    {
        let n = self.entries.len();
        let start = trigger.index;
        let ghost c0 = self@;
        if start >= n {
            proof {
                assert forall|j: int| c0.holds(j) implies !c0.reaches(start as int, j) by {
                    if c0.reaches(start as int, j) {
                        let p = choose|p: Seq<int>| #[trigger]
                            c0.chain(p) && p.first() == start && p.last() == j;
                        let k = 0int;
                        assert(c0.reads(p[k + 1], p[k]));
                    }
                }
                let want = c0.invalidate(start as int);
                assert forall|j: int| 0 <= j < n implies self@.entries[j] == want.entries[j] by {
                    assert(c0.holds(j));
                }
                assert(self@ =~~= want);
            }
            return ;
        }
        let mut seen: Vec<bool> = Vec::new();
        while seen.len() < n
            invariant
                seen.len() <= n,
                forall|j: int| 0 <= j < seen.len() ==> !seen[j],
            decreases n - seen.len(),
        {
            seen.push(false);
        }
        let mut stack: Vec<usize> = Vec::new();
        stack.push(start);
        proof {
            assert(c0.chain(seq![start as int]));
            assert(stack@[0] == start);
        }
        while stack.len() > 0
            invariant
                n == self.entries.len(),
                n == seen.len(),
                n == c0.entries.len(),
                start < n,
                c0.wf(),
                forall|k: int|
                    0 <= k < stack.len() ==> (#[trigger] stack[k]) < n && c0.reaches(
                        start as int,
                        stack[k] as int,
                    ),
                forall|j: int| 0 <= j < n && #[trigger] seen[j] ==> c0.reaches(start as int, j),
                forall|j: int, r: int|
                    0 <= j < n && seen[j] && #[trigger] c0.reads(r, j) ==> seen[r]
                        || stack@.contains(r as usize),
                seen[start as int] || stack@.contains(start),
                forall|j: int|
                    0 <= j < n ==> #[trigger] self@.entries[j] == if seen[j] {
                        EntryState { dirty: true, ..c0.entries[j] }
                    } else {
                        c0.entries[j]
                    },
            decreases unseen(seen@), stack.len(),
        {
            let ghost stack0 = stack@;
            let ghost seen0 = seen@;
            let x = stack.pop().unwrap();
            assert(stack0[stack0.len() - 1] == x);
            assert(forall|v: usize| stack0.contains(v) ==> v == x || stack@.contains(v)) by {
                assert forall|v: usize| stack0.contains(v) implies v == x || stack@.contains(v) by {
                    let k = choose|k: int| 0 <= k < stack0.len() && stack0[k] == v;
                    if k < stack0.len() - 1 {
                        assert(stack@[k] == v);
                    }
                }
            }
            if !seen[x] {
                let ghost mid = self@;
                seen.set(x, true);
                self.entries[x].dirty = true;
                proof {
                    lemma_marking_lowers_unseen(seen0, x as int);
                    assert(seen@ == seen0.update(x as int, true));
                    assert forall|j: int| 0 <= j < n implies #[trigger] self@.entries[j] == if seen[j] {
                        EntryState { dirty: true, ..c0.entries[j] }
                    } else {
                        c0.entries[j]
                    } by {
                        if j == x {
                            assert(self@.entries[j] =~~= EntryState {
                                dirty: true,
                                ..mid.entries[j]
                            });
                        } else {
                            assert(self@.entries[j] == mid.entries[j]);
                        }
                    }
                }
                let ghost stack1 = stack@;
                let mut r: usize = 0;
                while r < n
                    invariant
                        r <= n,
                        x < n,
                        n == self.entries.len(),
                        n == c0.entries.len(),
                        c0.wf(),
                        c0.reaches(start as int, x as int),
                        n == seen.len(),
                        forall|j: int|
                            0 <= j < n ==> #[trigger] self@.entries[j] == if seen[j] {
                                EntryState { dirty: true, ..c0.entries[j] }
                            } else {
                                c0.entries[j]
                            },
                        stack1.len() <= stack.len(),
                        forall|k: int| 0 <= k < stack1.len() ==> stack@[k] == stack1[k],
                        forall|k: int|
                            0 <= k < stack.len() ==> (#[trigger] stack[k]) < n && c0.reaches(
                                start as int,
                                stack[k] as int,
                            ),
                        forall|q: int|
                            0 <= q < r && #[trigger] c0.reads(q, x as int) ==> stack@.contains(
                                q as usize,
                            ),
                    decreases n - r,
                {
                    if lists(&self.entries[r].deps, x) {
                        proof {
                            assert(self@.entries[r as int].deps.contains(x as int));
                            assert(c0.reads(r as int, x as int));
                            lemma_reaches_step(c0, start as int, x as int, r as int);
                        }
                        let ghost before = stack@;
                        stack.push(r);
                        proof {
                            assert(stack@[before.len() as int] == r);
                            assert forall|q: int|
                                0 <= q < r + 1 && #[trigger] c0.reads(
                                    q,
                                    x as int,
                                ) implies stack@.contains(q as usize) by {
                                if q < r {
                                    let k = choose|k: int|
                                        0 <= k < before.len() && before[k] == q as usize;
                                    assert(stack@[k] == q as usize);
                                }
                            }
                        }
                    } else {
                        proof {
                            assert(!self@.entries[r as int].deps.contains(x as int));
                        }
                    }
                    r += 1;
                }
                proof {
                    assert forall|v: usize| stack1.contains(v) implies stack@.contains(v) by {
                        let k = choose|k: int| 0 <= k < stack1.len() && stack1[k] == v;
                        assert(stack@[k] == v);
                    }
                    assert forall|j: int, r: int|
                        0 <= j < n && seen[j] && #[trigger] c0.reads(r, j) implies seen[r]
                            || stack@.contains(r as usize) by {
                        if j != x {
                            assert(seen0[j]);
                            if !seen0[r] {
                                assert(stack0.contains(r as usize));
                            }
                        }
                    }
                }
            }
        }
        proof {
            let want = c0.invalidate(start as int);
            assert forall|j: int| 0 <= j < n implies seen[j] == c0.reaches(start as int, j) by {
                if c0.reaches(start as int, j) {
                    let p = choose|p: Seq<int>| #[trigger]
                        c0.chain(p) && p.first() == start && p.last() == j;
                    assert(forall|a: int, b: int|
                        c0.holds(a) && seen@[a] && #[trigger] c0.reads(b, a) ==> seen@[b]);
                    lemma_closed_marks_cover_chains(c0, seen@, start as int, p, p.len() - 1);
                }
            }
            assert(self@ =~~= want);
        }
    }
}

/// Evaluating one descriptor twice without an invalidation in between runs
/// the work once and yields the same output both times. If the first
/// request has to run the work and the run ends with `output`, the second
/// request finds that output current and changes nothing. If the first
/// request finds the entry current or in flight, it changes nothing either
/// and the second request gets the same answer.
pub proof fn law_evaluation_is_idempotent<T>(c: CacheState<T>, id: WorkId, output: T)
    requires
        c.wf(),
    ensures
        c.evaluate(id).wf(),
        c.answer(id) matches Step::Run(i) ==> {
            let done = c.evaluate(id).complete(i, output);
            &&& done.wf()
            &&& done.is_up_to_date(i)
            &&& done.entries[i].output == Some(output)
            &&& done.answer(id) == Step::Current(i)
            &&& done.evaluate(id) == done
        },
        !(c.answer(id) is Run) ==> {
            &&& c.evaluate(id) == c
            &&& c.evaluate(id).answer(id) == c.answer(id)
        },
{
    let i = c.slot_of(id);
    let c0 = c.intern(id);
    let c1 = c.evaluate(id);
    assert(c0.holds(i) && c0.entries[i].id == id) by {
        if c.knows(id) {
            assert(c.holds(c.position(id)) && c.entries[c.position(id)].id == id);
        }
    }
    assert(c0.wf()) by {
        if !c.knows(id) {
            assert forall|a: int, b: int|
                c0.holds(a) && c0.holds(b) && #[trigger] c0.entries[a].id
                    == #[trigger] c0.entries[b].id implies a == b by {
                if a < c.entries.len() && b == c.entries.len() {
                    assert(c.holds(a) && c.entries[a].id == id);
                }
                if b < c.entries.len() && a == c.entries.len() {
                    assert(c.holds(b) && c.entries[b].id == id);
                }
            }
            assert forall|a: int, d: int|
                c0.holds(a) && #[trigger] c0.entries[a].deps.contains(d) implies c0.holds(d) by {
                if a < c.entries.len() {
                    assert(c.entries[a].deps.contains(d));
                }
            }
        }
    }
    assert(c1.wf());
    assert(c1.knows(id)) by {
        assert(c1.holds(i) && c1.entries[i].id == id);
    }
    if c.answer(id) is Run {
        let done = c1.complete(i, output);
        assert(done.wf());
        assert(done.knows(id) && done.position(id) == i) by {
            assert(done.holds(i) && done.entries[i].id == id);
            let p = done.position(id);
            assert(done.holds(p) && done.entries[p].id == id);
        }
        assert(done.intern(id) == done);
        assert(done.evaluate(id) == done);
    } else {
        if !c.knows(id) {
            assert(c0.entries[i] == CacheState::<T>::fresh(id));
        }
        assert(c.knows(id));
        assert(c1 == c);
    }
}

/// Requests for an artifact that is being produced share the run that is
/// under way: once a request has been told to run the work, every further
/// request for the same descriptor is told that the work is in flight, for
/// as long as the run lasts, and changes nothing.
pub proof fn law_requests_share_one_run<T>(c: CacheState<T>, id: WorkId)
    requires
        c.wf(),
    ensures
        c.answer(id) matches Step::Run(i) ==> {
            let started = c.evaluate(id);
            &&& started.wf()
            &&& started.running(i)
            &&& started.answer(id) == Step::InFlight(i)
            &&& started.evaluate(id) == started
        },
        c.answer(id) matches Step::InFlight(i) ==> {
            &&& c.evaluate(id) == c
            &&& c.running(i)
        },
{
    let i = c.slot_of(id);
    let c0 = c.intern(id);
    let c1 = c.evaluate(id);
    law_evaluation_is_idempotent(c, id, arbitrary());
    assert(c0.holds(i) && c0.entries[i].id == id) by {
        if c.knows(id) {
            assert(c.holds(c.position(id)) && c.entries[c.position(id)].id == id);
        }
    }
    if c.answer(id) is Run {
        assert(c1.knows(id) && c1.position(id) == i) by {
            assert(c1.holds(i) && c1.entries[i].id == id);
            let p = c1.position(id);
            assert(c1.holds(p) && c1.entries[p].id == id);
        }
        assert(c1.intern(id) == c1);
    } else if c.answer(id) is InFlight {
        if !c.knows(id) {
            assert(c0.entries[i] == CacheState::<T>::fresh(id));
        }
    }
}

/// Once an entry's trigger has fired, the entry is not up to date and the
/// next evaluation of its descriptor re-runs the work: at once if no run is
/// under way, and otherwise as soon as the run that is under way has
/// completed. The output of the last completed run stays readable.
pub proof fn law_invalidation_forces_rerun<T>(c: CacheState<T>, i: int, output: T)
    requires
        c.wf(),
        c.holds(i),
    ensures
        c.invalidate(i).wf(),
        !c.invalidate(i).is_up_to_date(i),
        c.invalidate(i).entries[i].output == c.entries[i].output,
        !c.entries[i].in_progress ==> c.invalidate(i).answer(c.entries[i].id) == Step::Run(i),
        c.entries[i].in_progress ==> c.invalidate(i).complete(i, output).answer(c.entries[i].id)
            == Step::Run(i),
{
    let id = c.entries[i].id;
    let stale = c.invalidate(i);
    assert(c.reaches(i, i)) by {
        assert(c.chain(seq![i]));
    }
    assert(stale.wf()) by {
        assert forall|a: int, b: int|
            stale.holds(a) && stale.holds(b) && #[trigger] stale.entries[a].id
                == #[trigger] stale.entries[b].id implies a == b by {
            assert(c.entries[a].id == c.entries[b].id);
        }
        assert forall|a: int, d: int|
            stale.holds(a) && #[trigger] stale.entries[a].deps.contains(d) implies stale.holds(
            d,
        ) by {
            assert(c.entries[a].deps.contains(d));
        }
        assert forall|a: int|
            stale.holds(a) && !(#[trigger] stale.entries[a]).dirty
                && !stale.entries[a].in_progress implies stale.entries[a].output is Some by {
            assert(!c.entries[a].dirty);
        }
    }
    assert(stale.knows(id) && stale.position(id) == i) by {
        assert(stale.holds(i) && stale.entries[i].id == id);
        let p = stale.position(id);
        assert(stale.holds(p) && stale.entries[p].id == id);
    }
    let done = stale.complete(i, output);
    if c.entries[i].in_progress {
        assert(done.knows(id) && done.position(id) == i) by {
            assert(done.holds(i) && done.entries[i].id == id);
            let p = done.position(id);
            assert(done.holds(p) && done.entries[p].id == id);
            assert(stale.holds(p) && stale.entries[p].id == id);
        }
    }
}

/// Invalidation is transitive and goes no further than it must: firing the
/// trigger of `source` makes stale every entry derived from it, directly or
/// through other entries, and leaves every other entry exactly as it was.
pub proof fn law_invalidation_follows_reads<T>(c: CacheState<T>, source: int, entry: int)
    requires
        c.wf(),
        c.holds(source),
        c.holds(entry),
    ensures
        c.reads(entry, source) ==> c.reaches(source, entry),
        c.reaches(source, entry) ==> !c.invalidate(source).is_up_to_date(entry),
        !c.reaches(source, entry) ==> c.invalidate(source).entries[entry] == c.entries[entry],
{
    if c.reads(entry, source) {
        assert(c.chain(seq![source]));
        lemma_reaches_step(c, source, source, entry);
    }
}

} // verus!
