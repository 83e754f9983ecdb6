//! The process-wide resource cache: a lazily populated store of decoded
//! project data, keyed by [`ResourceKey`].
//!
//! An entry is created on first request and never evicted; its load state
//! moves only forward (`Unloaded` to `Loading` to `Ready` or `Failed`) until
//! an explicit [`ResourceCache::invalidate`] resets it.  Requesting a key
//! that is already loading attaches to the existing in-flight task instead of
//! issuing a second read; a completion arriving for an invalidated entry is
//! discarded.  Every operation's contract is stated against the model
//! transition functions (`spec_get`, `spec_complete`, ...), and the laws at
//! the end of this file are proved from those alone.

use vstd::prelude::*;

use crate::errors::CacheError;
use crate::errors::IoError;
use crate::errors::LoadError;
use crate::keys::KeyModel;
use crate::keys::ResourceKey;
use crate::loader::completion_result;
use crate::loader::has_task;
use crate::loader::lemma_remove_keeps_other_tasks;
use crate::loader::lemma_task_index_of;
use crate::loader::loader_wf;
use crate::loader::task_index;
use crate::loader::Completion;
use crate::loader::Loader;
use crate::loader::LoaderModel;
use crate::loader::PendingModel;
use crate::resource::decode_resource;
use crate::resource::spec_apply_edit;
use crate::resource::spec_decode;
use crate::resource::Edit;
use crate::resource::EditModel;
use crate::resource::Resource;
use crate::resource::ResourceModel;

verus! {

/// The load state of one cache entry.  `Mutating` marks a `Ready` value that
/// is checked out for exclusive in-place mutation.
#[derive(Debug)]
pub enum EntryState {
    Unloaded,
    Loading(u64),
    Ready(Resource),
    Mutating,
    Failed(LoadError),
}

/// The mathematical model of an entry's load state.
pub enum StateModel {
    Unloaded,
    Loading(int),
    Ready(ResourceModel),
    Mutating,
    Failed(LoadError),
}

impl View for EntryState {
    type V = StateModel;

    open spec fn view(&self) -> StateModel {
        match self {
            EntryState::Unloaded => StateModel::Unloaded,
            EntryState::Loading(t) => StateModel::Loading(*t as int),
            EntryState::Ready(v) => StateModel::Ready(v@),
            EntryState::Mutating => StateModel::Mutating,
            EntryState::Failed(e) => StateModel::Failed(*e),
        }
    }
}

/// One cached resource: its identity and its load state.
#[derive(Debug)]
pub struct CacheEntry {
    pub key: ResourceKey,
    pub state: EntryState,
}

/// The mathematical model of a cache entry.
#[verifier::ext_equal]
pub struct EntrySnap {
    pub key: KeyModel,
    pub state: StateModel,
}

impl View for CacheEntry {
    type V = EntrySnap;

    open spec fn view(&self) -> EntrySnap {
        EntrySnap { key: self.key@, state: self.state@ }
    }
}

/// What a request observes: the load stage of an entry, with a value under
/// mutation still counting as `Ready`.
#[derive(Clone, Copy, PartialEq, Eq, Structural, Debug)]
pub enum Stage {
    Unloaded,
    Loading,
    Ready,
    Failed,
}

/// What `get_or_load` hands back for the current frame.
#[derive(Clone, Copy, PartialEq, Eq, Structural, Debug)]
pub enum GetOutcome {
    /// The entry is (now) loading; ask again next frame.
    Pending,
    /// The entry holds a decoded value; fetch it with `read`.
    Ready,
    /// The load ended in this terminal error; it is returned on every call
    /// until the entry is invalidated.
    Failed(LoadError),
}

/// The mathematical model of the whole cache.
#[verifier::ext_equal]
pub struct CacheModel {
    pub entries: Seq<EntrySnap>,
    pub loader: LoaderModel,
}

/// Some entry carries key `k`.
pub open spec fn has_entry_in(s: Seq<EntrySnap>, k: KeyModel) -> bool {
    exists|i: int| 0 <= i < s.len() && s[i].key == k
}

/// The position of the entry with key `k` (meaningful when `has_entry_in`).
pub open spec fn entry_index_in(s: Seq<EntrySnap>, k: KeyModel) -> int {
    choose|i: int| 0 <= i < s.len() && s[i].key == k
}

/// The load state observed for key `k`; a key never requested is `Unloaded`.
pub open spec fn state_in(s: Seq<EntrySnap>, k: KeyModel) -> StateModel {
    if has_entry_in(s, k) {
        s[entry_index_in(s, k)].state
    } else {
        StateModel::Unloaded
    }
}

/// The load state observed for key `k` in the whole-cache model.
pub open spec fn state_of(m: CacheModel, k: KeyModel) -> StateModel {
    state_in(m.entries, k)
}

/// The stage a state presents to requesters.
pub open spec fn stage_of_state(s: StateModel) -> Stage {
    match s {
        StateModel::Unloaded => Stage::Unloaded,
        StateModel::Loading(_) => Stage::Loading,
        StateModel::Ready(_) => Stage::Ready,
        StateModel::Mutating => Stage::Ready,
        StateModel::Failed(_) => Stage::Failed,
    }
}

/// The stage observed for key `k`.
pub open spec fn stage_of(m: CacheModel, k: KeyModel) -> Stage {
    stage_of_state(state_of(m, k))
}

/// The forward order on stages: a stage never regresses except through an
/// explicit `invalidate`.
pub open spec fn advances(pre: Stage, post: Stage) -> bool {
    match pre {
        Stage::Unloaded => true,
        Stage::Loading => post != Stage::Unloaded,
        Stage::Ready => post == Stage::Ready,
        Stage::Failed => post == Stage::Failed,
    }
}

/// Entry keys are pairwise distinct.
pub open spec fn unique_keys(s: Seq<EntrySnap>) -> bool {
    forall|i: int, j: int| 0 <= i < j < s.len() ==> s[i].key != s[j].key
}

/// The cache invariant: one entry per key; the task registry is well formed;
/// and every `Loading` entry owns exactly one in-flight task, which carries
/// the entry's own key.
pub open spec fn wf_model(m: CacheModel) -> bool {
    &&& unique_keys(m.entries)
    &&& loader_wf(m.loader)
    &&& forall|i: int|
        0 <= i < m.entries.len() ==> match #[trigger] m.entries[i].state {
            StateModel::Loading(t) => has_task(m.loader, t) && m.loader.pending[task_index(
                m.loader,
                t,
            )].key == m.entries[i].key,
            _ => true,
        }
}

/// A position in the entry list is exactly the one its key indexes.
pub proof fn lemma_entry_index_of(s: Seq<EntrySnap>, i: int)
    requires
        unique_keys(s),
        0 <= i < s.len(),
    ensures
        has_entry_in(s, s[i].key),
        entry_index_in(s, s[i].key) == i,
        state_in(s, s[i].key) == s[i].state,
{
    let k = s[i].key;
    assert(has_entry_in(s, k));
    let j = entry_index_in(s, k);
    if j < i {
        assert(s[j].key != s[i].key);
    } else if j > i {
        assert(s[i].key != s[j].key);
    }
}

/// Replacing the state at position `i` disturbs no other key.
pub proof fn lemma_set_state(s: Seq<EntrySnap>, s2: Seq<EntrySnap>, i: int)
    requires
        unique_keys(s),
        0 <= i < s.len(),
        s2 == s.update(i, EntrySnap { key: s[i].key, state: s2[i].state }),
    ensures
        unique_keys(s2),
        state_in(s2, s[i].key) == s2[i].state,
        forall|q: KeyModel| q != s[i].key ==> #[trigger] state_in(s2, q) == state_in(s, q),
        forall|q: KeyModel| #[trigger] has_entry_in(s2, q) == has_entry_in(s, q),
{
    let k = s[i].key;
    assert forall|q: KeyModel| #[trigger] has_entry_in(s2, q) == has_entry_in(s, q) by {
        if has_entry_in(s2, q) {
            let a = entry_index_in(s2, q);
            assert(s[a].key == q);
        }
        if has_entry_in(s, q) {
            let a = entry_index_in(s, q);
            assert(s2[a].key == q);
        }
    }
    lemma_entry_index_of(s2, i);
    assert forall|q: KeyModel| q != k implies #[trigger] state_in(s2, q) == state_in(s, q) by {
        if has_entry_in(s2, q) {
            let a = entry_index_in(s2, q);
            assert(a != i);
            assert(s[a].key == q);
            lemma_entry_index_of(s, a);
            lemma_entry_index_of(s2, a);
        }
    }
}

/// Appending an entry under a fresh key disturbs no other key.
pub proof fn lemma_add_entry(s: Seq<EntrySnap>, s2: Seq<EntrySnap>, k: KeyModel, st: StateModel)
    requires
        unique_keys(s),
        !has_entry_in(s, k),
        s2 == s.push(EntrySnap { key: k, state: st }),
    ensures
        unique_keys(s2),
        state_in(s2, k) == st,
        forall|q: KeyModel| q != k ==> #[trigger] state_in(s2, q) == state_in(s, q),
        forall|q: KeyModel|
            #[trigger] has_entry_in(s2, q) == (has_entry_in(s, q) || q == k),
{
    assert forall|a: int, b: int| 0 <= a < b < s2.len() implies s2[a].key != s2[b].key by {
        if b < s.len() {
        } else {
            assert(s2[a].key == s[a].key);
        }
    }
    lemma_entry_index_of(s2, s.len() as int);
    assert forall|q: KeyModel|
        #[trigger] has_entry_in(s2, q) == (has_entry_in(s, q) || q == k) by {
        if has_entry_in(s2, q) && q != k {
            let a = entry_index_in(s2, q);
            assert(a < s.len());
            assert(s[a].key == q);
        }
        if has_entry_in(s, q) {
            let a = entry_index_in(s, q);
            assert(s2[a].key == q);
        }
    }
    assert forall|q: KeyModel| q != k implies #[trigger] state_in(s2, q) == state_in(s, q) by {
        if has_entry_in(s2, q) {
            let a = entry_index_in(s2, q);
            assert(a < s.len());
            assert(s[a].key == q);
            lemma_entry_index_of(s, a);
            lemma_entry_index_of(s2, a);
        }
    }
}

/// What one `get_or_load` request makes of the cache, and what it returns.
///
/// A key seen for the first time (or reset by `invalidate`) moves to
/// `Loading` and schedules exactly one read; every other stage answers from
/// the entry without touching anything.
pub open spec fn spec_get(m: CacheModel, k: KeyModel) -> (CacheModel, GetOutcome) {
    match state_of(m, k) {
        StateModel::Unloaded => {
            let t = m.loader.next_task;
            let snap = EntrySnap { key: k, state: StateModel::Loading(t) };
            let entries = if has_entry_in(m.entries, k) {
                m.entries.update(entry_index_in(m.entries, k), snap)
            } else {
                m.entries.push(snap)
            };
            let loader = LoaderModel {
                pending: m.loader.pending.push(PendingModel { key: k, task: t }),
                next_task: t + 1,
            };
            (CacheModel { entries, loader }, GetOutcome::Pending)
        },
        StateModel::Loading(_) => (m, GetOutcome::Pending),
        StateModel::Ready(_) => (m, GetOutcome::Ready),
        StateModel::Mutating => (m, GetOutcome::Ready),
        StateModel::Failed(e) => (m, GetOutcome::Failed(e)),
    }
}

/// What `invalidate` makes of the cache: the entry, if any, is forced back
/// to `Unloaded`; an in-flight task is not aborted (its result will be
/// discarded on arrival), and no other key is touched.
pub open spec fn spec_invalidate(m: CacheModel, k: KeyModel) -> CacheModel {
    if has_entry_in(m.entries, k) {
        CacheModel {
            entries: m.entries.update(
                entry_index_in(m.entries, k),
                EntrySnap { key: k, state: StateModel::Unloaded },
            ),
            loader: m.loader,
        }
    } else {
        m
    }
}

/// The terminal state a completed read folds into its entry: decoded `Ready`
/// bytes, or the decode or backend fault as `Failed`.
pub open spec fn folded_state(k: KeyModel, res: Result<Seq<u8>, IoError>) -> StateModel {
    match res {
        Ok(bytes) => match spec_decode(k, bytes) {
            Ok(v) => StateModel::Ready(v),
            Err(fe) => StateModel::Failed(LoadError::Format(fe)),
        },
        Err(io) => StateModel::Failed(LoadError::Io(io)),
    }
}

/// What one completion makes of the cache.  An unknown task number is
/// ignored; a known one leaves the registry, and folds into its entry only
/// when the entry's load state still names that task number; otherwise the
/// result is discarded (the entry was invalidated, or reloaded anew).
pub open spec fn spec_complete(m: CacheModel, t: int, res: Result<Seq<u8>, IoError>) -> CacheModel {
    if !has_task(m.loader, t) {
        m
    } else {
        let j = task_index(m.loader, t);
        let k = m.loader.pending[j].key;
        let loader = LoaderModel { pending: m.loader.pending.remove(j), next_task: m.loader.next_task };
        if state_of(m, k) == StateModel::Loading(t) {
            let entries = m.entries.update(
                entry_index_in(m.entries, k),
                EntrySnap { key: k, state: folded_state(k, res) },
            );
            CacheModel { entries, loader }
        } else {
            CacheModel { entries: m.entries, loader }
        }
    }
}

/// The in-memory resource store: entries plus the registry of in-flight
/// reads that will fill them.
#[derive(Debug)]
pub struct ResourceCache {
    /// The entries, one per requested key, in first-request order.
    pub entries: Vec<CacheEntry>,
    /// The task registry for reads that have not completed yet.
    pub loader: Loader,
}

impl View for ResourceCache {
    type V = CacheModel;

    open spec fn view(&self) -> CacheModel {
        CacheModel { entries: self.entries@.map_values(|e: CacheEntry| e@), loader: self.loader@ }
    }
}

impl ResourceCache {
    /// The cache invariant, stated on its model.
    pub open spec fn wf(self) -> bool {
        wf_model(self@)
    }

    /// An empty cache with no in-flight reads.
    pub fn new() -> (r: ResourceCache)
        ensures
            r.wf(),
            r@.entries.len() == 0,
            r@.loader.pending.len() == 0,
            r@.loader.next_task == 0,
    {
        let r = ResourceCache { entries: Vec::new(), loader: Loader::new() };
        proof {
            assert(r@.entries =~= Seq::<EntrySnap>::empty());
        }
        r
    }

    /// The position of the entry for `key`, if one was ever created.
    fn find_entry(&self, key: &ResourceKey) -> (r: Option<usize>)
        requires
            unique_keys(self@.entries),
        ensures
            match r {
                Some(i) => i < self@.entries.len() && self@.entries[i as int].key == key@,
                None => !has_entry_in(self@.entries, key@),
            },
    {
        let n = self.entries.len();
        let mut i: usize = 0;
        while i < n
            invariant
                0 <= i <= n,
                n == self@.entries.len(),
                forall|j: int| 0 <= j < i ==> self@.entries[j].key != key@,
            decreases n - i,
        {
            if self.entries[i].key.key_eq(key) {
                return Some(i);
            }
            i += 1;
        }
        None
    }

    /// Answers for `key` this frame; a first request schedules the one read
    /// that will fill the entry, and every repeat while it loads attaches to
    /// that same task.
    pub fn get_or_load(&mut self, key: &ResourceKey) -> (out: GetOutcome)
        requires
            old(self).wf(),
            old(self)@.loader.next_task < u64::MAX,
        ensures
            final(self).wf(),
            final(self)@ == spec_get(old(self)@, key@).0,
            out == spec_get(old(self)@, key@).1,
    {
        let ghost m0 = self@;
        match self.find_entry(key) {
            None => {
                let t = self.loader.schedule(key.duplicate());
                self.entries.push(
                    CacheEntry { key: key.duplicate(), state: EntryState::Loading(t) },
                );
                proof {
                    let snap = EntrySnap { key: key@, state: StateModel::Loading(t as int) };
                    assert(self@.entries =~= m0.entries.push(snap));
                    lemma_add_entry(m0.entries, self@.entries, key@, snap.state);
                    assert(self@ =~= spec_get(m0, key@).0);
                    lemma_get_preserves_wf(m0, key@);
                }
                GetOutcome::Pending
            },
            Some(i) => {
                proof {
                    lemma_entry_index_of(m0.entries, i as int);
                }
                match &self.entries[i].state {
                    EntryState::Loading(_) => {
                        return GetOutcome::Pending;
                    },
                    EntryState::Ready(_) => {
                        return GetOutcome::Ready;
                    },
                    EntryState::Mutating => {
                        return GetOutcome::Ready;
                    },
                    EntryState::Failed(e) => {
                        return GetOutcome::Failed(*e);
                    },
                    EntryState::Unloaded => {},
                }
                let t = self.loader.schedule(key.duplicate());
                let e = &mut self.entries[i];
                e.state = EntryState::Loading(t);
                proof {
                    let snap = EntrySnap { key: key@, state: StateModel::Loading(t as int) };
                    assert(self@.entries =~= m0.entries.update(i as int, snap));
                    lemma_set_state(m0.entries, self@.entries, i as int);
                    assert(self@ =~= spec_get(m0, key@).0);
                    lemma_get_preserves_wf(m0, key@);
                }
                GetOutcome::Pending
            },
        }
    }

    /// Forces the entry for `key`, if any, back to `Unloaded`.  Safe to call
    /// mid-load: the in-flight task is not aborted, and its late result will
    /// be discarded.  A value currently checked out for mutation is orphaned
    /// (its `end_mutate` will hand it back to the caller).
    pub fn invalidate(&mut self, key: &ResourceKey)
        requires
            old(self).wf(),
        ensures
            final(self).wf(),
            final(self)@ == spec_invalidate(old(self)@, key@),
    {
        let ghost m0 = self@;
        match self.find_entry(key) {
            None => {},
            Some(i) => {
                proof {
                    lemma_entry_index_of(m0.entries, i as int);
                }
                let e = &mut self.entries[i];
                e.state = EntryState::Unloaded;
                proof {
                    let snap = EntrySnap { key: key@, state: StateModel::Unloaded };
                    assert(self@.entries =~= m0.entries.update(i as int, snap));
                    lemma_set_state(m0.entries, self@.entries, i as int);
                    assert(self@ =~= spec_invalidate(m0, key@));
                }
            },
        }
    }

    /// A shared borrow of the decoded value for `key`, when the entry is
    /// `Ready` and not checked out.
    pub fn read(&self, key: &ResourceKey) -> (r: Option<&Resource>)
        requires
            self.wf(),
        ensures
            match state_of(self@, key@) {
                StateModel::Ready(v) => r matches Some(x) && x@ == v,
                _ => r is None,
            },
    {
        match self.find_entry(key) {
            None => None,
            Some(i) => {
                proof {
                    lemma_entry_index_of(self@.entries, i as int);
                }
                match &self.entries[i].state {
                    EntryState::Ready(v) => Some(v),
                    _ => None,
                }
            },
        }
    }

    /// The stage the entry for `key` presents (a key never requested reads
    /// as `Unloaded`; a checked-out value still reads as `Ready`).
    pub fn stage(&self, key: &ResourceKey) -> (r: Stage)
        requires
            self.wf(),
        ensures
            r == stage_of(self@, key@),
    {
        match self.find_entry(key) {
            None => Stage::Unloaded,
            Some(i) => {
                proof {
                    lemma_entry_index_of(self@.entries, i as int);
                }
                match &self.entries[i].state {
                    EntryState::Unloaded => Stage::Unloaded,
                    EntryState::Loading(_) => Stage::Loading,
                    EntryState::Ready(_) => Stage::Ready,
                    EntryState::Mutating => Stage::Ready,
                    EntryState::Failed(_) => Stage::Failed,
                }
            },
        }
    }

    /// How many entries the cache holds (one per key ever requested).
    pub fn entry_count(&self) -> (r: usize)
        ensures
            r == self@.entries.len(),
    {
        self.entries.len()
    }

    /// How many reads are in flight.
    pub fn pending_count(&self) -> (r: usize)
        ensures
            r == self@.loader.pending.len(),
    {
        self.loader.pending.len()
    }

    /// The in-flight reads the frame loop must perform, as (task, key)
    /// pairs, in the order they were scheduled.
    pub fn pending_requests(&self) -> (r: Vec<(u64, ResourceKey)>)
        ensures
            r@.len() == self@.loader.pending.len(),
            forall|i: int|
                0 <= i < r@.len() ==> #[trigger] r@[i].0 as int == self@.loader.pending[i].task
                    && r@[i].1@ == self@.loader.pending[i].key,
    {
        let mut out: Vec<(u64, ResourceKey)> = Vec::new();
        let n = self.loader.pending.len();
        let mut i: usize = 0;
        while i < n
            invariant
                0 <= i <= n,
                n == self@.loader.pending.len(),
                out@.len() == i,
                forall|j: int|
                    0 <= j < i ==> #[trigger] out@[j].0 as int == self@.loader.pending[j].task
                        && out@[j].1@ == self@.loader.pending[j].key,
            decreases n - i,
        {
            let p = &self.loader.pending[i];
            out.push((p.task, p.key.duplicate()));
            i += 1;
        }
        out
    }
}

/// A request preserves the cache invariant.
pub proof fn lemma_get_preserves_wf(m: CacheModel, k: KeyModel)
    requires
        wf_model(m),
    ensures
        wf_model(spec_get(m, k).0),
{
    let (m2, _) = spec_get(m, k);
    match state_of(m, k) {
        StateModel::Unloaded => {
            let t = m.loader.next_task;
            let snap = EntrySnap { key: k, state: StateModel::Loading(t) };
            assert forall|i: int, j: int|
                0 <= i < j < m2.loader.pending.len() implies m2.loader.pending[i].task
                != m2.loader.pending[j].task by {
                if j < m.loader.pending.len() {
                } else {
                    assert(m2.loader.pending[i] == m.loader.pending[i]);
                }
            }
            lemma_task_index_of(m2.loader, m.loader.pending.len() as int);
            assert forall|t2: int| has_task(m.loader, t2) implies has_task(m2.loader, t2)
                && m2.loader.pending[task_index(m2.loader, t2)] == m.loader.pending[task_index(
                m.loader,
                t2,
            )] by {
                let a = task_index(m.loader, t2);
                assert(m2.loader.pending[a].task == t2);
                lemma_task_index_of(m2.loader, a);
            }
            if has_entry_in(m.entries, k) {
                let i = entry_index_in(m.entries, k);
                lemma_entry_index_of(m.entries, i);
                lemma_set_state(m.entries, m2.entries, i);
                assert forall|a: int| 0 <= a < m2.entries.len() implies match (#[trigger] m2.entries[a]).state {
                    StateModel::Loading(t3) => has_task(m2.loader, t3)
                        && m2.loader.pending[task_index(m2.loader, t3)].key == m2.entries[a].key,
                    _ => true,
                } by {
                    if a != i {
                        assert(m2.entries[a] == m.entries[a]);
                    }
                }
            } else {
                lemma_add_entry(m.entries, m2.entries, k, snap.state);
                assert forall|a: int| 0 <= a < m2.entries.len() implies match (#[trigger] m2.entries[a]).state {
                    StateModel::Loading(t3) => has_task(m2.loader, t3)
                        && m2.loader.pending[task_index(m2.loader, t3)].key == m2.entries[a].key,
                    _ => true,
                } by {
                    if a < m.entries.len() {
                        assert(m2.entries[a] == m.entries[a]);
                    }
                }
            }
        },
        _ => {},
    }
}

/// A completion preserves the cache invariant.
pub proof fn lemma_complete_preserves_wf(m: CacheModel, t: int, res: Result<Seq<u8>, IoError>)
    requires
        wf_model(m),
    ensures
        wf_model(spec_complete(m, t, res)),
{
    if has_task(m.loader, t) {
        let m2 = spec_complete(m, t, res);
        let j = task_index(m.loader, t);
        assert(0 <= j < m.loader.pending.len() && m.loader.pending[j].task == t);
        let k = m.loader.pending[j].key;
        lemma_remove_keeps_other_tasks(m.loader, m2.loader, j);
        if state_of(m, k) == StateModel::Loading(t) {
            let i = entry_index_in(m.entries, k);
            assert(has_entry_in(m.entries, k));
            assert(0 <= i < m.entries.len() && m.entries[i].key == k);
            lemma_set_state(m.entries, m2.entries, i);
            assert forall|a: int| 0 <= a < m2.entries.len() implies match (#[trigger] m2.entries[a]).state {
                StateModel::Loading(t2) => has_task(m2.loader, t2) && m2.loader.pending[task_index(
                    m2.loader,
                    t2,
                )].key == m2.entries[a].key,
                _ => true,
            } by {
                if a != i {
                    assert(m2.entries[a] == m.entries[a]);
                    match m.entries[a].state {
                        StateModel::Loading(t2) => {
                            if t2 == t {
                                assert(m.loader.pending[task_index(m.loader, t)].key
                                    == m.entries[a].key);
                                lemma_entry_index_of(m.entries, a);
                                assert(a == i);
                            }
                        },
                        _ => {},
                    }
                }
            }
        } else {
            assert(m2.entries == m.entries);
            assert forall|a: int| 0 <= a < m2.entries.len() implies match (#[trigger] m2.entries[a]).state {
                StateModel::Loading(t2) => has_task(m2.loader, t2) && m2.loader.pending[task_index(
                    m2.loader,
                    t2,
                )].key == m2.entries[a].key,
                _ => true,
            } by {
                match m.entries[a].state {
                    StateModel::Loading(t2) => {
                        if t2 == t {
                            assert(m.loader.pending[task_index(m.loader, t)].key
                                == m.entries[a].key);
                            lemma_entry_index_of(m.entries, a);
                            assert(state_of(m, k) == StateModel::Loading(t));
                        }
                    },
                    _ => {},
                }
            }
        }
    }
}

/// The models of a batch of completions: task numbers with their results.
pub open spec fn completion_models(cs: Seq<Completion>) -> Seq<(int, Result<Seq<u8>, IoError>)> {
    cs.map_values(|c: Completion| (c.task as int, completion_result(c)))
}

/// What a whole batch of completions makes of the cache, applied in the
/// order they were reported.
pub open spec fn spec_poll(m: CacheModel, cs: Seq<(int, Result<Seq<u8>, IoError>)>) -> CacheModel
    decreases cs.len(),
{
    if cs.len() == 0 {
        m
    } else {
        spec_poll(spec_complete(m, cs[0].0, cs[0].1), cs.drop_first())
    }
}

impl ResourceCache {
    /// Folds one completed read into the cache: the task leaves the
    /// registry, and its entry becomes `Ready` (bytes decoded once, here) or
    /// `Failed`; when the entry no longer names that task number, the result
    /// is discarded.
    pub fn complete(&mut self, c: Completion)
        requires
            old(self).wf(),
        ensures
            final(self).wf(),
            final(self)@ == spec_complete(old(self)@, c.task as int, completion_result(c)),
    {
        let ghost m0 = self@;
        let task = c.task;
        proof {
            lemma_complete_preserves_wf(m0, task as int, completion_result(c));
        }
        match self.loader.take(task) {
            None => {
                proof {
                    assert(self@ =~= m0);
                }
            },
            Some(p) => {
                proof {
                    assert(has_task(m0.loader, task as int));
                }
                let ghost j = task_index(m0.loader, task as int);
                let ghost k = m0.loader.pending[j].key;
                proof {
                    assert(p@ == m0.loader.pending[j]);
                    assert(p.key@ == k);
                }
                match self.find_entry(&p.key) {
                    None => {
                        proof {
                            assert(state_of(m0, k) == StateModel::Unloaded);
                            assert(self@ =~= spec_complete(m0, task as int, completion_result(c)));
                        }
                    },
                    Some(i) => {
                        proof {
                            lemma_entry_index_of(m0.entries, i as int);
                        }
                        let is_live = match &self.entries[i].state {
                            EntryState::Loading(t2) => *t2 == task,
                            _ => false,
                        };
                        if is_live {
                            let st = match c.result {
                                Ok(bytes) => match decode_resource(&p.key, bytes) {
                                    Ok(v) => EntryState::Ready(v),
                                    Err(fe) => EntryState::Failed(LoadError::Format(fe)),
                                },
                                Err(io) => EntryState::Failed(LoadError::Io(io)),
                            };
                            proof {
                                assert(st@ == folded_state(k, completion_result(c)));
                            }
                            let e = &mut self.entries[i];
                            e.state = st;
                            proof {
                                assert(self@.entries =~= m0.entries.update(
                                    i as int,
                                    EntrySnap { key: k, state: st@ },
                                ));
                                assert(self@ =~= spec_complete(
                                    m0,
                                    task as int,
                                    completion_result(c),
                                ));
                            }
                        } else {
                            proof {
                                assert(state_of(m0, k) != StateModel::Loading(task as int));
                                assert(self@ =~= spec_complete(
                                    m0,
                                    task as int,
                                    completion_result(c),
                                ));
                            }
                        }
                    },
                }
            },
        }
    }

    /// Advances the frame: folds every reported completion into the cache,
    /// in the order reported.  Called once per render frame.
    pub fn poll_all(&mut self, completions: Vec<Completion>)
        requires
            old(self).wf(),
        ensures
            final(self).wf(),
            final(self)@ == spec_poll(old(self)@, completion_models(completions@)),
    {
        let mut rest = completions;
        while rest.len() > 0
            invariant
                self.wf(),
                spec_poll(self@, completion_models(rest@)) == spec_poll(
                    old(self)@,
                    completion_models(completions@),
                ),
            decreases rest@.len(),
        {
            let ghost r0 = rest@;
            let ghost mpre = self@;
            let c = rest.remove(0);
            proof {
                assert(completion_models(rest@) =~= completion_models(r0).drop_first());
                assert(completion_models(r0)[0] == (c.task as int, completion_result(c)));
            }
            self.complete(c);
            proof {
                assert(spec_poll(mpre, completion_models(r0)) == spec_poll(
                    self@,
                    completion_models(rest@),
                ));
            }
        }
        proof {
            assert(completion_models(rest@).len() == 0);
        }
    }
}

/// What `mutate` makes of the cache, and what it returns: an in-place edit
/// of a `Ready` value; `NotReady` when the entry holds no value,
/// `BorrowConflict` when the value is checked out, and the edit's own
/// refusal otherwise — in every failure the cache is untouched.
pub open spec fn spec_mutate(m: CacheModel, k: KeyModel, e: EditModel) -> (
    CacheModel,
    Result<(), CacheError>,
) {
    match state_of(m, k) {
        StateModel::Ready(v) => match spec_apply_edit(v, e) {
            Ok(v2) => (
                CacheModel {
                    entries: m.entries.update(
                        entry_index_in(m.entries, k),
                        EntrySnap { key: k, state: StateModel::Ready(v2) },
                    ),
                    loader: m.loader,
                },
                Ok(()),
            ),
            Err(we) => (m, Err(we)),
        },
        StateModel::Mutating => (m, Err(CacheError::BorrowConflict)),
        _ => (m, Err(CacheError::NotReady)),
    }
}

/// What `begin_mutate` makes of the cache, and what it hands out: the
/// `Ready` value moves to the caller and the entry is marked `Mutating`.
pub open spec fn spec_begin_mutate(m: CacheModel, k: KeyModel) -> (
    CacheModel,
    Result<ResourceModel, CacheError>,
) {
    match state_of(m, k) {
        StateModel::Ready(v) => (
            CacheModel {
                entries: m.entries.update(
                    entry_index_in(m.entries, k),
                    EntrySnap { key: k, state: StateModel::Mutating },
                ),
                loader: m.loader,
            },
            Ok(v),
        ),
        StateModel::Mutating => (m, Err(CacheError::BorrowConflict)),
        _ => (m, Err(CacheError::NotReady)),
    }
}

/// What `end_mutate` makes of the cache: a checked-out entry takes the value
/// back and is `Ready` again; any other state is left untouched.
pub open spec fn spec_end_mutate(m: CacheModel, k: KeyModel, v: ResourceModel) -> CacheModel {
    if state_of(m, k) == StateModel::Mutating {
        CacheModel {
            entries: m.entries.update(
                entry_index_in(m.entries, k),
                EntrySnap { key: k, state: StateModel::Ready(v) },
            ),
            loader: m.loader,
        }
    } else {
        m
    }
}

/// Updating one entry to a state that is not `Loading` preserves the cache
/// invariant when the registry is untouched.
proof fn lemma_update_nonloading_wf(m: CacheModel, m2: CacheModel, i: int)
    requires
        wf_model(m),
        0 <= i < m.entries.len(),
        m2.loader == m.loader,
        m2.entries == m.entries.update(
            i,
            EntrySnap { key: m.entries[i].key, state: m2.entries[i].state },
        ),
        !(m2.entries[i].state is Loading),
    ensures
        wf_model(m2),
{
    lemma_set_state(m.entries, m2.entries, i);
    assert forall|a: int| 0 <= a < m2.entries.len() implies match (#[trigger] m2.entries[a]).state {
        StateModel::Loading(t2) => has_task(m2.loader, t2) && m2.loader.pending[task_index(
            m2.loader,
            t2,
        )].key == m2.entries[a].key,
        _ => true,
    } by {
        if a != i {
            assert(m2.entries[a] == m.entries[a]);
        }
    }
}

impl ResourceCache {
    /// Applies `edit` in place to the `Ready` value for `key`: the sole
    /// sanctioned one-shot edit path.  Fails with `NotReady` when no value is
    /// loaded, with `BorrowConflict` when the value is checked out, or with
    /// the edit's own refusal; a failed mutation leaves the prior value
    /// untouched.
    pub fn mutate(&mut self, key: &ResourceKey, edit: Edit) -> (r: Result<(), CacheError>)
        requires
            old(self).wf(),
        ensures
            final(self).wf(),
            final(self)@ == spec_mutate(old(self)@, key@, edit@).0,
            r == spec_mutate(old(self)@, key@, edit@).1,
    {
        let ghost m0 = self@;
        match self.find_entry(key) {
            None => Err(CacheError::NotReady),
            Some(i) => {
                proof {
                    lemma_entry_index_of(m0.entries, i as int);
                }
                match &self.entries[i].state {
                    EntryState::Ready(_) => {},
                    EntryState::Mutating => {
                        return Err(CacheError::BorrowConflict);
                    },
                    _ => {
                        return Err(CacheError::NotReady);
                    },
                }
                let e = &mut self.entries[i];
                let res = match &mut e.state {
                    EntryState::Ready(v) => v.apply(edit),
                    _ => {
                        proof {
                            assert(false);
                        }
                        Err(CacheError::NotReady)
                    },
                };
                proof {
                    if res is Ok {
                        assert(self@.entries =~= m0.entries.update(
                            i as int,
                            EntrySnap { key: key@, state: self@.entries[i as int].state },
                        ));
                        lemma_update_nonloading_wf(m0, self@, i as int);
                        assert(self@ =~= spec_mutate(m0, key@, edit@).0);
                    } else {
                        assert(self@.entries =~= m0.entries);
                        assert(self@ =~= m0);
                    }
                    let sr = spec_mutate(m0, key@, edit@).1;
                    match res {
                        Ok(u) => {
                            assert(sr is Ok);
                            assert(res == sr);
                        },
                        Err(a) => {
                            assert(sr is Err);
                            assert(a == sr->Err_0);
                            assert(res == sr);
                        },
                    }
                }
                res
            },
        }
    }

    /// Checks the `Ready` value for `key` out for exclusive mutation; the
    /// entry is marked until `end_mutate` hands the value back.  A second
    /// checkout before that fails with `BorrowConflict`.
    pub fn begin_mutate(&mut self, key: &ResourceKey) -> (r: Result<Resource, CacheError>)
        requires
            old(self).wf(),
        ensures
            final(self).wf(),
            final(self)@ == spec_begin_mutate(old(self)@, key@).0,
            match spec_begin_mutate(old(self)@, key@).1 {
                Ok(v) => r matches Ok(x) && x@ == v,
                Err(e) => r matches Err(a) && a == e,
            },
    {
        let ghost m0 = self@;
        match self.find_entry(key) {
            None => Err(CacheError::NotReady),
            Some(i) => {
                proof {
                    lemma_entry_index_of(m0.entries, i as int);
                }
                match &self.entries[i].state {
                    EntryState::Ready(_) => {},
                    EntryState::Mutating => {
                        return Err(CacheError::BorrowConflict);
                    },
                    _ => {
                        return Err(CacheError::NotReady);
                    },
                }
                let mut taken = EntryState::Mutating;
                let e = &mut self.entries[i];
                core::mem::swap(&mut e.state, &mut taken);
                proof {
                    assert(self@.entries =~= m0.entries.update(
                        i as int,
                        EntrySnap { key: key@, state: StateModel::Mutating },
                    ));
                    lemma_update_nonloading_wf(m0, self@, i as int);
                    assert(self@ =~= spec_begin_mutate(m0, key@).0);
                }
                match taken {
                    EntryState::Ready(v) => Ok(v),
                    _ => {
                        proof {
                            assert(false);
                        }
                        Err(CacheError::NotReady)
                    },
                }
            },
        }
    }

    /// Hands a checked-out value back: the entry becomes `Ready` with it.
    /// If the entry is no longer checked out (it was invalidated meanwhile),
    /// the value is returned to the caller instead and nothing changes —
    /// the late value is never installed silently.
    pub fn end_mutate(&mut self, key: &ResourceKey, value: Resource) -> (r: Result<(), Resource>)
        requires
            old(self).wf(),
        ensures
            final(self).wf(),
            final(self)@ == spec_end_mutate(old(self)@, key@, value@),
            state_of(old(self)@, key@) is Mutating ==> r is Ok,
            !(state_of(old(self)@, key@) is Mutating) ==> (r matches Err(x) && x == value),
    {
        let ghost m0 = self@;
        match self.find_entry(key) {
            None => Err(value),
            Some(i) => {
                proof {
                    lemma_entry_index_of(m0.entries, i as int);
                }
                match &self.entries[i].state {
                    EntryState::Mutating => {},
                    _ => {
                        return Err(value);
                    },
                }
                let e = &mut self.entries[i];
                e.state = EntryState::Ready(value);
                proof {
                    assert(self@.entries =~= m0.entries.update(
                        i as int,
                        EntrySnap { key: key@, state: self@.entries[i as int].state },
                    ));
                    lemma_update_nonloading_wf(m0, self@, i as int);
                    assert(self@ =~= spec_end_mutate(m0, key@, value@));
                }
                Ok(())
            },
        }
    }
}

/// Law: requesting the same key twice in immediate succession returns the
/// identical outcome both times, and the second request changes nothing —
/// in particular, at most one backend read is ever issued for the pair.
pub proof fn lemma_get_idempotent(m: CacheModel, k: KeyModel)
    requires
        wf_model(m),
    ensures
        spec_get(spec_get(m, k).0, k).1 == spec_get(m, k).1,
        spec_get(spec_get(m, k).0, k).0 == spec_get(m, k).0,
        spec_get(m, k).0.loader.pending.len() <= m.loader.pending.len() + 1,
{
    let (m1, o1) = spec_get(m, k);
    match state_of(m, k) {
        StateModel::Unloaded => {
            let t = m.loader.next_task;
            let snap = EntrySnap { key: k, state: StateModel::Loading(t) };
            if has_entry_in(m.entries, k) {
                let i = entry_index_in(m.entries, k);
                lemma_entry_index_of(m.entries, i);
                lemma_set_state(m.entries, m1.entries, i);
                assert(state_of(m1, k) == StateModel::Loading(t));
            } else {
                lemma_add_entry(m.entries, m1.entries, k, snap.state);
                assert(state_of(m1, k) == StateModel::Loading(t));
            }
        },
        _ => {},
    }
}

/// There is an in-flight read at position `j` that the entry for `k` is
/// waiting on.
pub open spec fn live_load(m: CacheModel, k: KeyModel, j: int) -> bool {
    0 <= j < m.loader.pending.len() && m.loader.pending[j].key == k && state_of(m, k)
        == StateModel::Loading(m.loader.pending[j].task)
}

/// Law: requests from two different panels while a key loads attach to one
/// and the same in-flight task — the second request adds nothing, and while
/// the key's stage is `Loading` exactly one live task exists for it.
pub proof fn lemma_no_duplicate_loads(m: CacheModel, k: KeyModel)
    requires
        wf_model(m),
    ensures
        spec_get(spec_get(m, k).0, k).0 == spec_get(m, k).0,
        stage_of(spec_get(m, k).0, k) == Stage::Loading ==> exists|j: int|
            #[trigger] live_load(spec_get(m, k).0, k, j),
        forall|j1: int, j2: int|
            live_load(spec_get(m, k).0, k, j1) && live_load(spec_get(m, k).0, k, j2) ==> j1 == j2,
{
    lemma_get_idempotent(m, k);
    lemma_get_preserves_wf(m, k);
    let m1 = spec_get(m, k).0;
    if stage_of(m1, k) == Stage::Loading {
        match state_of(m, k) {
            StateModel::Unloaded => {
                let t = m.loader.next_task;
                let j = m.loader.pending.len() as int;
                if has_entry_in(m.entries, k) {
                    let i = entry_index_in(m.entries, k);
                    lemma_entry_index_of(m.entries, i);
                    lemma_set_state(m.entries, m1.entries, i);
                } else {
                    lemma_add_entry(m.entries, m1.entries, k, StateModel::Loading(t));
                }
                assert(m1.loader.pending[j].key == k);
                assert(live_load(m1, k, j));
            },
            StateModel::Loading(t) => {
                assert(m1 == m);
                let i = entry_index_in(m.entries, k);
                assert(has_entry_in(m.entries, k));
                assert(0 <= i < m.entries.len() && m.entries[i].key == k);
                assert(m.entries[i].state == StateModel::Loading(t));
                let j = task_index(m.loader, t);
                assert(has_task(m.loader, t) && m.loader.pending[j].key == k);
                assert(live_load(m1, k, j));
            },
            _ => {},
        }
    }
    assert forall|j1: int, j2: int|
        live_load(m1, k, j1) && live_load(m1, k, j2) implies j1 == j2 by {
        let t1 = m1.loader.pending[j1].task;
        let t2 = m1.loader.pending[j2].task;
        assert(StateModel::Loading(t1) == StateModel::Loading(t2));
        if j1 < j2 {
            assert(m1.loader.pending[j1].task != m1.loader.pending[j2].task);
        } else if j2 < j1 {
            assert(m1.loader.pending[j2].task != m1.loader.pending[j1].task);
        }
    }
}

/// The forward order on stages is transitive.
pub proof fn lemma_advances_transitive(a: Stage, b: Stage, c: Stage)
    requires
        advances(a, b),
        advances(b, c),
    ensures
        advances(a, c),
{
}

/// Law: a request never regresses any key's stage.
pub proof fn lemma_get_monotonic(m: CacheModel, k: KeyModel)
    requires
        wf_model(m),
    ensures
        forall|q: KeyModel| #[trigger] advances(stage_of(m, q), stage_of(spec_get(m, k).0, q)),
{
    let m1 = spec_get(m, k).0;
    assert forall|q: KeyModel| #[trigger] advances(stage_of(m, q), stage_of(m1, q)) by {
        match state_of(m, k) {
            StateModel::Unloaded => {
                if has_entry_in(m.entries, k) {
                    let i = entry_index_in(m.entries, k);
                    lemma_entry_index_of(m.entries, i);
                    lemma_set_state(m.entries, m1.entries, i);
                } else {
                    lemma_add_entry(
                        m.entries,
                        m1.entries,
                        k,
                        StateModel::Loading(m.loader.next_task),
                    );
                }
            },
            _ => {},
        }
    }
}

/// Law: folding one completion never regresses any key's stage.
pub proof fn lemma_complete_monotonic(m: CacheModel, t: int, res: Result<Seq<u8>, IoError>)
    requires
        wf_model(m),
    ensures
        forall|q: KeyModel|
            #[trigger] advances(stage_of(m, q), stage_of(spec_complete(m, t, res), q)),
{
    let m2 = spec_complete(m, t, res);
    assert forall|q: KeyModel| #[trigger] advances(stage_of(m, q), stage_of(m2, q)) by {
        if has_task(m.loader, t) {
            let j = task_index(m.loader, t);
            let k = m.loader.pending[j].key;
            if state_of(m, k) == StateModel::Loading(t) {
                let i = entry_index_in(m.entries, k);
                assert(has_entry_in(m.entries, k));
                assert(0 <= i < m.entries.len() && m.entries[i].key == k);
                lemma_set_state(m.entries, m2.entries, i);
            } else {
                assert(m2.entries == m.entries);
            }
        }
    }
}

/// Law: for any key, the states observed across a whole frame of
/// completions follow the forward order `Unloaded`, `Loading`, then `Ready`
/// or `Failed` — `Unloaded` reappears only through an explicit `invalidate`.
pub proof fn lemma_poll_monotonic(m: CacheModel, cs: Seq<(int, Result<Seq<u8>, IoError>)>)
    requires
        wf_model(m),
    ensures
        wf_model(spec_poll(m, cs)),
        forall|q: KeyModel| #[trigger] advances(stage_of(m, q), stage_of(spec_poll(m, cs), q)),
    decreases cs.len(),
{
    if cs.len() == 0 {
    } else {
        let m1 = spec_complete(m, cs[0].0, cs[0].1);
        lemma_complete_preserves_wf(m, cs[0].0, cs[0].1);
        lemma_complete_monotonic(m, cs[0].0, cs[0].1);
        lemma_poll_monotonic(m1, cs.drop_first());
        assert forall|q: KeyModel|
            #[trigger] advances(stage_of(m, q), stage_of(spec_poll(m, cs), q)) by {
            lemma_advances_transitive(
                stage_of(m, q),
                stage_of(m1, q),
                stage_of(spec_poll(m1, cs.drop_first()), q),
            );
        }
    }
}

/// Law: mutation is exclusive — any mutation attempt against an entry whose
/// value is already checked out fails with a borrow conflict and leaves the
/// cache untouched.
pub proof fn lemma_mutation_exclusive(m: CacheModel, k: KeyModel, e: EditModel)
    requires
        state_of(m, k) == StateModel::Mutating,
    ensures
        spec_mutate(m, k, e).0 == m,
        spec_mutate(m, k, e).1 == Err::<(), CacheError>(CacheError::BorrowConflict),
        spec_begin_mutate(m, k).0 == m,
        spec_begin_mutate(m, k).1 == Err::<ResourceModel, CacheError>(CacheError::BorrowConflict),
{
}

/// Law: a failed mutation attempt leaves the cache — in particular the
/// entry's prior value — untouched.
pub proof fn lemma_failed_mutation_preserves(m: CacheModel, k: KeyModel, e: EditModel)
    ensures
        spec_mutate(m, k, e).1 is Err ==> spec_mutate(m, k, e).0 == m,
        spec_begin_mutate(m, k).1 is Err ==> spec_begin_mutate(m, k).0 == m,
{
}

/// Law: a task completes exactly once — its number leaves the registry with
/// the first completion, so a duplicate report of the same task changes
/// nothing.
pub proof fn lemma_complete_exactly_once(
    m: CacheModel,
    t: int,
    res: Result<Seq<u8>, IoError>,
    res2: Result<Seq<u8>, IoError>,
)
    requires
        wf_model(m),
    ensures
        spec_complete(spec_complete(m, t, res), t, res2) == spec_complete(m, t, res),
{
    if has_task(m.loader, t) {
        let m2 = spec_complete(m, t, res);
        let j = task_index(m.loader, t);
        assert(0 <= j < m.loader.pending.len() && m.loader.pending[j].task == t);
        m.loader.pending.remove_ensures(j);
        assert forall|a: int| 0 <= a < m2.loader.pending.len() implies m2.loader.pending[a].task
            != t by {
            if a < j {
                assert(m2.loader.pending[a] == m.loader.pending[a]);
            } else {
                assert(m2.loader.pending[a] == m.loader.pending[a + 1]);
            }
        }
        assert(!has_task(m2.loader, t));
    }
}

} // verus!

