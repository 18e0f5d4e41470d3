use vstd::prelude::*;
use crate::models::{
    entries_view, layers_view, opt_state, copy_opt_state, BindingEntry, DeviceState, EntryModel,
    LayerModel, LayerState, StateModel,
};
use crate::checksum::{compute_checksum, state_checksum};

verus! {

/// The schema version that freshly written session records carry.
pub const CURRENT_VERSION: u32 = 1;

/// What went wrong in an operation of the library.
#[derive(Debug)]
pub enum StudioError {
    UnknownSession,
    LayerNotFound(i32),
    NoSessionState,
    NoStagedState,
    NothingToCommit,
    Io(String),
    Parse(String),
}

/// The broad class of a `StudioError`.
#[derive(PartialEq, Eq, Structural, Clone, Copy, Debug)]
pub enum ErrorKind {
    NotFound,
    Validation,
    Io,
    Parse,
}

pub open spec fn error_kind(e: StudioError) -> ErrorKind {
    match e {
        StudioError::UnknownSession => ErrorKind::NotFound,
        StudioError::LayerNotFound(_) => ErrorKind::NotFound,
        StudioError::NoSessionState => ErrorKind::Validation,
        StudioError::NoStagedState => ErrorKind::Validation,
        StudioError::NothingToCommit => ErrorKind::Validation,
        StudioError::Io(_) => ErrorKind::Io,
        StudioError::Parse(_) => ErrorKind::Parse,
    }
}

impl StudioError {
    pub fn kind(&self) -> (r: ErrorKind)
        ensures
            r == error_kind(*self),
    {
        match self {
            StudioError::UnknownSession => ErrorKind::NotFound,
            StudioError::LayerNotFound(_) => ErrorKind::NotFound,
            StudioError::NoSessionState => ErrorKind::Validation,
            StudioError::NoStagedState => ErrorKind::Validation,
            StudioError::NothingToCommit => ErrorKind::Validation,
            StudioError::Io(_) => ErrorKind::Io,
            StudioError::Parse(_) => ErrorKind::Parse,
        }
    }
}

// ---- merging one binding into a layer ----

/// `s` without the entries whose target is `t`, in order.
pub open spec fn without_target(s: Seq<EntryModel>, t: Seq<char>) -> Seq<EntryModel>
    decreases s.len(),
{
    if s.len() == 0 {
        s
    } else if s.last().target_id == t {
        without_target(s.drop_last(), t)
    } else {
        without_target(s.drop_last(), t).push(s.last())
    }
}

/// `e` replaces every entry of `s` with the same target, and comes last.
pub open spec fn upsert(s: Seq<EntryModel>, e: EntryModel) -> Seq<EntryModel> {
    without_target(s, e.target_id).push(e)
}

/// The entries of `s` keyed by target: for each target only its last entry stays.
pub open spec fn keyed(s: Seq<EntryModel>) -> Seq<EntryModel>
    decreases s.len(),
{
    if s.len() == 0 {
        s
    } else {
        upsert(keyed(s.drop_last()), s.last())
    }
}

/// The bindings of a layer after `e` is merged into `s`.
pub open spec fn merge_binding(s: Seq<EntryModel>, e: EntryModel) -> Seq<EntryModel> {
    upsert(keyed(s), e)
}

/// No two entries share a target.
pub open spec fn unique_targets(s: Seq<EntryModel>) -> bool {
    forall|i: int, j: int|
        0 <= i < s.len() && 0 <= j < s.len() && i != j ==> #[trigger] s[i].target_id
            != #[trigger] s[j].target_id
}

fn without_target_exec(v: &Vec<BindingEntry>, t: &String) -> (r: Vec<BindingEntry>)
    ensures
        entries_view(r@) == without_target(entries_view(v@), t@),
{
    let ghost m = entries_view(v@);
    let mut r: Vec<BindingEntry> = Vec::new();
    let mut i: usize = 0;
    while i < v.len()
        invariant
            i <= v@.len(),
            m == entries_view(v@),
            entries_view(r@) == without_target(m.take(i as int), t@),
        decreases v@.len() - i,
    {
        let ghost before = r@;
        assert(m.take(i + 1).drop_last() =~= m.take(i as int));
        assert(m.take(i + 1).last() == v@[i as int]@);
        if v[i].target_id != *t {
            r.push(v[i].copy());
            assert(entries_view(r@) =~= entries_view(before).push(v@[i as int]@));
        }
        i = i + 1;
    }
    assert(m.take(v@.len() as int) =~= m);
    r
}

fn upsert_exec(v: &Vec<BindingEntry>, e: &BindingEntry) -> (r: Vec<BindingEntry>)
    ensures
        entries_view(r@) == upsert(entries_view(v@), e@),
{
    let mut r = without_target_exec(v, &e.target_id);
    let ghost before = r@;
    r.push(e.copy());
    assert(entries_view(r@) =~= entries_view(before).push(e@));
    r
}

fn keyed_exec(v: &Vec<BindingEntry>) -> (r: Vec<BindingEntry>)
    ensures
        entries_view(r@) == keyed(entries_view(v@)),
{
    let ghost m = entries_view(v@);
    let mut r: Vec<BindingEntry> = Vec::new();
    let mut i: usize = 0;
    assert(m.take(0) =~= Seq::<EntryModel>::empty());
    while i < v.len()
        invariant
            i <= v@.len(),
            m == entries_view(v@),
            entries_view(r@) == keyed(m.take(i as int)),
        decreases v@.len() - i,
    {
        assert(m.take(i + 1).drop_last() =~= m.take(i as int));
        assert(m.take(i + 1).last() == v@[i as int]@);
        r = upsert_exec(&r, &v[i]);
        i = i + 1;
    }
    assert(m.take(v@.len() as int) =~= m);
    r
}

/// Merges `entry` into `layer`: it replaces any binding with the same target,
/// or is added. Afterwards no two bindings of the layer share a target.
pub fn update_binding_in_layer(layer: &mut LayerState, entry: &BindingEntry)
    ensures
        final(layer)@ == (LayerModel {
            id: old(layer)@.id,
            bindings: merge_binding(old(layer)@.bindings, entry@),
        }),
        unique_targets(final(layer)@.bindings),
{
    let merged = keyed_exec(&layer.bindings);
    layer.bindings = upsert_exec(&merged, entry);
    proof {
        lemma_merge_unique(old(layer)@.bindings, entry@);
    }
}

// ---- facts about merging ----

proof fn lemma_without_target_excludes(s: Seq<EntryModel>, t: Seq<char>)
    ensures
        forall|i: int|
            0 <= i < without_target(s, t).len() ==> #[trigger] without_target(s, t)[i].target_id
                != t,
        forall|i: int|
            0 <= i < without_target(s, t).len() ==> s.contains(#[trigger] without_target(s, t)[i]),
    decreases s.len(),
{
    if s.len() > 0 {
        lemma_without_target_excludes(s.drop_last(), t);
        let r = without_target(s.drop_last(), t);
        assert forall|i: int| 0 <= i < r.len() implies s.contains(#[trigger] r[i]) by {
            let k = choose|k: int| 0 <= k < s.drop_last().len() && s.drop_last()[k] == r[i];
            assert(s[k] == r[i]);
        }
        assert(s[s.len() - 1] == s.last());
    }
}

proof fn lemma_without_target_unique(s: Seq<EntryModel>, t: Seq<char>)
    requires
        unique_targets(s),
    ensures
        unique_targets(without_target(s, t)),
    decreases s.len(),
{
    if s.len() > 0 {
        let p = s.drop_last();
        assert(unique_targets(p));
        lemma_without_target_unique(p, t);
        lemma_without_target_excludes(p, t);
        let r = without_target(p, t);
        if s.last().target_id != t {
            let q = r.push(s.last());
            assert forall|i: int, j: int|
                0 <= i < q.len() && 0 <= j < q.len() && i != j implies #[trigger] q[i].target_id
                != #[trigger] q[j].target_id by {
                if i == r.len() || j == r.len() {
                    let k = if i == r.len() { j } else { i };
                    assert(p.contains(r[k]));
                    let m = choose|m: int| 0 <= m < p.len() && p[m] == r[k];
                    assert(s[m] == p[m]);
                    assert(s[s.len() - 1] == s.last());
                }
            }
        }
    }
}

proof fn lemma_upsert_unique(s: Seq<EntryModel>, e: EntryModel)
    requires
        unique_targets(s),
    ensures
        unique_targets(upsert(s, e)),
{
    lemma_without_target_unique(s, e.target_id);
    lemma_without_target_excludes(s, e.target_id);
}

proof fn lemma_keyed_unique(s: Seq<EntryModel>)
    ensures
        unique_targets(keyed(s)),
    decreases s.len(),
{
    if s.len() > 0 {
        lemma_keyed_unique(s.drop_last());
        lemma_upsert_unique(keyed(s.drop_last()), s.last());
    }
}

/// After a merge no two bindings of the layer share a target.
pub proof fn lemma_merge_unique(s: Seq<EntryModel>, e: EntryModel)
    ensures
        unique_targets(merge_binding(s, e)),
{
    lemma_keyed_unique(s);
    lemma_upsert_unique(keyed(s), e);
}

/// After a merge the layer holds exactly one binding for the merged target:
/// the merged entry itself.
pub proof fn lemma_merge_replaces(s: Seq<EntryModel>, e: EntryModel)
    ensures
        merge_binding(s, e).len() > 0,
        merge_binding(s, e).last() == e,
        forall|i: int|
            0 <= i < merge_binding(s, e).len() - 1 ==> #[trigger] merge_binding(s, e)[i].target_id
                != e.target_id,
{
    lemma_without_target_excludes(keyed(s), e.target_id);
}

/// Merging two entries with the same target, one after the other, leaves exactly
/// one binding for that target, and it holds the later payload.
pub proof fn lemma_merge_twice_same_target(s: Seq<EntryModel>, e1: EntryModel, e2: EntryModel)
    requires
        e1.target_id == e2.target_id,
    ensures
        ({
            let r = merge_binding(merge_binding(s, e1), e2);
            &&& r.last() == e2
            &&& forall|i: int|
                0 <= i < r.len() - 1 ==> #[trigger] r[i].target_id != e2.target_id
        }),
{
    lemma_merge_replaces(merge_binding(s, e1), e2);
}

// ---- the session record and its lifecycle ----

/// The persisted record of one device: three tiers of its configuration.
pub struct SessionState {
    pub version: u32,
    pub session_id: String,
    pub staged: Option<DeviceState>,
    pub applied: Option<DeviceState>,
    pub committed: Option<DeviceState>,
}

pub struct SessionModel {
    pub version: u32,
    pub session_id: Seq<char>,
    pub staged: Option<StateModel>,
    pub applied: Option<StateModel>,
    pub committed: Option<StateModel>,
}

impl View for SessionState {
    type V = SessionModel;

    open spec fn view(&self) -> SessionModel {
        SessionModel {
            version: self.version,
            session_id: self.session_id@,
            staged: opt_state(self.staged),
            applied: opt_state(self.applied),
            committed: opt_state(self.committed),
        }
    }
}

/// The layer id that an edit targets: its own, else the first layer's, else 1.
pub open spec fn target_layer_id(staged: StateModel, e: EntryModel) -> i32 {
    match e.layer_id {
        Some(id) => id,
        None => if staged.layers.len() > 0 {
            staged.layers[0].id
        } else {
            1
        },
    }
}

/// `k` is the first index of a layer with id `id`.
pub open spec fn first_layer_at(layers: Seq<LayerModel>, id: i32, k: int) -> bool {
    &&& 0 <= k < layers.len()
    &&& layers[k].id == id
    &&& forall|j: int| 0 <= j < k ==> #[trigger] layers[j].id != id
}

pub open spec fn has_layer(layers: Seq<LayerModel>, id: i32) -> bool {
    exists|k: int| 0 <= k < layers.len() && #[trigger] layers[k].id == id
}

/// A snapshot with its checksum field set to the checksum of the snapshot as it stands.
pub open spec fn restamped(m: StateModel) -> StateModel {
    StateModel { checksum: Some(state_checksum(m)), ..m }
}

/// The staged snapshot after `e` is merged into its layer at index `k`.
pub open spec fn staged_with_binding(staged: StateModel, k: int, e: EntryModel) -> StateModel {
    restamped(
        StateModel {
            layers: staged.layers.update(
                k,
                LayerModel {
                    id: staged.layers[k].id,
                    bindings: merge_binding(staged.layers[k].bindings, e),
                },
            ),
            ..staged
        },
    )
}

/// The applied snapshot made from `staged`: revision kept (0 when absent), checksum recomputed.
pub open spec fn applied_from(staged: StateModel) -> StateModel {
    restamped(
        StateModel {
            revision: Some(
                match staged.revision {
                    Some(r) => r,
                    None => 0,
                },
            ),
            ..staged
        },
    )
}

/// The revision a snapshot counts from: its own, 0 when absent.
pub open spec fn base_revision(m: StateModel) -> int {
    match m.revision {
        Some(r) => r as int,
        None => 0,
    }
}

/// What a commit promotes: `applied` if present, else `staged`.
pub open spec fn commit_source(s: SessionModel) -> Option<StateModel> {
    match s.applied {
        Some(a) => Some(a),
        None => s.staged,
    }
}

/// The committed snapshot made from `src`: revision advanced by one, checksum recomputed.
pub open spec fn promoted(src: StateModel) -> StateModel {
    restamped(StateModel { revision: Some((base_revision(src) + 1) as i32), ..src })
}

/// The layers a profile bundle shows: staged, else applied, else committed, else `fallback`.
pub open spec fn shown_layers(s: SessionModel, fallback: Seq<LayerModel>) -> Seq<LayerModel> {
    match s.staged {
        Some(m) => m.layers,
        None => match s.applied {
            Some(m) => m.layers,
            None => match s.committed {
                Some(m) => m.layers,
                None => fallback,
            },
        },
    }
}

/// Whether `set_binding` succeeds: a staged snapshot with the targeted layer.
pub open spec fn binding_applies(s: SessionModel, e: EntryModel) -> bool {
    match s.staged {
        Some(st) => has_layer(st.layers, target_layer_id(st, e)),
        None => false,
    }
}

/// The error of a `set_binding` that does not succeed.
pub open spec fn binding_error(s: SessionModel, e: EntryModel) -> StudioError {
    match s.staged {
        Some(st) => StudioError::LayerNotFound(target_layer_id(st, e)),
        None => StudioError::NoStagedState,
    }
}

/// `t` is the record that `set_binding` of `e` leaves from `s`: unchanged on failure,
/// else with `e` merged into the first layer of the targeted id.
pub open spec fn binding_result(s: SessionModel, e: EntryModel, t: SessionModel) -> bool {
    if binding_applies(s, e) {
        let st = s.staged->Some_0;
        exists|k: int|
            first_layer_at(st.layers, target_layer_id(st, e), k) && t == (SessionModel {
                staged: Some(staged_with_binding(st, k, e)),
                ..s
            })
    } else {
        t == s
    }
}

/// The record after `apply_to_ram`.
pub open spec fn applied_result(s: SessionModel) -> SessionModel {
    match s.staged {
        Some(st) => SessionModel { applied: Some(applied_from(st)), ..s },
        None => s,
    }
}

/// The record after `revert_ram`.
pub open spec fn reverted(s: SessionModel) -> SessionModel {
    match s.committed {
        Some(c) => SessionModel { applied: Some(c), staged: Some(c), ..s },
        None => s,
    }
}

/// The record after `commit`: unchanged when there is nothing to commit.
pub open spec fn committed_result(s: SessionModel) -> SessionModel {
    match commit_source(s) {
        Some(src) => SessionModel {
            committed: Some(promoted(src)),
            applied: Some(promoted(src)),
            staged: Some(promoted(src)),
            ..s
        },
        None => s,
    }
}

/// One working edit: a `set_binding` of some entry, or an `apply_to_ram`.
pub open spec fn edit_step(s: SessionModel, t: SessionModel) -> bool {
    (exists|e: EntryModel| binding_result(s, e, t)) || t == applied_result(s)
}

/// Working edits never touch the committed tier, so a revert after any run of them
/// makes staged and applied equal to the committed snapshot that was there at the start.
pub proof fn lemma_revert_after_edits(trace: Seq<SessionModel>)
    requires
        trace.len() > 0,
        trace[0].committed is Some,
        forall|i: int| 0 <= i < trace.len() - 1 ==> edit_step(#[trigger] trace[i], trace[i + 1]),
    ensures
        reverted(trace.last()).staged == trace[0].committed,
        reverted(trace.last()).applied == trace[0].committed,
        reverted(trace.last()).committed == trace[0].committed,
    decreases trace.len(),
{
    if trace.len() > 1 {
        let p = trace.drop_last();
        assert forall|i: int| 0 <= i < p.len() - 1 implies edit_step(#[trigger] p[i], p[i + 1]) by {
            assert(edit_step(trace[i], trace[i + 1]));
        }
        lemma_revert_after_edits(p);
        let s = trace[trace.len() - 2];
        let t = trace[trace.len() - 1];
        assert(edit_step(s, t));
        assert(s == p.last());
        if exists|e: EntryModel| binding_result(s, e, t) {
            let e = choose|e: EntryModel| binding_result(s, e, t);
            assert(t.committed == s.committed);
        }
    }
}

/// A commit advances the revision by exactly one, counting from 0 when it was absent,
/// and leaves all three tiers equal.
pub proof fn lemma_commit_advances_revision(s: SessionModel)
    requires
        commit_source(s) matches Some(src) ==> base_revision(src) < i32::MAX,
        commit_source(s) is Some,
    ensures
        ({
            let t = committed_result(s);
            let src = commit_source(s)->Some_0;
            &&& t.committed is Some
            &&& t.committed->Some_0.revision == Some((base_revision(src) + 1) as i32)
            &&& base_revision(t.committed->Some_0) == base_revision(src) + 1
            &&& t.applied == t.committed
            &&& t.staged == t.committed
        }),
{
}

/// Setting the same target on the same layer twice in a row leaves exactly one
/// binding for it in that layer, holding the later payload.
pub proof fn lemma_set_binding_twice(
    s0: SessionModel,
    e1: EntryModel,
    s1: SessionModel,
    e2: EntryModel,
    s2: SessionModel,
)
    requires
        binding_applies(s0, e1),
        binding_result(s0, e1, s1),
        binding_result(s1, e2, s2),
        e1.target_id == e2.target_id,
        e2.layer_id == e1.layer_id,
    ensures
        binding_applies(s1, e2),
        ({
            let id = target_layer_id(s0.staged->Some_0, e1);
            let st = s2.staged->Some_0;
            exists|k: int|
                first_layer_at(st.layers, id, k) && {
                    let b = st.layers[k].bindings;
                    &&& b.len() > 0
                    &&& b.last() == e2
                    &&& forall|i: int| 0 <= i < b.len() - 1 ==> #[trigger] b[i].target_id != e2.target_id
                }
        }),
{
    let st0 = s0.staged->Some_0;
    let id = target_layer_id(st0, e1);
    let k = choose|k: int| first_layer_at(st0.layers, id, k) && s1 == (SessionModel {
        staged: Some(staged_with_binding(st0, k, e1)),
        ..s0
    });
    let st1 = s1.staged->Some_0;
    assert(st1.layers.len() == st0.layers.len());
    assert(forall|j: int| 0 <= j < st1.layers.len() ==> #[trigger] st1.layers[j].id == st0.layers[j].id);
    assert(target_layer_id(st1, e2) == id) by {
        if e1.layer_id is None && st0.layers.len() > 0 {
            assert(st1.layers[0].id == st0.layers[0].id);
        }
    }
    assert(first_layer_at(st1.layers, id, k));
    let k2 = choose|k2: int| first_layer_at(st1.layers, id, k2) && s2 == (SessionModel {
        staged: Some(staged_with_binding(st1, k2, e2)),
        ..s1
    });
    assert(k2 == k) by {
        if k2 < k {
            assert(st1.layers[k2].id == st0.layers[k2].id);
        } else if k2 > k {
        }
    }
    lemma_merge_twice_same_target(st0.layers[k].bindings, e1, e2);
    let st2 = s2.staged->Some_0;
    assert(first_layer_at(st2.layers, id, k));
}

fn restamp(ds: &mut DeviceState)
    ensures
        final(ds)@ == restamped(old(ds)@),
{
    let c = compute_checksum(ds);
    ds.checksum = Some(c);
}

fn first_layer_index(layers: &Vec<LayerState>, id: i32) -> (r: Option<usize>)
    ensures
        match r {
            Some(k) => first_layer_at(layers_view(layers@), id, k as int),
            None => !has_layer(layers_view(layers@), id),
        },
{
    let ghost m = layers_view(layers@);
    let mut i: usize = 0;
    while i < layers.len()
        invariant
            i <= layers@.len(),
            m == layers_view(layers@),
            forall|j: int| 0 <= j < i ==> #[trigger] m[j].id != id,
        decreases layers@.len() - i,
    {
        if layers[i].id == id {
            return Some(i);
        }
        i = i + 1;
    }
    None
}

/// The record an operation works on: the loaded one, or `NoSessionState` when the
/// device has none (a session must have been opened first).
pub fn require_state(loaded: Option<SessionState>) -> (r: Result<SessionState, StudioError>)
    ensures
        match loaded {
            Some(s) => r matches Ok(t) && t@ == s@,
            None => r == Err::<SessionState, StudioError>(StudioError::NoSessionState),
        },
{
    match loaded {
        Some(s) => Ok(s),
        None => Err(StudioError::NoSessionState),
    }
}

impl SessionState {
    /// The schema version that freshly written session records carry.
    pub fn current_version() -> (r: u32)
        ensures
            r == CURRENT_VERSION,
    {
        CURRENT_VERSION
    }

    pub fn copy(&self) -> (r: SessionState)
        ensures
            r@ == self@,
    {
        SessionState {
            version: self.version,
            session_id: self.session_id.clone(),
            staged: copy_opt_state(&self.staged),
            applied: copy_opt_state(&self.applied),
            committed: copy_opt_state(&self.committed),
        }
    }

    /// Brings a record of an older schema version up to the current one; a record of
    /// the current or a newer version is left alone. Returns whether the record changed
    /// and must be written back.
    pub fn migrate(&mut self) -> (changed: bool)
        ensures
            changed == (old(self)@.version < CURRENT_VERSION),
            final(self)@ == if changed {
                SessionModel { version: CURRENT_VERSION, ..old(self)@ }
            } else {
                old(self)@
            },
    {
        if self.version < CURRENT_VERSION {
            self.version = CURRENT_VERSION;
            true
        } else {
            false
        }
    }

    /// Merges `req` into its layer of the staged snapshot and recomputes the staged
    /// checksum. Fails, changing nothing, when there is no staged snapshot or no
    /// layer with the targeted id.
    pub fn set_binding(&mut self, req: &BindingEntry) -> (r: Result<(), StudioError>)
        ensures
            r is Ok <==> binding_applies(old(self)@, req@),
            r matches Err(e) ==> e == binding_error(old(self)@, req@),
            binding_result(old(self)@, req@, final(self)@),
    {
        let mut staged = match &self.staged {
            Some(s) => s.copy(),
            None => {
                return Err(StudioError::NoStagedState);
            },
        };
        let target = match req.layer_id {
            Some(id) => id,
            None => if staged.layers.len() > 0 {
                staged.layers[0].id
            } else {
                1
            },
        };
        let k = match first_layer_index(&staged.layers, target) {
            Some(k) => k,
            None => {
                return Err(StudioError::LayerNotFound(target));
            },
        };
        let ghost before = staged@;
        let mut layer = staged.layers[k].copy();
        update_binding_in_layer(&mut layer, req);
        staged.layers.set(k, layer);
        assert(layers_view(staged.layers@) =~= before.layers.update(
            k as int,
            LayerModel {
                id: before.layers[k as int].id,
                bindings: merge_binding(before.layers[k as int].bindings, req@),
            },
        ));
        restamp(&mut staged);
        self.staged = Some(staged);
        Ok(())
    }

    /// Copies the staged snapshot into the applied tier, keeping its revision
    /// (0 when absent) and recomputing its checksum. Nothing happens without a
    /// staged snapshot. Returns whether the record changed.
    pub fn apply_to_ram(&mut self) -> (changed: bool)
        ensures
            changed == old(self)@.staged is Some,
            final(self)@ == applied_result(old(self)@),
    {
        match &self.staged {
            Some(st) => {
                let mut applied = st.copy();
                applied.revision = Some(
                    match applied.revision {
                        Some(r) => r,
                        None => 0,
                    },
                );
                restamp(&mut applied);
                self.applied = Some(applied);
                true
            },
            None => false,
        }
    }

    /// Overwrites the applied and staged tiers with the committed snapshot.
    /// Nothing happens without a committed snapshot. Returns whether the record changed.
    pub fn revert_ram(&mut self) -> (changed: bool)
        ensures
            changed == old(self)@.committed is Some,
            final(self)@ == reverted(old(self)@),
    {
        match &self.committed {
            Some(c) => {
                self.applied = Some(c.copy());
                self.staged = Some(c.copy());
                true
            },
            None => false,
        }
    }

    /// Promotes the applied snapshot (else the staged one) to all three tiers, with
    /// its revision advanced by one and its checksum recomputed. Fails, changing
    /// nothing, when neither tier is present.
    pub fn commit(&mut self) -> (r: Result<(), StudioError>)
        requires
            commit_source(old(self)@) matches Some(src) ==> base_revision(src) < i32::MAX,
        ensures
            r is Ok <==> commit_source(old(self)@) is Some,
            r matches Err(e) ==> e == StudioError::NothingToCommit,
            final(self)@ == committed_result(old(self)@),
    {
        let mut next = match &self.applied {
            Some(a) => a.copy(),
            None => match &self.staged {
                Some(s) => s.copy(),
                None => {
                    return Err(StudioError::NothingToCommit);
                },
            },
        };
        let base: i32 = match next.revision {
            Some(r) => r,
            None => 0,
        };
        next.revision = Some(base + 1);
        restamp(&mut next);
        self.committed = Some(next.copy());
        self.applied = Some(next.copy());
        self.staged = Some(next);
        Ok(())
    }
}

} // verus!
