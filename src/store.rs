use vstd::prelude::*;
use vstd::utf8::encode_utf8;
use crate::models::{
    opt_text, copy_opt_text, steps_view, copy_steps, entries_view, copy_entries, layers_view,
    copy_layers, opt_state, copy_opt_state, Step, StepModel, BindingEntry,
    LayerState, LayerModel, DeviceState, StateModel,
};
use crate::session::{SessionState, SessionModel, CURRENT_VERSION, shown_layers};

verus! {

// ---- strings and paths ----

pub open spec fn strs_view(s: Seq<String>) -> Seq<Seq<char>> {
    s.map_values(|x: String| x@)
}

pub fn copy_strings(v: &Vec<String>) -> (r: Vec<String>)
    ensures
        strs_view(r@) == strs_view(v@),
{
    let mut r: Vec<String> = Vec::new();
    let mut i: usize = 0;
    while i < v.len()
        invariant
            i <= v@.len(),
            r@.len() == i,
            forall|j: int| 0 <= j < i ==> (#[trigger] r@[j])@ == v@[j]@,
        decreases v@.len() - i,
    {
        r.push(v[i].clone());
        i = i + 1;
    }
    assert(strs_view(r@) =~= strs_view(v@));
    r
}

/// `a` is at most `b` in the lexicographic order of bytes.
pub open spec fn bytes_le(a: Seq<u8>, b: Seq<u8>) -> bool
    decreases a.len(),
{
    if a.len() == 0 {
        true
    } else if b.len() == 0 {
        false
    } else if a[0] != b[0] {
        a[0] < b[0]
    } else {
        bytes_le(a.drop_first(), b.drop_first())
    }
}

/// `s` is in the order of `String`'s `Ord`: lexicographic over the UTF-8 bytes.
pub open spec fn sorted_texts(s: Seq<Seq<char>>) -> bool {
    forall|i: int, j: int| 0 <= i < j < s.len() ==> bytes_le(encode_utf8(#[trigger] s[i]), encode_utf8(#[trigger] s[j]))
}

/// Relies on `slice::sort` of std: a stable sort by `String`'s `Ord`, which compares
/// the bytes lexicographically; the result holds the same strings.
#[verifier::external_body]
fn sort_strings(v: Vec<String>) -> (r: Vec<String>)
    ensures
        strs_view(r@).to_multiset() == strs_view(v@).to_multiset(),
        sorted_texts(strs_view(r@)),
{
    let mut v = v;
    v.sort();
    v
}

pub fn concat(a: &str, b: &str) -> (r: String)
    ensures
        r@ == a@ + b@,
{
    let s = a.to_string();
    s.concat(b)
}

/// `a` and `b` joined by one `/`.
pub open spec fn path_join(a: Seq<char>, b: Seq<char>) -> Seq<char> {
    a + "/"@ + b
}

pub fn join_path(a: &str, b: &str) -> (r: String)
    ensures
        r@ == path_join(a@, b@),
{
    let s = concat(a, "/");
    s.concat(b)
}

/// The number of characters of `s` up to and including its last `/` (0 when none).
pub open spec fn dir_len(s: Seq<char>) -> int
    decreases s.len(),
{
    if s.len() == 0 {
        0
    } else if s.last() == '/' {
        s.len() as int
    } else {
        dir_len(s.drop_last())
    }
}

proof fn lemma_dir_len_bounds(s: Seq<char>)
    ensures
        0 <= dir_len(s) <= s.len(),
        dir_len(s) > 0 ==> s[dir_len(s) - 1] == '/',
        forall|i: int| dir_len(s) <= i < s.len() ==> s[i] != '/',
    decreases s.len(),
{
    if s.len() > 0 && s.last() != '/' {
        lemma_dir_len_bounds(s.drop_last());
        assert forall|i: int| dir_len(s) <= i < s.len() implies s[i] != '/' by {
            if i < s.len() - 1 {
                assert(s.drop_last()[i] == s[i]);
            }
        }
    }
}

/// The temporary sibling of `path` that an atomic write goes through: in the same
/// directory, named `.<file name>.tmp` (`.temp.json.tmp` when the path has no file name).
pub open spec fn tmp_path(path: Seq<char>) -> Seq<char> {
    let d = dir_len(path);
    let name = path.subrange(d, path.len() as int);
    let name = if name.len() == 0 {
        "temp.json"@
    } else {
        name
    };
    path.subrange(0, d) + "."@ + name + ".tmp"@
}

proof fn lemma_tmp_path_shape(path: Seq<char>)
    ensures
        tmp_path(path) != path,
        0 <= dir_len(path) <= path.len(),
        tmp_path(path).len() >= dir_len(path),
        tmp_path(path).subrange(0, dir_len(path)) == path.subrange(0, dir_len(path)),
{
    lemma_dir_len_bounds(path);
    reveal_strlit("temp.json");
    reveal_strlit(".");
    reveal_strlit(".tmp");
    let d = dir_len(path);
    let t = tmp_path(path);
    assert(t.len() > path.len());
    assert(t.subrange(0, d) =~= path.subrange(0, d));
}

/// Writing the temporary file of an atomic replace leaves the record at `path` as it
/// was, in any map from paths to file contents: a crash after that write and before
/// the rename loses nothing.
pub proof fn lemma_interrupted_write_keeps_record(
    files: Map<Seq<char>, Seq<u8>>,
    path: Seq<char>,
    bytes: Seq<u8>,
)
    ensures
        files.insert(tmp_path(path), bytes).contains_key(path) == files.contains_key(path),
        files.contains_key(path) ==> files.insert(tmp_path(path), bytes)[path] == files[path],
{
    lemma_tmp_path_shape(path);
}

/// The temporary path for an atomic write of `path`. It lies in the same directory
/// and differs from `path`, so a write cut short leaves `path` as it was.
pub fn tmp_path_for(path: &str) -> (r: String)
    ensures
        r@ == tmp_path(path@),
        r@ != path@,
        r@.subrange(0, dir_len(path@)) == path@.subrange(0, dir_len(path@)),
{
    proof {
        lemma_dir_len_bounds(path@);
        lemma_tmp_path_shape(path@);
    }
    let n = path.unicode_len();
    let mut i: usize = n;
    assert(path@.subrange(0, n as int) =~= path@);
    while i > 0 && path.get_char(i - 1) != '/'
        invariant
            i <= n,
            n == path@.len(),
            dir_len(path@) == dir_len(path@.subrange(0, i as int)),
        decreases i,
    {
        assert(path@.subrange(0, i - 1) =~= path@.subrange(0, i as int).drop_last());
        i = i - 1;
    }
    assert(dir_len(path@.subrange(0, i as int)) == i) by {
        if i == 0 {
            assert(path@.subrange(0, 0).len() == 0);
        } else {
            assert(path@.subrange(0, i as int).last() == path@[i - 1]);
        }
    }
    let dir = path.substring_char(0, i);
    let name = path.substring_char(i, n);
    let name = if name.unicode_len() == 0 {
        "temp.json"
    } else {
        name
    };
    let a = concat(dir, ".");
    let b = a.concat(name);
    let r = b.concat(".tmp");
    assert(r@ =~= tmp_path(path@));
    r
}

/// What the bootstrap of the data root does: copy the seed tree `from` to `to`.
pub struct SeedCopy {
    pub from: String,
    pub to: String,
}

/// The bootstrap decision: a data root that exists is left alone; otherwise the
/// whole seed tree is copied into it.
pub fn copy_seed_data_if_missing(seed_root: &str, data_root: &str, data_root_exists: bool) -> (r:
    Option<SeedCopy>)
    ensures
        data_root_exists ==> r is None,
        !data_root_exists ==> (r matches Some(c) && c.from@ == seed_root@ && c.to@ == data_root@),
{
    if data_root_exists {
        None
    } else {
        Some(SeedCopy { from: seed_root.to_string(), to: data_root.to_string() })
    }
}

// ---- catalog and bundle types ----

/// A device of the catalog.
pub struct DeviceInfo {
    pub id: String,
    pub name: String,
    pub transport: String,
    pub vendor_id: Option<String>,
    pub product_id: Option<String>,
    pub firmware_version: Option<String>,
}

pub struct DeviceInfoModel {
    pub id: Seq<char>,
    pub name: Seq<char>,
    pub transport: Seq<char>,
    pub vendor_id: Option<Seq<char>>,
    pub product_id: Option<Seq<char>>,
    pub firmware_version: Option<Seq<char>>,
}

impl View for DeviceInfo {
    type V = DeviceInfoModel;

    open spec fn view(&self) -> DeviceInfoModel {
        DeviceInfoModel {
            id: self.id@,
            name: self.name@,
            transport: self.transport@,
            vendor_id: opt_text(self.vendor_id),
            product_id: opt_text(self.product_id),
            firmware_version: opt_text(self.firmware_version),
        }
    }
}

impl DeviceInfo {
    pub fn copy(&self) -> (r: DeviceInfo)
        ensures
            r@ == self@,
    {
        DeviceInfo {
            id: self.id.clone(),
            name: self.name.clone(),
            transport: self.transport.clone(),
            vendor_id: copy_opt_text(&self.vendor_id),
            product_id: copy_opt_text(&self.product_id),
            firmware_version: copy_opt_text(&self.firmware_version),
        }
    }
}

/// What a device supports.
#[derive(Clone, Copy, PartialEq, Eq, Structural, Debug)]
pub struct Capabilities {
    pub volatile_apply: bool,
    pub commit: bool,
    pub layouts: bool,
    pub keymap: bool,
    pub scripts: bool,
}

/// A profile: its identity and its layers.
pub struct Profile {
    pub id: String,
    pub name: String,
    pub layers: Vec<LayerState>,
}

pub struct ProfileModel {
    pub id: Seq<char>,
    pub name: Seq<char>,
    pub layers: Seq<LayerModel>,
}

impl View for Profile {
    type V = ProfileModel;

    open spec fn view(&self) -> ProfileModel {
        ProfileModel { id: self.id@, name: self.name@, layers: layers_view(self.layers@) }
    }
}

/// A named script of steps. `meta` holds an optional JSON object as its JSON text.
pub struct Script {
    pub id: String,
    pub profile_id: String,
    pub name: String,
    pub steps: Vec<Step>,
    pub meta: Option<String>,
}

pub struct ScriptModel {
    pub id: Seq<char>,
    pub profile_id: Seq<char>,
    pub name: Seq<char>,
    pub steps: Seq<StepModel>,
    pub meta: Option<Seq<char>>,
}

impl View for Script {
    type V = ScriptModel;

    open spec fn view(&self) -> ScriptModel {
        ScriptModel {
            id: self.id@,
            profile_id: self.profile_id@,
            name: self.name@,
            steps: steps_view(self.steps@),
            meta: opt_text(self.meta),
        }
    }
}

impl Script {
    pub fn copy(&self) -> (r: Script)
        ensures
            r@ == self@,
    {
        Script {
            id: self.id.clone(),
            profile_id: self.profile_id.clone(),
            name: self.name.clone(),
            steps: copy_steps(&self.steps),
            meta: copy_opt_text(&self.meta),
        }
    }
}

pub open spec fn scripts_view(s: Seq<Script>) -> Seq<ScriptModel> {
    s.map_values(|x: Script| x@)
}

pub fn copy_scripts(v: &Vec<Script>) -> (r: Vec<Script>)
    ensures
        scripts_view(r@) == scripts_view(v@),
{
    let mut r: Vec<Script> = Vec::new();
    let mut i: usize = 0;
    while i < v.len()
        invariant
            i <= v@.len(),
            r@.len() == i,
            forall|j: int| 0 <= j < i ==> (#[trigger] r@[j])@ == v@[j]@,
        decreases v@.len() - i,
    {
        r.push(v[i].copy());
        i = i + 1;
    }
    assert(scripts_view(r@) =~= scripts_view(v@));
    r
}

/// The factory baseline of a device. `layout` is the normalized layout document as
/// JSON text, carried through unread; `layout_element_ids` lists the element ids of
/// its keys and then of its controls.
pub struct SeedBundle {
    pub device: DeviceInfo,
    pub capabilities: Capabilities,
    pub profile: Profile,
    pub layout: Option<String>,
    pub layout_element_ids: Vec<String>,
    pub targets: Vec<String>,
    pub scripts: Vec<Script>,
    pub committed_state: Option<DeviceState>,
    pub bindings: Vec<BindingEntry>,
}

/// What opening a session hands back: the seed's metadata with the current layers
/// and the three snapshots.
pub struct ProfileBundle {
    pub session_id: String,
    pub device: DeviceInfo,
    pub capabilities: Capabilities,
    pub profile: Profile,
    pub layout: Option<String>,
    pub targets: Vec<String>,
    pub scripts: Vec<Script>,
    pub committed_state: Option<DeviceState>,
    pub applied_state: Option<DeviceState>,
    pub staged_state: Option<DeviceState>,
    pub bindings: Vec<BindingEntry>,
}

/// The snapshot a fresh record starts from: the bundle's committed state, else the
/// profile's layers at revision 0 with checksum 0.
pub open spec fn base_state(b: SeedBundle) -> StateModel {
    match b.committed_state {
        Some(c) => c@,
        None => StateModel {
            profile_id: b.profile.id@,
            layers: layers_view(b.profile.layers@),
            revision: Some(0),
            checksum: Some(0),
        },
    }
}

/// The record a device starts with when none was persisted.
pub open spec fn initial_state(device_id: Seq<char>, b: SeedBundle) -> SessionModel {
    SessionModel {
        version: CURRENT_VERSION,
        session_id: "coldstart-"@ + device_id,
        staged: Some(base_state(b)),
        applied: Some(base_state(b)),
        committed: Some(base_state(b)),
    }
}

fn base_state_exec(b: &SeedBundle) -> (r: DeviceState)
    ensures
        r@ == base_state(*b),
{
    match &b.committed_state {
        Some(c) => c.copy(),
        None => DeviceState {
            profile_id: b.profile.id.clone(),
            layers: copy_layers(&b.profile.layers),
            revision: Some(0),
            checksum: Some(0),
        },
    }
}

impl SeedBundle {
    /// The targets a bundle shows: its own list, else the layout's element ids sorted.
    pub fn targets_from_layout(&self) -> (r: Vec<String>)
        ensures
            strs_view(r@).to_multiset() == strs_view(self.layout_element_ids@).to_multiset(),
            sorted_texts(strs_view(r@)),
    {
        sort_strings(copy_strings(&self.layout_element_ids))
    }

    /// Combines the seed's metadata with the session's snapshots. The profile shows the
    /// staged layers, else the applied, else the committed, else the seed profile's own.
    pub fn to_profile_bundle(&self, session_id: String, state: &SessionState) -> (r: ProfileBundle)
        ensures
            r.session_id@ == session_id@,
            r.device@ == self.device@,
            r.capabilities == self.capabilities,
            r.profile@ == (ProfileModel {
                layers: shown_layers(state@, layers_view(self.profile.layers@)),
                ..self.profile@
            }),
            opt_text(r.layout) == opt_text(self.layout),
            self.targets@.len() > 0 ==> strs_view(r.targets@) == strs_view(self.targets@),
            self.targets@.len() == 0 ==> strs_view(r.targets@).to_multiset() == strs_view(
                self.layout_element_ids@,
            ).to_multiset() && sorted_texts(strs_view(r.targets@)),
            scripts_view(r.scripts@) == scripts_view(self.scripts@),
            opt_state(r.committed_state) == state@.committed,
            opt_state(r.applied_state) == state@.applied,
            opt_state(r.staged_state) == state@.staged,
            entries_view(r.bindings@) == entries_view(self.bindings@),
    {
        let layers = match &state.staged {
            Some(s) => copy_layers(&s.layers),
            None => match &state.applied {
                Some(a) => copy_layers(&a.layers),
                None => match &state.committed {
                    Some(c) => copy_layers(&c.layers),
                    None => copy_layers(&self.profile.layers),
                },
            },
        };
        let profile = Profile {
            id: self.profile.id.clone(),
            name: self.profile.name.clone(),
            layers,
        };
        let targets = if self.targets.len() == 0 {
            self.targets_from_layout()
        } else {
            copy_strings(&self.targets)
        };
        ProfileBundle {
            session_id,
            device: self.device.copy(),
            capabilities: self.capabilities,
            profile,
            layout: copy_opt_text(&self.layout),
            targets,
            scripts: copy_scripts(&self.scripts),
            committed_state: copy_opt_state(&state.committed),
            applied_state: copy_opt_state(&state.applied),
            staged_state: copy_opt_state(&state.staged),
            bindings: copy_entries(&self.bindings),
        }
    }
}

// ---- the file-backed store ----

/// Where seed documents are read and session records are kept.
pub struct MockStore {
    pub seed_root: String,
    pub data_root: String,
}

impl MockStore {
    pub fn new(seed_root: String, data_root: String) -> (r: MockStore)
        ensures
            r.seed_root@ == seed_root@,
            r.data_root@ == data_root@,
    {
        MockStore { seed_root, data_root }
    }

    /// The bootstrap of the data root from the seed tree, if it is needed.
    pub fn copy_seeds_if_needed(&self, data_root_exists: bool) -> (r: Option<SeedCopy>)
        ensures
            data_root_exists ==> r is None,
            !data_root_exists ==> (r matches Some(c) && c.from@ == self.seed_root@ && c.to@
                == self.data_root@),
    {
        copy_seed_data_if_missing(self.seed_root.as_str(), self.data_root.as_str(), data_root_exists)
    }

    /// `<seed root>/devices.json`
    pub fn devices_path(&self) -> (r: String)
        ensures
            r@ == path_join(self.seed_root@, "devices.json"@),
    {
        join_path(self.seed_root.as_str(), "devices.json")
    }

    /// `<seed root>/profiles/<device id>/bundle.json`
    pub fn bundle_path(&self, device_id: &str) -> (r: String)
        ensures
            r@ == path_join(
                path_join(path_join(self.seed_root@, "profiles"@), device_id@),
                "bundle.json"@,
            ),
    {
        let a = join_path(self.seed_root.as_str(), "profiles");
        let b = join_path(a.as_str(), device_id);
        join_path(b.as_str(), "bundle.json")
    }

    /// `<data root>/state/<device id>.json`
    pub fn state_path(&self, device_id: &str) -> (r: String)
        ensures
            r@ == path_join(path_join(self.data_root@, "state"@), device_id@ + ".json"@),
    {
        let a = join_path(self.data_root.as_str(), "state");
        let name = concat(device_id, ".json");
        join_path(a.as_str(), name.as_str())
    }

    /// The record a device starts with when none was persisted: all three tiers at
    /// the bundle's baseline.
    pub fn initial_state_from_bundle(&self, device_id: &str, bundle: &SeedBundle) -> (r:
        SessionState)
        ensures
            r@ == initial_state(device_id@, *bundle),
    {
        let base = base_state_exec(bundle);
        SessionState {
            version: SessionState::current_version(),
            session_id: concat("coldstart-", device_id),
            staged: Some(base.copy()),
            applied: Some(base.copy()),
            committed: Some(base),
        }
    }
}

} // verus!
