use vstd::prelude::*;

verus! {

/// The characters of an optional string.
pub open spec fn opt_text(o: Option<String>) -> Option<Seq<char>> {
    match o {
        Some(s) => Some(s@),
        None => None,
    }
}

pub fn copy_opt_text(o: &Option<String>) -> (r: Option<String>)
    ensures
        opt_text(r) == opt_text(*o),
{
    match o {
        Some(s) => Some(s.clone()),
        None => None,
    }
}

/// The kind of a non-key control of a layout.
#[derive(Clone, Copy, PartialEq, Eq, Structural, Debug)]
pub enum ControlKind {
    Block,
    EncoderBlock,
    Knob,
    Encoder,
    Oled,
    Button,
    Other,
}

/// One step of an inline key sequence or a script.
pub struct Step {
    pub id: i32,
    pub name: String,
    pub op: String,
    pub arg: Option<String>,
    pub class: Option<i32>,
}

pub struct StepModel {
    pub id: i32,
    pub name: Seq<char>,
    pub op: Seq<char>,
    pub arg: Option<Seq<char>>,
    pub class: Option<i32>,
}

impl View for Step {
    type V = StepModel;

    open spec fn view(&self) -> StepModel {
        StepModel {
            id: self.id,
            name: self.name@,
            op: self.op@,
            arg: opt_text(self.arg),
            class: self.class,
        }
    }
}

impl Step {
    pub fn copy(&self) -> (r: Step)
        ensures
            r@ == self@,
    {
        Step {
            id: self.id,
            name: self.name.clone(),
            op: self.op.clone(),
            arg: copy_opt_text(&self.arg),
            class: self.class,
        }
    }
}

pub open spec fn steps_view(v: Seq<Step>) -> Seq<StepModel> {
    v.map_values(|s: Step| s@)
}

pub fn copy_steps(v: &Vec<Step>) -> (r: Vec<Step>)
    ensures
        steps_view(r@) == steps_view(v@),
{
    let mut r: Vec<Step> = Vec::new();
    let mut i: usize = 0;
    while i < v.len()
        invariant
            i <= v.len(),
            r@.len() == i,
            forall|j: int| 0 <= j < i ==> (#[trigger] r@[j])@ == v@[j]@,
        decreases v.len() - i,
    {
        r.push(v[i].copy());
        i = i + 1;
    }
    assert(steps_view(r@) =~= steps_view(v@));
    r
}

/// The action assigned to one target. `meta` holds an optional JSON object
/// carried through unchanged, as its compact JSON text.
pub enum Binding {
    Unbound,
    ScriptRef { script_id: String, meta: Option<String> },
    SimpleAction { action: String, arg: Option<String>, meta: Option<String> },
    InlineSequence { steps: Vec<Step>, meta: Option<String> },
    Program { path: String, meta: Option<String> },
}

pub enum BindingModel {
    Unbound,
    ScriptRef { script_id: Seq<char>, meta: Option<Seq<char>> },
    SimpleAction { action: Seq<char>, arg: Option<Seq<char>>, meta: Option<Seq<char>> },
    InlineSequence { steps: Seq<StepModel>, meta: Option<Seq<char>> },
    Program { path: Seq<char>, meta: Option<Seq<char>> },
}

impl View for Binding {
    type V = BindingModel;

    open spec fn view(&self) -> BindingModel {
        match self {
            Binding::Unbound => BindingModel::Unbound,
            Binding::ScriptRef { script_id, meta } => BindingModel::ScriptRef {
                script_id: script_id@,
                meta: opt_text(*meta),
            },
            Binding::SimpleAction { action, arg, meta } => BindingModel::SimpleAction {
                action: action@,
                arg: opt_text(*arg),
                meta: opt_text(*meta),
            },
            Binding::InlineSequence { steps, meta } => BindingModel::InlineSequence {
                steps: steps_view(steps@),
                meta: opt_text(*meta),
            },
            Binding::Program { path, meta } => BindingModel::Program {
                path: path@,
                meta: opt_text(*meta),
            },
        }
    }
}

impl Binding {
    pub fn copy(&self) -> (r: Binding)
        ensures
            r@ == self@,
    {
        match self {
            Binding::Unbound => Binding::Unbound,
            Binding::ScriptRef { script_id, meta } => Binding::ScriptRef {
                script_id: script_id.clone(),
                meta: copy_opt_text(meta),
            },
            Binding::SimpleAction { action, arg, meta } => Binding::SimpleAction {
                action: action.clone(),
                arg: copy_opt_text(arg),
                meta: copy_opt_text(meta),
            },
            Binding::InlineSequence { steps, meta } => Binding::InlineSequence {
                steps: copy_steps(steps),
                meta: copy_opt_text(meta),
            },
            Binding::Program { path, meta } => Binding::Program {
                path: path.clone(),
                meta: copy_opt_text(meta),
            },
        }
    }
}

/// One edit: the binding of one target, on an optional layer.
pub struct BindingEntry {
    pub target_id: String,
    pub layer_id: Option<i32>,
    pub binding: Binding,
}

pub struct EntryModel {
    pub target_id: Seq<char>,
    pub layer_id: Option<i32>,
    pub binding: BindingModel,
}

impl View for BindingEntry {
    type V = EntryModel;

    open spec fn view(&self) -> EntryModel {
        EntryModel { target_id: self.target_id@, layer_id: self.layer_id, binding: self.binding@ }
    }
}

impl BindingEntry {
    pub fn copy(&self) -> (r: BindingEntry)
        ensures
            r@ == self@,
    {
        BindingEntry {
            target_id: self.target_id.clone(),
            layer_id: self.layer_id,
            binding: self.binding.copy(),
        }
    }
}

pub open spec fn entries_view(v: Seq<BindingEntry>) -> Seq<EntryModel> {
    v.map_values(|e: BindingEntry| e@)
}

pub fn copy_entries(v: &Vec<BindingEntry>) -> (r: Vec<BindingEntry>)
    ensures
        entries_view(r@) == entries_view(v@),
{
    let mut r: Vec<BindingEntry> = Vec::new();
    let mut i: usize = 0;
    while i < v.len()
        invariant
            i <= v.len(),
            r@.len() == i,
            forall|j: int| 0 <= j < i ==> (#[trigger] r@[j])@ == v@[j]@,
        decreases v.len() - i,
    {
        r.push(v[i].copy());
        i = i + 1;
    }
    assert(entries_view(r@) =~= entries_view(v@));
    r
}

/// One keymap layer: its id and its bindings.
pub struct LayerState {
    pub id: i32,
    pub bindings: Vec<BindingEntry>,
}

pub struct LayerModel {
    pub id: i32,
    pub bindings: Seq<EntryModel>,
}

impl View for LayerState {
    type V = LayerModel;

    open spec fn view(&self) -> LayerModel {
        LayerModel { id: self.id, bindings: entries_view(self.bindings@) }
    }
}

impl LayerState {
    pub fn copy(&self) -> (r: LayerState)
        ensures
            r@ == self@,
    {
        LayerState { id: self.id, bindings: copy_entries(&self.bindings) }
    }
}

pub open spec fn layers_view(v: Seq<LayerState>) -> Seq<LayerModel> {
    v.map_values(|l: LayerState| l@)
}

pub fn copy_layers(v: &Vec<LayerState>) -> (r: Vec<LayerState>)
    ensures
        layers_view(r@) == layers_view(v@),
{
    let mut r: Vec<LayerState> = Vec::new();
    let mut i: usize = 0;
    while i < v.len()
        invariant
            i <= v.len(),
            r@.len() == i,
            forall|j: int| 0 <= j < i ==> (#[trigger] r@[j])@ == v@[j]@,
        decreases v.len() - i,
    {
        r.push(v[i].copy());
        i = i + 1;
    }
    assert(layers_view(r@) =~= layers_view(v@));
    r
}

/// One complete configuration snapshot of a device's profile.
pub struct DeviceState {
    pub profile_id: String,
    pub layers: Vec<LayerState>,
    pub revision: Option<i32>,
    pub checksum: Option<u32>,
}

pub struct StateModel {
    pub profile_id: Seq<char>,
    pub layers: Seq<LayerModel>,
    pub revision: Option<i32>,
    pub checksum: Option<u32>,
}

impl View for DeviceState {
    type V = StateModel;

    open spec fn view(&self) -> StateModel {
        StateModel {
            profile_id: self.profile_id@,
            layers: layers_view(self.layers@),
            revision: self.revision,
            checksum: self.checksum,
        }
    }
}

impl DeviceState {
    pub fn copy(&self) -> (r: DeviceState)
        ensures
            r@ == self@,
    {
        DeviceState {
            profile_id: self.profile_id.clone(),
            layers: copy_layers(&self.layers),
            revision: self.revision,
            checksum: self.checksum,
        }
    }
}

pub open spec fn opt_state(o: Option<DeviceState>) -> Option<StateModel> {
    match o {
        Some(s) => Some(s@),
        None => None,
    }
}

pub fn copy_opt_state(o: &Option<DeviceState>) -> (r: Option<DeviceState>)
    ensures
        opt_state(r) == opt_state(*o),
{
    match o {
        Some(s) => Some(s.copy()),
        None => None,
    }
}

} // verus!
