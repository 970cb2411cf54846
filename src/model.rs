//! Records that the orchestrator keeps about modules, devices and deployments, and their
//! mathematical views.
use vstd::prelude::*;

verus! {

/// A rejection that carries no further detail.
#[derive(Debug, PartialEq, Eq, Structural, Clone, Copy)]
pub struct PlaceholderError;

/// The value types a WebAssembly function can take or give.
#[derive(Debug, PartialEq, Eq, Structural, Clone, Copy)]
pub enum WebAssemblyType {
    U32,
    U64,
    F32,
    F64,
}

/// Describes a WebAssembly function and how it is called.
pub struct WebAssemblyFunction {
    pub input: Vec<WebAssemblyType>,
    pub output: Vec<WebAssemblyType>,
}

pub struct FunctionView {
    pub input: Seq<WebAssemblyType>,
    pub output: Seq<WebAssemblyType>,
}

impl View for WebAssemblyFunction {
    type V = FunctionView;

    open spec fn view(&self) -> FunctionView {
        FunctionView { input: self.input@, output: self.output@ }
    }
}

/// One constituent of a module: a data file, or a WebAssembly unit declaring its functions.
pub enum Layer {
    File(String),
    WebAssembly { functions: Vec<(String, WebAssemblyFunction)> },
}

pub enum LayerView {
    File(Seq<char>),
    WebAssembly(Seq<(Seq<char>, FunctionView)>),
}

/// The view of a list of named entries.
pub open spec fn entries_view<V: View>(s: Seq<(String, V)>) -> Seq<(Seq<char>, V::V)> {
    s.map_values(|p: (String, V)| (p.0@, p.1@))
}

impl View for Layer {
    type V = LayerView;

    open spec fn view(&self) -> LayerView {
        match self {
            Layer::File(path) => LayerView::File(path@),
            Layer::WebAssembly { functions } => LayerView::WebAssembly(entries_view(functions@)),
        }
    }
}

/// A unit of work installable on a device.
///
/// - `name` identifies the module.
/// - `url` is where a device fetches the module's layers.
/// - `requirements` are the interface tags a device must offer to run the module.
/// - `layers` are ordered by dependency: a later layer may depend on an earlier one.
pub struct Module {
    pub name: String,
    pub url: String,
    pub requirements: Vec<String>,
    pub layers: Vec<Layer>,
}

pub struct ModuleView {
    pub name: Seq<char>,
    pub url: Seq<char>,
    pub requirements: Seq<Seq<char>>,
    pub layers: Seq<LayerView>,
}

pub open spec fn strings_view(s: Seq<String>) -> Seq<Seq<char>> {
    s.map_values(|x: String| x@)
}

pub open spec fn layers_view(s: Seq<Layer>) -> Seq<LayerView> {
    s.map_values(|l: Layer| l@)
}

impl View for Module {
    type V = ModuleView;

    open spec fn view(&self) -> ModuleView {
        ModuleView {
            name: self.name@,
            url: self.url@,
            requirements: strings_view(self.requirements@),
            layers: layers_view(self.layers@),
        }
    }
}

pub open spec fn modules_view(s: Seq<Module>) -> Seq<ModuleView> {
    s.map_values(|m: Module| m@)
}

/// One step of a pipeline: a function of a module, optionally pinned to a device.
pub struct ManifestNode {
    pub device: Option<String>,
    pub module: String,
    pub function: String,
}

pub struct NodeView {
    pub device: Option<Seq<char>>,
    pub module: Seq<char>,
    pub function: Seq<char>,
}

impl View for ManifestNode {
    type V = NodeView;

    open spec fn view(&self) -> NodeView {
        NodeView {
            device: match self.device {
                Some(d) => Some(d@),
                None => None,
            },
            module: self.module@,
            function: self.function@,
        }
    }
}

pub open spec fn manifest_view(s: Seq<ManifestNode>) -> Seq<NodeView> {
    s.map_values(|n: ManifestNode| n@)
}

/// What a device offers for modules to use.
pub struct DeviceDescription {
    pub interfaces: Vec<String>,
}

/// Whether a device answered its last health query.
#[derive(Debug, PartialEq, Eq, Structural, Clone, Copy)]
pub struct DeviceHealth {
    pub up: bool,
}

/// A device of the fleet.
///
/// - `name` identifies the device.
/// - `modules` names the modules that the device is known to host.
pub struct Device {
    pub name: String,
    pub description: DeviceDescription,
    pub health: DeviceHealth,
    pub modules: Vec<String>,
}

pub struct DeviceView {
    pub name: Seq<char>,
    pub interfaces: Seq<Seq<char>>,
    pub up: bool,
    pub modules: Seq<Seq<char>>,
}

impl View for Device {
    type V = DeviceView;

    open spec fn view(&self) -> DeviceView {
        DeviceView {
            name: self.name@,
            interfaces: strings_view(self.description.interfaces@),
            up: self.health.up,
            modules: strings_view(self.modules@),
        }
    }
}

pub open spec fn devices_view(s: Seq<Device>) -> Seq<DeviceView> {
    s.map_values(|d: Device| d@)
}

/// The solved state of one device: where to fetch each module, and the signature of each
/// function that the device calls on another device.
pub struct DeviceConfiguration {
    pub modules: Vec<(String, String)>,
    pub connections: Vec<(String, WebAssemblyFunction)>,
}

pub struct ConfigurationView {
    pub modules: Seq<(Seq<char>, Seq<char>)>,
    pub connections: Seq<(Seq<char>, FunctionView)>,
}

impl View for DeviceConfiguration {
    type V = ConfigurationView;

    open spec fn view(&self) -> ConfigurationView {
        ConfigurationView {
            modules: entries_view(self.modules@),
            connections: entries_view(self.connections@),
        }
    }
}

/// The solved plan of a deployment: one configuration per device, in the order in which the
/// devices first appear in the manifest.
pub type DeploymentConfiguration = Vec<(String, DeviceConfiguration)>;

/// A named instance of a manifest with its solved configuration.
///
/// - `active` holds once the configuration has been acknowledged by every device in it.
pub struct Deployment {
    pub name: String,
    pub active: bool,
    pub manifest: Vec<ManifestNode>,
    pub configuration: DeploymentConfiguration,
}

pub struct DeploymentView {
    pub name: Seq<char>,
    pub active: bool,
    pub manifest: Seq<NodeView>,
    pub configuration: Seq<(Seq<char>, ConfigurationView)>,
}

impl View for Deployment {
    type V = DeploymentView;

    open spec fn view(&self) -> DeploymentView {
        DeploymentView {
            name: self.name@,
            active: self.active,
            manifest: manifest_view(self.manifest@),
            configuration: entries_view(self.configuration@),
        }
    }
}

pub fn copy_strings(v: &Vec<String>) -> (r: Vec<String>)
    ensures
        r@ == v@,
{
    let mut r: Vec<String> = Vec::new();
    let mut i: usize = 0;
    while i < v.len()
        invariant
            i <= v.len(),
            r@ == v@.take(i as int),
        decreases v.len() - i,
    {
        r.push(v[i].clone());
        i = i + 1;
        assert(r@ =~= v@.take(i as int));
    }
    assert(r@ =~= v@);
    r
}

pub fn copy_types(v: &Vec<WebAssemblyType>) -> (r: Vec<WebAssemblyType>)
    ensures
        r@ == v@,
{
    let mut r: Vec<WebAssemblyType> = Vec::new();
    let mut i: usize = 0;
    while i < v.len()
        invariant
            i <= v.len(),
            r@ == v@.take(i as int),
        decreases v.len() - i,
    {
        r.push(v[i]);
        i = i + 1;
        assert(r@ =~= v@.take(i as int));
    }
    assert(r@ =~= v@);
    r
}

impl WebAssemblyFunction {
    pub fn copied(&self) -> (r: WebAssemblyFunction)
        ensures
            r@ == self@,
    {
        WebAssemblyFunction { input: copy_types(&self.input), output: copy_types(&self.output) }
    }
}

impl DeviceDescription {
    pub fn copied(&self) -> (r: DeviceDescription)
        ensures
            r.interfaces@ == self.interfaces@,
    {
        DeviceDescription { interfaces: copy_strings(&self.interfaces) }
    }
}

impl Device {
    /// A device that answered a discovery query, offering `interfaces` and hosting nothing yet.
    pub fn discovered(name: String, interfaces: Vec<String>) -> (r: Device)
        ensures
            r.name == name,
            r.description.interfaces@ == interfaces@,
            r.health.up,
            r.modules@.len() == 0,
    {
        Device {
            name,
            description: DeviceDescription { interfaces },
            health: DeviceHealth { up: true },
            modules: Vec::new(),
        }
    }

    pub fn copied(&self) -> (r: Device)
        ensures
            r@ == self@,
            r.name == self.name,
    {
        Device {
            name: self.name.clone(),
            description: self.description.copied(),
            health: self.health,
            modules: copy_strings(&self.modules),
        }
    }
}

impl ManifestNode {
    pub fn copied(&self) -> (r: ManifestNode)
        ensures
            r@ == self@,
    {
        ManifestNode {
            device: match &self.device {
                Some(d) => Some(d.clone()),
                None => None,
            },
            module: self.module.clone(),
            function: self.function.clone(),
        }
    }
}

pub fn copy_manifest(v: &Vec<ManifestNode>) -> (r: Vec<ManifestNode>)
    ensures
        manifest_view(r@) == manifest_view(v@),
{
    let mut r: Vec<ManifestNode> = Vec::new();
    let mut i: usize = 0;
    while i < v.len()
        invariant
            i <= v.len(),
            manifest_view(r@) == manifest_view(v@).take(i as int),
        decreases v.len() - i,
    {
        let ghost before = r@;
        r.push(v[i].copied());
        i = i + 1;
        assert(manifest_view(r@) =~= manifest_view(v@).take(i as int)) by {
            assert(manifest_view(r@) =~= manifest_view(before).push(v@[i - 1]@));
        }
    }
    assert(manifest_view(v@).take(i as int) =~= manifest_view(v@));
    r
}

pub fn copy_urls(v: &Vec<(String, String)>) -> (r: Vec<(String, String)>)
    ensures
        entries_view(r@) == entries_view(v@),
{
    let mut r: Vec<(String, String)> = Vec::new();
    let mut i: usize = 0;
    while i < v.len()
        invariant
            i <= v.len(),
            entries_view(r@) == entries_view(v@).take(i as int),
        decreases v.len() - i,
    {
        let ghost before = r@;
        r.push((v[i].0.clone(), v[i].1.clone()));
        i = i + 1;
        assert(entries_view(r@) =~= entries_view(v@).take(i as int)) by {
            assert(entries_view(r@) =~= entries_view(before).push((v@[i - 1].0@, v@[i - 1].1@)));
        }
    }
    assert(entries_view(v@).take(i as int) =~= entries_view(v@));
    r
}

pub fn copy_functions(v: &Vec<(String, WebAssemblyFunction)>) -> (r: Vec<(String, WebAssemblyFunction)>)
    ensures
        entries_view(r@) == entries_view(v@),
{
    let mut r: Vec<(String, WebAssemblyFunction)> = Vec::new();
    let mut i: usize = 0;
    while i < v.len()
        invariant
            i <= v.len(),
            entries_view(r@) == entries_view(v@).take(i as int),
        decreases v.len() - i,
    {
        let ghost before = r@;
        r.push((v[i].0.clone(), v[i].1.copied()));
        i = i + 1;
        assert(entries_view(r@) =~= entries_view(v@).take(i as int)) by {
            assert(entries_view(r@) =~= entries_view(before).push((v@[i - 1].0@, v@[i - 1].1@)));
        }
    }
    assert(entries_view(v@).take(i as int) =~= entries_view(v@));
    r
}

impl DeviceConfiguration {
    pub fn copied(&self) -> (r: DeviceConfiguration)
        ensures
            r@ == self@,
    {
        DeviceConfiguration { modules: copy_urls(&self.modules), connections: copy_functions(&self.connections) }
    }
}

pub fn copy_plan(v: &DeploymentConfiguration) -> (r: DeploymentConfiguration)
    ensures
        entries_view(r@) == entries_view(v@),
{
    let mut r: DeploymentConfiguration = Vec::new();
    let mut i: usize = 0;
    while i < v.len()
        invariant
            i <= v.len(),
            entries_view(r@) == entries_view(v@).take(i as int),
        decreases v.len() - i,
    {
        let ghost before = r@;
        r.push((v[i].0.clone(), v[i].1.copied()));
        i = i + 1;
        assert(entries_view(r@) =~= entries_view(v@).take(i as int)) by {
            assert(entries_view(r@) =~= entries_view(before).push((v@[i - 1].0@, v@[i - 1].1@)));
        }
    }
    assert(entries_view(v@).take(i as int) =~= entries_view(v@));
    r
}

impl Deployment {
    pub fn copied(&self) -> (r: Deployment)
        ensures
            r@ == self@,
    {
        Deployment {
            name: self.name.clone(),
            active: self.active,
            manifest: copy_manifest(&self.manifest),
            configuration: copy_plan(&self.configuration),
        }
    }
}

/// A value handed to or returned by a WebAssembly function. Floating-point values are held as
/// their IEEE 754 bit patterns.
#[derive(Debug, PartialEq, Eq, Structural, Clone, Copy)]
pub enum WebAssemblyValue {
    U32(u32),
    U64(u64),
    F32(u32),
    F64(u64),
}

/// What can be invoked: (deployment, module, function).
pub type ExecutionId = (String, String, String);

/// One invocation: what was invoked, and when.
pub type HistoryEntryId = (ExecutionId, String);

/// A supervisor's answer to an invocation: the output, or the identity under which the
/// invocation was queued, to be looked up in the history later.
pub enum ExecutionResponse {
    Queued(HistoryEntryId),
    Output(Vec<WebAssemblyValue>),
}

/// One invocation known to a device.
pub struct HistoryEntry {
    pub id: HistoryEntryId,
    pub datetime: String,
    pub arguments: Vec<WebAssemblyValue>,
}

pub struct HistoryEntryView {
    pub deployment: Seq<char>,
    pub module: Seq<char>,
    pub function: Seq<char>,
    pub timestamp: Seq<char>,
    pub datetime: Seq<char>,
    pub arguments: Seq<WebAssemblyValue>,
}

impl View for HistoryEntry {
    type V = HistoryEntryView;

    open spec fn view(&self) -> HistoryEntryView {
        HistoryEntryView {
            deployment: self.id.0.0@,
            module: self.id.0.1@,
            function: self.id.0.2@,
            timestamp: self.id.1@,
            datetime: self.datetime@,
            arguments: self.arguments@,
        }
    }
}

pub open spec fn history_view(s: Seq<HistoryEntry>) -> Seq<HistoryEntryView> {
    s.map_values(|e: HistoryEntry| e@)
}

pub fn copy_values(v: &Vec<WebAssemblyValue>) -> (r: Vec<WebAssemblyValue>)
    ensures
        r@ == v@,
{
    let mut r: Vec<WebAssemblyValue> = Vec::new();
    let mut i: usize = 0;
    while i < v.len()
        invariant
            i <= v.len(),
            r@ == v@.take(i as int),
        decreases v.len() - i,
    {
        r.push(v[i]);
        i = i + 1;
        assert(r@ =~= v@.take(i as int));
    }
    assert(r@ =~= v@);
    r
}

impl HistoryEntry {
    pub fn copied(&self) -> (r: HistoryEntry)
        ensures
            r@ == self@,
    {
        HistoryEntry {
            id: ((self.id.0.0.clone(), self.id.0.1.clone(), self.id.0.2.clone()), self.id.1.clone()),
            datetime: self.datetime.clone(),
            arguments: copy_values(&self.arguments),
        }
    }
}

} // verus!
