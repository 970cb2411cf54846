//! The deployment solver: from a manifest and snapshots of the devices and modules, the
//! configuration of every device that takes part in the pipeline.
use vstd::prelude::*;
use vstd::string::*;
use crate::model::{
    devices_view, entries_view, modules_view, strings_view, Device, DeviceView, FunctionView, Layer,
    LayerView, Module, ModuleView, WebAssemblyFunction, ManifestNode, NodeView, manifest_view,
    ConfigurationView, DeviceConfiguration, DeploymentConfiguration,
};

verus! {

/// Why a manifest cannot be realised on the current fleet.
#[derive(Debug, PartialEq, Eq, Structural, Clone, Copy)]
pub enum SolveError {
    ModuleNotFound,
    FunctionNotFound,
    DeviceUnavailable,
    NoSuitableDevice,
}

/// Index of the first entry whose key is `k`.
pub open spec fn key_index<V>(s: Seq<(Seq<char>, V)>, k: Seq<char>) -> Option<int>
    decreases s.len(),
{
    if s.len() == 0 {
        None
    } else {
        match key_index(s.drop_last(), k) {
            Some(i) => Some(i),
            None => if s.last().0 == k {
                Some(s.len() - 1)
            } else {
                None
            },
        }
    }
}

/// Index of the first module called `name`.
pub open spec fn module_index(ms: Seq<ModuleView>, name: Seq<char>) -> Option<int>
    decreases ms.len(),
{
    if ms.len() == 0 {
        None
    } else {
        match module_index(ms.drop_last(), name) {
            Some(i) => Some(i),
            None => if ms.last().name == name {
                Some(ms.len() - 1)
            } else {
                None
            },
        }
    }
}

/// Index of the first device called `name`.
pub open spec fn device_index(ds: Seq<DeviceView>, name: Seq<char>) -> Option<int>
    decreases ds.len(),
{
    if ds.len() == 0 {
        None
    } else {
        match device_index(ds.drop_last(), name) {
            Some(i) => Some(i),
            None => if ds.last().name == name {
                Some(ds.len() - 1)
            } else {
                None
            },
        }
    }
}

/// The signature of function `f` in the first layer that declares it.
pub open spec fn layers_function(layers: Seq<LayerView>, f: Seq<char>) -> Option<FunctionView>
    decreases layers.len(),
{
    if layers.len() == 0 {
        None
    } else {
        match layers_function(layers.drop_last(), f) {
            Some(sig) => Some(sig),
            None => match layers.last() {
                LayerView::File(_) => None,
                LayerView::WebAssembly(fs) => match key_index(fs, f) {
                    Some(j) => Some(fs[j].1),
                    None => None,
                },
            },
        }
    }
}

/// The device is up and offers every interface that the module requires.
pub open spec fn suitable(d: DeviceView, m: ModuleView) -> bool {
    &&& d.up
    &&& forall|k: int| 0 <= k < m.requirements.len() ==> d.interfaces.contains(#[trigger] m.requirements[k])
}

pub open spec fn hosts(d: DeviceView, m: ModuleView) -> bool {
    d.modules.contains(m.name)
}

/// Lexicographic order of names, by code point.
pub open spec fn name_less(a: Seq<char>, b: Seq<char>) -> bool
    decreases a.len(),
{
    if b.len() == 0 {
        false
    } else if a.len() == 0 {
        true
    } else if a[0] != b[0] {
        (a[0] as u32) < (b[0] as u32)
    } else {
        name_less(a.drop_first(), b.drop_first())
    }
}

/// Device `a` is preferred to device `b` for module `m`: one that already hosts the module comes
/// first, then the smaller name.
pub open spec fn preferred(a: DeviceView, b: DeviceView, m: ModuleView) -> bool {
    ||| hosts(a, m) && !hosts(b, m)
    ||| hosts(a, m) == hosts(b, m) && name_less(a.name, b.name)
}

/// Index of the device chosen for an unpinned step of module `m`: the most preferred suitable
/// device, the earliest one among equals.
pub open spec fn pick(ds: Seq<DeviceView>, m: ModuleView) -> Option<int>
    decreases ds.len(),
{
    if ds.len() == 0 {
        None
    } else {
        let p = pick(ds.drop_last(), m);
        if !suitable(ds.last(), m) {
            p
        } else {
            match p {
                None => Some(ds.len() - 1),
                Some(i) => if preferred(ds.last(), ds[i], m) {
                    Some(ds.len() - 1)
                } else {
                    Some(i)
                },
            }
        }
    }
}

pub fn find_key<V: View>(s: &Vec<(String, V)>, k: &String) -> (r: Option<usize>)
    ensures
        match r {
            Some(i) => i < s@.len() && key_index(entries_view(s@), k@) == Some(i as int),
            None => key_index(entries_view(s@), k@) is None,
        },
{
    let mut r: Option<usize> = None;
    let mut i: usize = 0;
    while i < s.len()
        invariant
            i <= s.len(),
            match r {
                Some(j) => j < i && key_index(entries_view(s@).take(i as int), k@) == Some(j as int),
                None => key_index(entries_view(s@).take(i as int), k@) is None,
            },
        decreases s.len() - i,
    {
        assert(entries_view(s@).take(i + 1).drop_last() =~= entries_view(s@).take(i as int));
        if r.is_none() && s[i].0 == *k {
            r = Some(i);
        }
        i = i + 1;
    }
    assert(entries_view(s@).take(i as int) =~= entries_view(s@));
    r
}

pub fn find_module(ms: &Vec<Module>, name: &String) -> (r: Option<usize>)
    ensures
        match r {
            Some(i) => i < ms@.len() && module_index(modules_view(ms@), name@) == Some(i as int),
            None => module_index(modules_view(ms@), name@) is None,
        },
{
    let mut r: Option<usize> = None;
    let mut i: usize = 0;
    while i < ms.len()
        invariant
            i <= ms.len(),
            match r {
                Some(j) => j < i && module_index(modules_view(ms@).take(i as int), name@) == Some(j as int),
                None => module_index(modules_view(ms@).take(i as int), name@) is None,
            },
        decreases ms.len() - i,
    {
        assert(modules_view(ms@).take(i + 1).drop_last() =~= modules_view(ms@).take(i as int));
        if r.is_none() && ms[i].name == *name {
            r = Some(i);
        }
        i = i + 1;
    }
    assert(modules_view(ms@).take(i as int) =~= modules_view(ms@));
    r
}

pub fn find_device(ds: &Vec<Device>, name: &String) -> (r: Option<usize>)
    ensures
        match r {
            Some(i) => i < ds@.len() && device_index(devices_view(ds@), name@) == Some(i as int),
            None => device_index(devices_view(ds@), name@) is None,
        },
{
    let mut r: Option<usize> = None;
    let mut i: usize = 0;
    while i < ds.len()
        invariant
            i <= ds.len(),
            match r {
                Some(j) => j < i && device_index(devices_view(ds@).take(i as int), name@) == Some(j as int),
                None => device_index(devices_view(ds@).take(i as int), name@) is None,
            },
        decreases ds.len() - i,
    {
        assert(devices_view(ds@).take(i + 1).drop_last() =~= devices_view(ds@).take(i as int));
        if r.is_none() && ds[i].name == *name {
            r = Some(i);
        }
        i = i + 1;
    }
    assert(devices_view(ds@).take(i as int) =~= devices_view(ds@));
    r
}

/// The signature of function `f` in the first layer of `m` that declares it.
pub fn find_function<'a>(m: &'a Module, f: &String) -> (r: Option<&'a WebAssemblyFunction>)
    ensures
        match r {
            Some(sig) => layers_function(m@.layers, f@) == Some(sig@),
            None => layers_function(m@.layers, f@) is None,
        },
{
    let mut r: Option<&'a WebAssemblyFunction> = None;
    let mut i: usize = 0;
    while i < m.layers.len()
        invariant
            i <= m.layers.len(),
            match r {
                Some(sig) => layers_function(m@.layers.take(i as int), f@) == Some(sig@),
                None => layers_function(m@.layers.take(i as int), f@) is None,
            },
        decreases m.layers.len() - i,
    {
        assert(m@.layers.take(i + 1).drop_last() =~= m@.layers.take(i as int));
        assert(m@.layers.take(i + 1).last() == m.layers[i as int]@);
        if r.is_none() {
            match &m.layers[i] {
                Layer::File(_) => {},
                Layer::WebAssembly { functions } => {
                    match find_key(functions, f) {
                        Some(j) => {
                            assert(m.layers[i as int]@ == LayerView::WebAssembly(entries_view(functions@)));
                            assert(entries_view(functions@)[j as int].1 == functions@[j as int].1@);
                            r = Some(&functions[j].1);
                        },
                        None => {
                            assert(m.layers[i as int]@ == LayerView::WebAssembly(entries_view(functions@)));
                        },
                    }
                },
            }
        }
        i = i + 1;
    }
    assert(m@.layers.take(i as int) =~= m@.layers);
    r
}

pub fn contains_string(s: &Vec<String>, x: &String) -> (r: bool)
    ensures
        r == strings_view(s@).contains(x@),
{
    let mut i: usize = 0;
    while i < s.len()
        invariant
            i <= s.len(),
            forall|j: int| 0 <= j < i ==> s@[j]@ != x@,
        decreases s.len() - i,
    {
        if s[i] == *x {
            assert(strings_view(s@)[i as int] == x@);
            return true;
        }
        i = i + 1;
    }
    assert forall|j: int| 0 <= j < strings_view(s@).len() implies strings_view(s@)[j] != x@ by {}
    false
}

pub fn is_suitable(d: &Device, m: &Module) -> (r: bool)
    ensures
        r == suitable(d@, m@),
{
    if !d.health.up {
        return false;
    }
    let mut i: usize = 0;
    while i < m.requirements.len()
        invariant
            i <= m.requirements.len(),
            forall|k: int| 0 <= k < i ==> d@.interfaces.contains(#[trigger] m@.requirements[k]),
        decreases m.requirements.len() - i,
    {
        if !contains_string(&d.description.interfaces, &m.requirements[i]) {
            assert(!d@.interfaces.contains(m@.requirements[i as int]));
            return false;
        }
        i = i + 1;
    }
    true
}

/// Compares two names by code point.
pub fn is_name_less(a: &String, b: &String) -> (r: bool)
    ensures
        r == name_less(a@, b@),
{
    let sa = a.as_str();
    let sb = b.as_str();
    let na = sa.unicode_len();
    let nb = sb.unicode_len();
    let mut i: usize = 0;
    assert(a@.skip(0) =~= a@);
    assert(b@.skip(0) =~= b@);
    while i < na && i < nb
        invariant
            i <= na,
            i <= nb,
            na == a@.len(),
            nb == b@.len(),
            sa@ == a@,
            sb@ == b@,
            name_less(a@, b@) == name_less(a@.skip(i as int), b@.skip(i as int)),
        decreases na - i,
    {
        let ca = sa.get_char(i);
        let cb = sb.get_char(i);
        assert(a@.skip(i as int)[0] == ca);
        assert(b@.skip(i as int)[0] == cb);
        if ca != cb {
            return (ca as u32) < (cb as u32);
        }
        assert(a@.skip(i as int).drop_first() =~= a@.skip(i + 1));
        assert(b@.skip(i as int).drop_first() =~= b@.skip(i + 1));
        i = i + 1;
    }
    i < nb
}

/// The device that an unpinned step of module `m` goes to, if any is suitable.
pub fn pick_device(ds: &Vec<Device>, m: &Module) -> (r: Option<usize>)
    ensures
        match r {
            Some(i) => i < ds@.len() && pick(devices_view(ds@), m@) == Some(i as int),
            None => pick(devices_view(ds@), m@) is None,
        },
{
    let mut r: Option<usize> = None;
    let mut r_hosts: bool = false;
    let mut i: usize = 0;
    while i < ds.len()
        invariant
            i <= ds.len(),
            match r {
                Some(j) => j < i && pick(devices_view(ds@).take(i as int), m@) == Some(j as int)
                    && r_hosts == hosts(ds@[j as int]@, m@),
                None => pick(devices_view(ds@).take(i as int), m@) is None,
            },
        decreases ds.len() - i,
    {
        let ghost dv = devices_view(ds@).take(i + 1);
        assert(dv.drop_last() =~= devices_view(ds@).take(i as int));
        assert(dv.last() == ds@[i as int]@);
        if is_suitable(&ds[i], m) {
            let h = contains_string(&ds[i].modules, &m.name);
            match r {
                None => {
                    r = Some(i);
                    r_hosts = h;
                },
                Some(j) => {
                    assert(dv[j as int] == ds@[j as int]@);
                    let better = (h && !r_hosts) || (h == r_hosts && is_name_less(&ds[i].name, &ds[j].name));
                    if better {
                        r = Some(i);
                        r_hosts = h;
                    }
                },
            }
        }
        i = i + 1;
    }
    assert(devices_view(ds@).take(i as int) =~= devices_view(ds@));
    r
}

/// Where one step of a manifest runs: the device, the module with the URL it is fetched from,
/// and the function with its signature.
pub struct Placement {
    pub device: String,
    pub module: String,
    pub url: String,
    pub function: String,
    pub signature: WebAssemblyFunction,
}

pub struct PlacementView {
    pub device: Seq<char>,
    pub module: Seq<char>,
    pub url: Seq<char>,
    pub function: Seq<char>,
    pub signature: FunctionView,
}

impl View for Placement {
    type V = PlacementView;

    open spec fn view(&self) -> PlacementView {
        PlacementView {
            device: self.device@,
            module: self.module@,
            url: self.url@,
            function: self.function@,
            signature: self.signature@,
        }
    }
}

pub open spec fn placements_view(s: Seq<Placement>) -> Seq<PlacementView> {
    s.map_values(|p: Placement| p@)
}

/// The device that step `n` goes to, or why there is none.
pub open spec fn place_device(n: NodeView, ds: Seq<DeviceView>, m: ModuleView) -> Result<Seq<char>, SolveError> {
    match n.device {
        Some(name) => match device_index(ds, name) {
            Some(di) => if ds[di].up {
                Ok(ds[di].name)
            } else {
                Err(SolveError::DeviceUnavailable)
            },
            None => Err(SolveError::DeviceUnavailable),
        },
        None => match pick(ds, m) {
            Some(di) => Ok(ds[di].name),
            None => Err(SolveError::NoSuitableDevice),
        },
    }
}

/// Where step `n` runs: its module is resolved first, then its function, then its device.
pub open spec fn place(n: NodeView, ds: Seq<DeviceView>, ms: Seq<ModuleView>) -> Result<PlacementView, SolveError> {
    match module_index(ms, n.module) {
        None => Err(SolveError::ModuleNotFound),
        Some(mi) => match layers_function(ms[mi].layers, n.function) {
            None => Err(SolveError::FunctionNotFound),
            Some(sig) => match place_device(n, ds, ms[mi]) {
                Ok(d) => Ok(PlacementView {
                    device: d,
                    module: ms[mi].name,
                    url: ms[mi].url,
                    function: n.function,
                    signature: sig,
                }),
                Err(e) => Err(e),
            },
        },
    }
}

/// The placements of the first `n` steps, or the error of the first step that cannot be placed.
pub open spec fn placements(
    manifest: Seq<NodeView>,
    ds: Seq<DeviceView>,
    ms: Seq<ModuleView>,
    n: nat,
) -> Result<Seq<PlacementView>, SolveError>
    decreases n,
{
    if n == 0 {
        Ok(seq![])
    } else {
        match placements(manifest, ds, ms, (n - 1) as nat) {
            Err(e) => Err(e),
            Ok(ps) => match place(manifest[n - 1], ds, ms) {
                Ok(p) => Ok(ps.push(p)),
                Err(e) => Err(e),
            },
        }
    }
}

/// Replaces the value of the first entry with key `k`, or appends the entry.
pub open spec fn set_entry<V>(s: Seq<(Seq<char>, V)>, k: Seq<char>, v: V) -> Seq<(Seq<char>, V)> {
    match key_index(s, k) {
        Some(j) => s.update(j, (k, v)),
        None => s.push((k, v)),
    }
}

pub open spec fn empty_configuration() -> ConfigurationView {
    ConfigurationView { modules: seq![], connections: seq![] }
}

/// The configuration of a device in `plan`, empty where the device has none yet.
pub open spec fn configuration_of(plan: Seq<(Seq<char>, ConfigurationView)>, d: Seq<char>) -> ConfigurationView {
    match key_index(plan, d) {
        Some(j) => plan[j].1,
        None => empty_configuration(),
    }
}

/// Adds step `p` to `plan`: its device fetches its module, and where the next step `q` runs on
/// another device, `p`'s device gets the signature of `q`'s function.
pub open spec fn add_placement(
    plan: Seq<(Seq<char>, ConfigurationView)>,
    p: PlacementView,
    next: Option<PlacementView>,
) -> Seq<(Seq<char>, ConfigurationView)> {
    let c = configuration_of(plan, p.device);
    let connections = match next {
        Some(q) => if q.device != p.device {
            set_entry(c.connections, q.function, q.signature)
        } else {
            c.connections
        },
        None => c.connections,
    };
    set_entry(plan, p.device, ConfigurationView { modules: set_entry(c.modules, p.module, p.url), connections })
}

/// The plan made of the first `n` placements.
pub open spec fn plan_of(ps: Seq<PlacementView>, n: nat) -> Seq<(Seq<char>, ConfigurationView)>
    decreases n,
{
    if n == 0 {
        seq![]
    } else {
        add_placement(
            plan_of(ps, (n - 1) as nat),
            ps[n - 1],
            if n < ps.len() { Some(ps[n as int]) } else { None },
        )
    }
}

/// What `solve` returns for a manifest and snapshots of the devices and modules.
pub open spec fn solution(
    manifest: Seq<NodeView>,
    ds: Seq<DeviceView>,
    ms: Seq<ModuleView>,
) -> Result<Seq<(Seq<char>, ConfigurationView)>, SolveError> {
    match placements(manifest, ds, ms, manifest.len()) {
        Ok(ps) => Ok(plan_of(ps, ps.len())),
        Err(e) => Err(e),
    }
}

/// `key_index` gives the first entry with the key.
pub proof fn lemma_key_index<V>(s: Seq<(Seq<char>, V)>, k: Seq<char>)
    ensures
        match key_index(s, k) {
            Some(j) => 0 <= j < s.len() && s[j].0 == k && forall|i: int| 0 <= i < j ==> s[i].0 != k,
            None => forall|j: int| 0 <= j < s.len() ==> s[j].0 != k,
        },
    decreases s.len(),
{
    if s.len() > 0 {
        lemma_key_index(s.drop_last(), k);
        assert forall|j: int| 0 <= j < s.len() - 1 implies s.drop_last()[j] == s[j] by {}
    }
}

/// Replaces the value of the first entry with key `k`, or appends the entry.
pub fn set_entry_in<V: View>(s: &mut Vec<(String, V)>, k: String, v: V)
    ensures
        entries_view(final(s)@) == set_entry(entries_view(old(s)@), k@, v@),
{
    match find_key(s, &k) {
        Some(j) => {
            let ghost kv = k@;
            let ghost vv = v@;
            s.set(j, (k, v));
            assert(entries_view(s@) =~= entries_view(old(s)@).update(j as int, (kv, vv)));
        },
        None => {
            let ghost kv = k@;
            let ghost vv = v@;
            s.push((k, v));
            assert(entries_view(s@) =~= entries_view(old(s)@).push((kv, vv)));
        },
    }
}

/// Places step `n`: resolves its module, then its function, then its device.
pub fn place_node(n: &ManifestNode, ds: &Vec<Device>, ms: &Vec<Module>) -> (r: Result<Placement, SolveError>)
    ensures
        match r {
            Ok(p) => place(n@, devices_view(ds@), modules_view(ms@)) == Ok::<PlacementView, SolveError>(p@),
            Err(e) => place(n@, devices_view(ds@), modules_view(ms@)) == Err::<PlacementView, SolveError>(e),
        },
{
    let mi = match find_module(ms, &n.module) {
        Some(mi) => mi,
        None => return Err(SolveError::ModuleNotFound),
    };
    let m = &ms[mi];
    assert(modules_view(ms@)[mi as int] == m@);
    let sig = match find_function(m, &n.function) {
        Some(sig) => sig,
        None => return Err(SolveError::FunctionNotFound),
    };
    let di = match &n.device {
        Some(name) => match find_device(ds, name) {
            Some(di) => {
                assert(devices_view(ds@)[di as int] == ds@[di as int]@);
                if ds[di].health.up {
                    di
                } else {
                    return Err(SolveError::DeviceUnavailable);
                }
            },
            None => return Err(SolveError::DeviceUnavailable),
        },
        None => match pick_device(ds, m) {
            Some(di) => di,
            None => return Err(SolveError::NoSuitableDevice),
        },
    };
    assert(devices_view(ds@)[di as int] == ds@[di as int]@);
    Ok(Placement {
        device: ds[di].name.clone(),
        module: m.name.clone(),
        url: m.url.clone(),
        function: n.function.clone(),
        signature: sig.copied(),
    })
}

/// Places every step in order; fails with the error of the first step that cannot be placed.
pub fn place_all(manifest: &Vec<ManifestNode>, ds: &Vec<Device>, ms: &Vec<Module>) -> (r: Result<Vec<Placement>, SolveError>)
    ensures
        match r {
            Ok(ps) => placements(manifest_view(manifest@), devices_view(ds@), modules_view(ms@), manifest@.len())
                == Ok::<Seq<PlacementView>, SolveError>(placements_view(ps@)),
            Err(e) => placements(manifest_view(manifest@), devices_view(ds@), modules_view(ms@), manifest@.len())
                == Err::<Seq<PlacementView>, SolveError>(e),
        },
{
    let ghost mv = manifest_view(manifest@);
    let ghost dv = devices_view(ds@);
    let ghost msv = modules_view(ms@);
    let mut out: Vec<Placement> = Vec::new();
    let mut i: usize = 0;
    assert(placements_view(out@) =~= seq![]);
    while i < manifest.len()
        invariant
            i <= manifest.len(),
            mv == manifest_view(manifest@),
            dv == devices_view(ds@),
            msv == modules_view(ms@),
            placements(mv, dv, msv, i as nat) == Ok::<Seq<PlacementView>, SolveError>(placements_view(out@)),
        decreases manifest.len() - i,
    {
        assert(mv[i as int] == manifest@[i as int]@);
        match place_node(&manifest[i], ds, ms) {
            Ok(p) => {
                let ghost pv = p@;
                let ghost before = out@;
                out.push(p);
                assert(placements_view(out@) =~= placements_view(before).push(pv));
            },
            Err(e) => {
                proof {
                    lemma_placements_fail(mv, dv, msv, (i + 1) as nat, manifest@.len());
                }
                return Err(e);
            },
        }
        i = i + 1;
    }
    Ok(out)
}

/// Once a step fails, every longer prefix fails with the same error.
pub proof fn lemma_placements_fail(
    manifest: Seq<NodeView>,
    ds: Seq<DeviceView>,
    ms: Seq<ModuleView>,
    n: nat,
    m: nat,
)
    requires
        n <= m,
        placements(manifest, ds, ms, n) is Err,
    ensures
        placements(manifest, ds, ms, m) == placements(manifest, ds, ms, n),
    decreases m - n,
{
    if n < m {
        lemma_placements_fail(manifest, ds, ms, n, (m - 1) as nat);
    }
}

pub open spec fn option_view(q: Option<&Placement>) -> Option<PlacementView> {
    match q {
        Some(q) => Some(q@),
        None => None,
    }
}

/// Adds step `p`, followed by step `next`, to `plan`.
pub fn add_placement_in(plan: &mut DeploymentConfiguration, p: &Placement, next: Option<&Placement>)
    ensures
        entries_view(final(plan)@) == add_placement(entries_view(old(plan)@), p@, option_view(next)),
{
    let ghost before = entries_view(plan@);
    proof {
        lemma_key_index(before, p.device@);
    }
    let found = find_key(plan, &p.device);
    let mut c = match found {
        Some(j) => {
            let (_, c) = plan.remove(j);
            assert(c@ == before[j as int].1);
            c
        },
        None => DeviceConfiguration { modules: Vec::new(), connections: Vec::new() },
    };
    assert(c@.modules =~= configuration_of(before, p.device@).modules);
    assert(c@.connections =~= configuration_of(before, p.device@).connections);
    set_entry_in(&mut c.modules, p.module.clone(), p.url.clone());
    match next {
        Some(q) => {
            if !(q.device == p.device) {
                set_entry_in(&mut c.connections, q.function.clone(), q.signature.copied());
            }
        },
        None => {},
    }
    let ghost cv = c@;
    match found {
        Some(j) => {
            plan.insert(j, (p.device.clone(), c));
            assert(entries_view(plan@) =~= before.update(j as int, (p.device@, cv)));
        },
        None => {
            plan.push((p.device.clone(), c));
            assert(entries_view(plan@) =~= before.push((p.device@, cv)));
        },
    }
}

/// Solves a manifest against snapshots of the devices and modules. Each step is placed in order:
/// its module must exist, the module must declare its function, and its device is the pinned one,
/// which must exist and be up, or else the suitable device that `pick` prefers. The result gives
/// each device that runs a step the modules it fetches and the signatures of the functions it
/// calls on other devices.
pub fn solve(manifest: &Vec<ManifestNode>, ds: &Vec<Device>, ms: &Vec<Module>) -> (r: Result<DeploymentConfiguration, SolveError>)
    ensures
        match r {
            Ok(plan) => solution(manifest_view(manifest@), devices_view(ds@), modules_view(ms@))
                == Ok::<Seq<(Seq<char>, ConfigurationView)>, SolveError>(entries_view(plan@)),
            Err(e) => solution(manifest_view(manifest@), devices_view(ds@), modules_view(ms@))
                == Err::<Seq<(Seq<char>, ConfigurationView)>, SolveError>(e),
        },
        r matches Ok(plan) ==> well_keyed(entries_view(plan@)),
{
    let ps = match place_all(manifest, ds, ms) {
        Ok(ps) => ps,
        Err(e) => return Err(e),
    };
    let ghost pv = placements_view(ps@);
    let mut plan: DeploymentConfiguration = Vec::new();
    let mut i: usize = 0;
    assert(entries_view(plan@) =~= seq![]);
    while i < ps.len()
        invariant
            i <= ps.len(),
            pv == placements_view(ps@),
            entries_view(plan@) == plan_of(pv, i as nat),
        decreases ps.len() - i,
    {
        let next = if i + 1 < ps.len() {
            Some(&ps[i + 1])
        } else {
            None
        };
        assert(option_view(next) == (if i + 1 < pv.len() { Some(pv[i + 1]) } else { None::<PlacementView> }));
        add_placement_in(&mut plan, &ps[i], next);
        i = i + 1;
    }
    proof {
        lemma_plan_well_keyed(pv, pv.len());
    }
    Ok(plan)
}

pub open spec fn has_key<V>(s: Seq<(Seq<char>, V)>, k: Seq<char>) -> bool {
    key_index(s, k) is Some
}

/// After `set_entry`, the key holds the new value and every other key keeps its entry.
pub proof fn lemma_set_entry<V>(s: Seq<(Seq<char>, V)>, k: Seq<char>, v: V, k2: Seq<char>)
    ensures
        key_index(set_entry(s, k, v), k) matches Some(j) && set_entry(s, k, v)[j].1 == v,
        k2 != k ==> key_index(set_entry(s, k, v), k2) == key_index(s, k2),
        k2 != k ==> match key_index(s, k2) {
            Some(j) => set_entry(s, k, v)[j] == s[j],
            None => true,
        },
{
    let t = set_entry(s, k, v);
    lemma_key_index(s, k);
    lemma_key_index(s, k2);
    lemma_key_index(t, k);
    lemma_key_index(t, k2);
    assert(forall|i: int| 0 <= i < t.len() && t[i].0 != k ==> i < s.len() && t[i] == s[i]);
}

/// A device of `plan` fetches module `m`.
pub open spec fn fetches(plan: Seq<(Seq<char>, ConfigurationView)>, d: Seq<char>, m: Seq<char>) -> bool {
    has_key(plan, d) && has_key(configuration_of(plan, d).modules, m)
}

/// Adding a step keeps what the plan fetched and makes the step's device fetch its module.
pub proof fn lemma_add_placement_fetches(
    plan: Seq<(Seq<char>, ConfigurationView)>,
    p: PlacementView,
    next: Option<PlacementView>,
    d: Seq<char>,
    m: Seq<char>,
)
    ensures
        fetches(add_placement(plan, p, next), p.device, p.module),
        fetches(plan, d, m) ==> fetches(add_placement(plan, p, next), d, m),
{
    let c = configuration_of(plan, p.device);
    let t = add_placement(plan, p, next);
    let cv = t[key_index(t, p.device)->Some_0].1;
    lemma_set_entry(c.modules, p.module, p.url, m);
    lemma_set_entry(c.modules, p.module, p.url, p.module);
    let connections = match next {
        Some(q) => if q.device != p.device {
            set_entry(c.connections, q.function, q.signature)
        } else {
            c.connections
        },
        None => c.connections,
    };
    lemma_set_entry(plan, p.device, ConfigurationView { modules: set_entry(c.modules, p.module, p.url), connections }, d);
    if d == p.device && fetches(plan, d, m) {
        if m != p.module {
            assert(key_index(c.modules, m) is Some);
        }
    }
}

/// Every step of the first `n` placements is fetched by its device in `plan_of(ps, n)`.
pub proof fn lemma_plan_covers(ps: Seq<PlacementView>, n: nat)
    requires
        n <= ps.len(),
    ensures
        forall|k: int| 0 <= k < n ==> fetches(plan_of(ps, n), #[trigger] ps[k].device, ps[k].module),
    decreases n,
{
    if n > 0 {
        lemma_plan_covers(ps, (n - 1) as nat);
        let prev = plan_of(ps, (n - 1) as nat);
        let next = if n < ps.len() { Some(ps[n as int]) } else { None };
        assert forall|k: int| 0 <= k < n implies fetches(plan_of(ps, n), #[trigger] ps[k].device, ps[k].module) by {
            lemma_add_placement_fetches(prev, ps[n - 1], next, ps[k].device, ps[k].module);
        }
    }
}

/// `module_index` gives the first module with the name.
pub proof fn lemma_module_index(ms: Seq<ModuleView>, name: Seq<char>)
    ensures
        match module_index(ms, name) {
            Some(j) => 0 <= j < ms.len() && ms[j].name == name,
            None => forall|j: int| 0 <= j < ms.len() ==> ms[j].name != name,
        },
    decreases ms.len(),
{
    if ms.len() > 0 {
        lemma_module_index(ms.drop_last(), name);
        assert forall|j: int| 0 <= j < ms.len() - 1 implies ms.drop_last()[j] == ms[j] by {}
    }
}

/// `device_index` gives the first device with the name.
pub proof fn lemma_device_index(ds: Seq<DeviceView>, name: Seq<char>)
    ensures
        match device_index(ds, name) {
            Some(j) => 0 <= j < ds.len() && ds[j].name == name,
            None => forall|j: int| 0 <= j < ds.len() ==> ds[j].name != name,
        },
    decreases ds.len(),
{
    if ds.len() > 0 {
        lemma_device_index(ds.drop_last(), name);
        assert forall|j: int| 0 <= j < ds.len() - 1 implies ds.drop_last()[j] == ds[j] by {}
    }
}

/// `pick` chooses a suitable device, and finds one whenever one exists.
pub proof fn lemma_pick(ds: Seq<DeviceView>, m: ModuleView)
    ensures
        match pick(ds, m) {
            Some(j) => 0 <= j < ds.len() && suitable(ds[j], m),
            None => forall|j: int| 0 <= j < ds.len() ==> !suitable(#[trigger] ds[j], m),
        },
    decreases ds.len(),
{
    if ds.len() > 0 {
        lemma_pick(ds.drop_last(), m);
        assert forall|j: int| 0 <= j < ds.len() - 1 implies ds.drop_last()[j] == ds[j] by {}
    }
}

/// Step `n` names a module, every module of that name declares the step's function, and the
/// step has a device: every device it is pinned to is up, or, unpinned, some device is up and
/// offers what the module requires.
pub open spec fn satisfiable(n: NodeView, ds: Seq<DeviceView>, ms: Seq<ModuleView>) -> bool {
    &&& exists|i: int| 0 <= i < ms.len() && #[trigger] ms[i].name == n.module
    &&& forall|i: int| 0 <= i < ms.len() && #[trigger] ms[i].name == n.module
        ==> layers_function(ms[i].layers, n.function) is Some
    &&& match n.device {
        Some(name) => {
            &&& exists|j: int| 0 <= j < ds.len() && #[trigger] ds[j].name == name
            &&& forall|j: int| 0 <= j < ds.len() && #[trigger] ds[j].name == name ==> ds[j].up
        },
        None => forall|i: int| 0 <= i < ms.len() && #[trigger] ms[i].name == n.module
            ==> exists|j: int| 0 <= j < ds.len() && suitable(#[trigger] ds[j], ms[i]),
    }
}

proof fn lemma_place_ok(n: NodeView, ds: Seq<DeviceView>, ms: Seq<ModuleView>)
    requires
        satisfiable(n, ds, ms),
    ensures
        place(n, ds, ms) matches Ok(p) && p.module == n.module
            && (n.device matches Some(name) ==> p.device == name),
{
    lemma_module_index(ms, n.module);
    let mi = module_index(ms, n.module)->Some_0;
    match n.device {
        Some(name) => {
            lemma_device_index(ds, name);
        },
        None => {
            lemma_pick(ds, ms[mi]);
        },
    }
}

/// The placements of the first `n` steps succeed where every step is satisfiable.
proof fn lemma_placements_ok(manifest: Seq<NodeView>, ds: Seq<DeviceView>, ms: Seq<ModuleView>, n: nat)
    requires
        n <= manifest.len(),
        forall|i: int| 0 <= i < manifest.len() ==> satisfiable(#[trigger] manifest[i], ds, ms),
    ensures
        placements(manifest, ds, ms, n) matches Ok(ps) && ps.len() == n
            && forall|k: int| 0 <= k < n ==> #[trigger] place(manifest[k], ds, ms) == Ok::<PlacementView, SolveError>(ps[k]),
    decreases n,
{
    if n > 0 {
        lemma_placements_ok(manifest, ds, ms, (n - 1) as nat);
        lemma_place_ok(manifest[n - 1], ds, ms);
    }
}

/// Where every step names an existing module that declares its function, and has an available
/// device (the one it is pinned to, up; or, unpinned, an up device that offers what the module
/// requires), `solve` succeeds, and its configuration covers every step: the device that the
/// step runs on (the pinned one where it is pinned) fetches the step's module.
pub proof fn lemma_solve_covers_every_step(manifest: Seq<NodeView>, ds: Seq<DeviceView>, ms: Seq<ModuleView>)
    requires
        forall|i: int| 0 <= i < manifest.len() ==> satisfiable(#[trigger] manifest[i], ds, ms),
    ensures
        solution(manifest, ds, ms) matches Ok(plan) && placements(manifest, ds, ms, manifest.len()) matches Ok(ps)
            && ps.len() == manifest.len()
            && forall|k: int| 0 <= k < manifest.len() ==> {
                &&& fetches(plan, #[trigger] ps[k].device, manifest[k].module)
                &&& (manifest[k].device matches Some(name) ==> ps[k].device == name)
            },
{
    lemma_placements_ok(manifest, ds, ms, manifest.len());
    let ps = placements(manifest, ds, ms, manifest.len())->Ok_0;
    lemma_plan_covers(ps, ps.len());
    assert forall|k: int| 0 <= k < manifest.len() implies {
        &&& fetches(plan_of(ps, ps.len()), #[trigger] ps[k].device, manifest[k].module)
        &&& (manifest[k].device matches Some(name) ==> ps[k].device == name)
    } by {
        assert(place(manifest[k], ds, ms) == Ok::<PlacementView, SolveError>(ps[k]));
        lemma_place_ok(manifest[k], ds, ms);
        assert(satisfiable(manifest[k], ds, ms));
    }
}

/// `solve` is deterministic: equal snapshots of the manifest, the devices and the modules give
/// equal results.
pub proof fn lemma_solve_deterministic(
    m1: Seq<NodeView>,
    d1: Seq<DeviceView>,
    s1: Seq<ModuleView>,
    m2: Seq<NodeView>,
    d2: Seq<DeviceView>,
    s2: Seq<ModuleView>,
)
    requires
        m1 == m2,
        d1 == d2,
        s1 == s2,
    ensures
        solution(m1, d1, s1) == solution(m2, d2, s2),
{
}

/// No two entries share a key.
pub open spec fn unique_keys<V>(s: Seq<(Seq<char>, V)>) -> bool {
    forall|i: int, j: int| 0 <= i < j < s.len() ==> s[i].0 != s[j].0
}

/// A plan names each device once, and each device's configuration names each module and each
/// connection once.
pub open spec fn well_keyed(plan: Seq<(Seq<char>, ConfigurationView)>) -> bool {
    &&& unique_keys(plan)
    &&& forall|i: int| 0 <= i < plan.len() ==> unique_keys(#[trigger] plan[i].1.modules)
        && unique_keys(plan[i].1.connections)
}

/// `set_entry` keeps keys unique.
pub proof fn lemma_set_entry_unique<V>(s: Seq<(Seq<char>, V)>, k: Seq<char>, v: V)
    requires
        unique_keys(s),
    ensures
        unique_keys(set_entry(s, k, v)),
        forall|i: int| 0 <= i < s.len() && s[i].0 != k ==> #[trigger] set_entry(s, k, v)[i] == s[i],
        set_entry(s, k, v).len() >= s.len(),
        forall|i: int| 0 <= i < set_entry(s, k, v).len() && set_entry(s, k, v)[i].0 != k ==> i < s.len(),
{
    lemma_key_index(s, k);
}

/// Every plan that `plan_of` builds is well keyed.
pub proof fn lemma_plan_well_keyed(ps: Seq<PlacementView>, n: nat)
    requires
        n <= ps.len(),
    ensures
        well_keyed(plan_of(ps, n)),
    decreases n,
{
    if n > 0 {
        lemma_plan_well_keyed(ps, (n - 1) as nat);
        let plan = plan_of(ps, (n - 1) as nat);
        let p = ps[n - 1];
        let next = if n < ps.len() { Some(ps[n as int]) } else { None };
        let c = configuration_of(plan, p.device);
        lemma_key_index(plan, p.device);
        assert(unique_keys(c.modules) && unique_keys(c.connections));
        lemma_set_entry_unique(c.modules, p.module, p.url);
        match next {
            Some(q) => {
                lemma_set_entry_unique(c.connections, q.function, q.signature);
            },
            None => {},
        }
        let connections = match next {
            Some(q) => if q.device != p.device {
                set_entry(c.connections, q.function, q.signature)
            } else {
                c.connections
            },
            None => c.connections,
        };
        let cfg = ConfigurationView { modules: set_entry(c.modules, p.module, p.url), connections };
        assert(unique_keys(cfg.modules) && unique_keys(cfg.connections));
        lemma_set_entry_unique(plan, p.device, cfg);
        let t = set_entry(plan, p.device, cfg);
        lemma_key_index(t, p.device);
        assert(t == plan_of(ps, n));
        assert forall|i: int| 0 <= i < t.len() implies unique_keys(#[trigger] t[i].1.modules)
            && unique_keys(t[i].1.connections) by {
            if t[i].0 != p.device {
                assert(t[i] == plan[i]);
            } else {
                assert(t[i].1 == cfg);
            }
        }
    }
}

/// A successful placement of the first `n` steps has one placement per step.
pub proof fn lemma_placements_len(manifest: Seq<NodeView>, ds: Seq<DeviceView>, ms: Seq<ModuleView>, n: nat)
    ensures
        placements(manifest, ds, ms, n) matches Ok(ps) ==> ps.len() == n,
    decreases n,
{
    if n > 0 {
        lemma_placements_len(manifest, ds, ms, (n - 1) as nat);
    }
}

/// A plan made of at least one placement configures at least one device.
pub proof fn lemma_plan_nonempty(ps: Seq<PlacementView>, n: nat)
    requires
        0 < n <= ps.len(),
    ensures
        plan_of(ps, n).len() > 0,
{
    let prev = plan_of(ps, (n - 1) as nat);
    let p = ps[n - 1];
    let c = configuration_of(prev, p.device);
    let next = if n < ps.len() { Some(ps[n as int]) } else { None };
    let connections = match next {
        Some(q) => if q.device != p.device {
            set_entry(c.connections, q.function, q.signature)
        } else {
            c.connections
        },
        None => c.connections,
    };
    let cfg = ConfigurationView { modules: set_entry(c.modules, p.module, p.url), connections };
    lemma_set_entry(prev, p.device, cfg, p.device);
    lemma_key_index(set_entry(prev, p.device, cfg), p.device);
}

/// A manifest with steps that solves has a configuration with at least one device: an empty
/// configuration beside a manifest with steps means that the solve failed.
pub proof fn lemma_solved_plan_nonempty(manifest: Seq<NodeView>, ds: Seq<DeviceView>, ms: Seq<ModuleView>)
    ensures
        solution(manifest, ds, ms) matches Ok(plan) ==> (manifest.len() > 0 ==> plan.len() > 0),
{
    lemma_placements_len(manifest, ds, ms, manifest.len());
    match placements(manifest, ds, ms, manifest.len()) {
        Ok(ps) => {
            if manifest.len() > 0 {
                lemma_plan_nonempty(ps, ps.len());
            }
        },
        Err(_) => {},
    }
}

} // verus!
