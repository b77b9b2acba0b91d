//! The install state: which plugins are registered and resolved, and which
//! tools are installed in which versions.
use vstd::prelude::*;
use crate::paths::{path_ends_with, path_ends_with_spec, path_join, path_join_spec, path_starts_with, path_starts_with_spec};
use crate::plugins::names::{normalize_plugin_name, normalized_name};
use crate::plugins::PluginType;
use crate::sorted_map::{lemma_sorted_prefix_step, SortedMap, strictly_sorted};
use crate::text::{
    concat, lemma_lex_order_props, lex_order, nonempty_lines, nonempty_lines_of_init, seq_starts_with,
    split_on, split_once, split_once_spec, starts_with, str_eq, str_order, strip_cr, trim, trim_spec,
};
use crate::version_forms::{
    is_prerelease, lemma_plain_version_order_swap, lemma_prerelease_below_release, plain_version_order,
    version_core,
};
use crate::toolset::backend_type::{backend_for_prefix, lemma_guess_named_prefix, BackendType};
use crate::text::{first_segment, is_white_space, leading_ws, lemma_split_on_append, trailing_ws};
use crate::wrappers::{
    compare_versioning, json_id_and_short, kebab_case, parse_json_id_and_short, to_kebab_case,
    versioning_order,
};

verus! {

/// The directories the install state is kept in.
#[derive(Debug)]
pub struct Dirs {
    /// Where plugins are installed.
    pub plugins: String,
    /// Where tool versions are installed.
    pub installs: String,
    /// Where downloads and markers of unfinished installs are kept.
    pub cache: String,
}

/// Complete information about an installed or registered plugin.
#[derive(Debug)]
pub struct PluginInfo {
    /// Normalized plugin name (no type prefixes)
    pub name: String,
    /// Plugin type (Asdf, Vfox, or VfoxBackend)
    pub plugin_type: PluginType,
    /// Path to the plugin directory
    pub path: String,
}

impl Clone for PluginInfo {
    fn clone(&self) -> (r: Self)
        ensures
            r == *self,
    {
        PluginInfo { name: self.name.clone(), plugin_type: self.plugin_type, path: self.path.clone() }
    }
}

impl PluginInfo {
    /// A plugin is local when its path lies outside the plugins directory.
    pub fn is_local(&self, plugins_dir: &str) -> (r: bool)
        ensures
            r == !path_starts_with_spec(self.path@, plugins_dir@),
    {
        !path_starts_with(self.path.as_str(), plugins_dir)
    }
}

/// The view of a tool: its short name, its full name and its versions.
pub type ToolView = (Seq<char>, Option<Seq<char>>, Seq<Seq<char>>);

pub open spec fn opt_view(o: Option<String>) -> Option<Seq<char>> {
    match o {
        Some(s) => Some(s@),
        None => None,
    }
}

/// An installed tool: its short name, its full name when known, and its
/// installed versions in ascending order.
#[derive(Debug)]
pub struct InstallStateTool {
    pub short: String,
    pub full: Option<String>,
    pub versions: Vec<String>,
}

impl View for InstallStateTool {
    type V = ToolView;

    open spec fn view(&self) -> ToolView {
        (self.short@, opt_view(self.full), self.versions.deep_view())
    }
}

/// A copy of a list of strings.
pub fn clone_strings(v: &Vec<String>) -> (r: Vec<String>)
    ensures
        r@ == v@,
{
    let mut r: Vec<String> = Vec::new();
    let mut i: usize = 0;
    while i < v.len()
        invariant
            i <= v.len(),
            r@ == v@.take(i as int),
        decreases v.len() - i,
    {
        r.push(v[i].clone());
        assert(v@.take(i + 1) =~= v@.take(i as int).push(v@[i as int]));
        i += 1;
    }
    assert(v@.take(v.len() as int) =~= v@);
    r
}

impl Clone for InstallStateTool {
    fn clone(&self) -> (r: Self)
        ensures
            r@ == self@,
            r.short == self.short,
            r.full == self.full,
            r.versions@ == self.versions@,
    {
        let full = match &self.full {
            Some(f) => Some(f.clone()),
            None => None,
        };
        let versions = clone_strings(&self.versions);
        InstallStateTool { short: self.short.clone(), full, versions }
    }
}

/// The install state: the plugin registry, where each registered plugin is
/// resolved or not yet, and the installed tools. Each part is unset until it
/// is initialized.
#[derive(Debug)]
pub struct InstallState {
    dirs: Dirs,
    plugins: Option<SortedMap<Option<PluginInfo>>>,
    tools: Option<SortedMap<InstallStateTool>>,
}

impl InstallState {
    pub closed spec fn wf(&self) -> bool {
        &&& self.plugins matches Some(p) ==> p.wf()
        &&& self.tools matches Some(t) ==> t.wf()
    }

    /// The plugin registry is initialized.
    pub closed spec fn plugins_ready(&self) -> bool {
        self.plugins is Some
    }

    /// The tool list is initialized.
    pub closed spec fn tools_ready(&self) -> bool {
        self.tools is Some
    }

    /// Registered plugins and their resolution: `None` while unresolved.
    pub closed spec fn plugin_cells(&self) -> Map<Seq<char>, Option<PluginInfo>> {
        match self.plugins {
            Some(p) => p@,
            None => Map::empty(),
        }
    }

    /// The registered plugin names in ascending order.
    pub closed spec fn plugin_names(&self) -> Seq<Seq<char>> {
        match self.plugins {
            Some(p) => p.keys(),
            None => Seq::empty(),
        }
    }

    /// The installed tools by short name.
    pub closed spec fn tool_map(&self) -> Map<Seq<char>, InstallStateTool> {
        match self.tools {
            Some(t) => t@,
            None => Map::empty(),
        }
    }

    pub closed spec fn plugins_dir(&self) -> Seq<char> {
        self.dirs.plugins@
    }

    pub closed spec fn installs_dir(&self) -> Seq<char> {
        self.dirs.installs@
    }

    pub closed spec fn cache_dir(&self) -> Seq<char> {
        self.dirs.cache@
    }

    /// The installed tools by short name, as views.
    pub open spec fn tool_views(&self) -> Map<Seq<char>, ToolView> {
        self.tool_map().map_values(|t: InstallStateTool| t@)
    }

    /// The resolved information of plugin `name`, if it is registered and
    /// resolved.
    pub open spec fn resolved_info(&self, name: Seq<char>) -> Option<PluginInfo> {
        if self.plugins_ready() && self.plugin_cells().dom().contains(name) {
            self.plugin_cells()[name]
        } else {
            None
        }
    }

    /// The name and path that `get_plugin_path_and_name` gives for `short`.
    pub open spec fn plugin_path_and_name_spec(&self, short: Seq<char>) -> (Seq<char>, Seq<char>) {
        match self.resolved_info(normalized_name(short)) {
            Some(info) => (info.name@, info.path@),
            None => (normalized_name(short), path_join_spec(self.plugins_dir(), kebab_case(short))),
        }
    }

    /// A state with nothing initialized, kept in `dirs`.
    pub fn new(dirs: Dirs) -> (r: InstallState)
        ensures
            r.wf(),
            !r.plugins_ready(),
            !r.tools_ready(),
            r.plugins_dir() == dirs.plugins@,
            r.installs_dir() == dirs.installs@,
            r.cache_dir() == dirs.cache@,
    {
        InstallState { dirs, plugins: None, tools: None }
    }

    /// Whether the plugin registry is initialized.
    pub fn plugins_initialized(&self) -> (r: bool)
        ensures
            r == self.plugins_ready(),
    {
        self.plugins.is_some()
    }

    /// Whether the tool list is initialized.
    pub fn tools_initialized(&self) -> (r: bool)
        ensures
            r == self.tools_ready(),
    {
        self.tools.is_some()
    }

    /// The directories the state is kept in.
    pub fn dirs(&self) -> (r: &Dirs)
        ensures
            r.plugins@ == self.plugins_dir(),
            r.installs@ == self.installs_dir(),
            r.cache@ == self.cache_dir(),
    {
        &self.dirs
    }
}

/// The registry's key order and domain agree, for callers outside this module.
pub proof fn lemma_plugin_names(state: &InstallState)
    requires
        state.wf(),
        state.plugins_ready(),
    ensures
        strictly_sorted(state.plugin_names()),
        forall|k: Seq<char>| #[trigger] state.plugin_cells().dom().contains(k) <==> state.plugin_names().contains(k),
{
    state.plugins.unwrap().lemma_keys();
}

/// The view of a plugin's information: name, type and path.
pub type PluginInfoView = (Seq<char>, PluginType, Seq<char>);

impl View for PluginInfo {
    type V = PluginInfoView;

    open spec fn view(&self) -> PluginInfoView {
        (self.name@, self.plugin_type, self.path@)
    }
}

pub open spec fn cell_view(c: Option<PluginInfo>) -> Option<PluginInfoView> {
    match c {
        Some(info) => Some(info@),
        None => None,
    }
}

/// What the file system and git say of one directory under the plugins
/// directory: its name, its git remote when it was looked up, and what it
/// holds.
#[derive(Debug)]
pub struct PluginDirScan {
    pub name: String,
    pub remote_url: Option<String>,
    pub probe: PluginDirProbe,
}

/// The path of a scanned plugin directory.
pub open spec fn scan_path(plugins_dir: Seq<char>, scan: PluginDirScan) -> Seq<char> {
    path_join_spec(plugins_dir, scan.name@)
}

/// The scanned plugin is the banned one.
pub open spec fn scan_is_banned(plugins_dir: Seq<char>, scan: PluginDirScan) -> bool {
    banned_plugin(scan_path(plugins_dir, scan), opt_view(scan.remote_url))
}

/// The information a scanned plugin resolves to: its name, its detected
/// type and its path, when its type is detected.
pub open spec fn scan_info(plugins_dir: Seq<char>, scan: PluginDirScan) -> Option<PluginInfoView> {
    match detected_type(scan.probe) {
        Ok(t) => Some((scan.name@, t, scan_path(plugins_dir, scan))),
        Err(_) => None,
    }
}

/// The registry built from scanned plugin directories: every directory that
/// is not banned is registered under its name, resolved when its type is
/// detected; of two directories of one name, the first one resolved wins.
pub open spec fn registered_plugins(plugins_dir: Seq<char>, scans: Seq<PluginDirScan>) -> Map<
    Seq<char>,
    Option<PluginInfoView>,
>
    decreases scans.len(),
{
    if scans.len() == 0 {
        Map::empty()
    } else {
        let prev = registered_plugins(plugins_dir, scans.drop_last());
        let scan = scans.last();
        let k = scan.name@;
        if scan_is_banned(plugins_dir, scan) {
            prev
        } else if prev.dom().contains(k) && (prev[k] is Some || scan_info(plugins_dir, scan) is None) {
            prev
        } else {
            prev.insert(k, scan_info(plugins_dir, scan))
        }
    }
}

/// The names of the banned directories among the scanned ones, in order.
pub open spec fn banned_names(plugins_dir: Seq<char>, scans: Seq<PluginDirScan>) -> Seq<Seq<char>>
    decreases scans.len(),
{
    if scans.len() == 0 {
        Seq::empty()
    } else {
        let prev = banned_names(plugins_dir, scans.drop_last());
        if scan_is_banned(plugins_dir, scans.last()) {
            prev.push(scans.last().name@)
        } else {
            prev
        }
    }
}

/// The registry holds exactly the directories that are not banned; when
/// the scanned names are distinct, each is resolved exactly when its type is
/// detected, to its name, type and path in the plugins directory.
pub proof fn lemma_registered_plugins(plugins_dir: Seq<char>, scans: Seq<PluginDirScan>)
    ensures
        forall|k: Seq<char>| #[trigger] registered_plugins(plugins_dir, scans).dom().contains(k) <==> exists|i: int|
            0 <= i < scans.len() && scans[i].name@ == k && !scan_is_banned(plugins_dir, scans[i]),
        (forall|i: int, j: int| 0 <= i < j < scans.len() ==> scans[i].name@ != scans[j].name@) ==> forall|i: int|
            0 <= i < scans.len() && !scan_is_banned(plugins_dir, #[trigger] scans[i]) ==> registered_plugins(
                plugins_dir,
                scans,
            )[scans[i].name@] == scan_info(plugins_dir, scans[i]),
    decreases scans.len(),
{
    if scans.len() > 0 {
        let init = scans.drop_last();
        let prev = registered_plugins(plugins_dir, init);
        let m = registered_plugins(plugins_dir, scans);
        let last = scans.last();
        lemma_registered_plugins(plugins_dir, init);
        assert forall|k: Seq<char>| m.dom().contains(k) <==> exists|i: int|
            0 <= i < scans.len() && scans[i].name@ == k && !scan_is_banned(plugins_dir, scans[i]) by {
            if prev.dom().contains(k) {
                let i = choose|i: int|
                    0 <= i < init.len() && init[i].name@ == k && !scan_is_banned(plugins_dir, init[i]);
                assert(scans[i] == init[i]);
            }
            if exists|i: int|
                0 <= i < scans.len() && scans[i].name@ == k && !scan_is_banned(plugins_dir, scans[i]) {
                let i = choose|i: int|
                    0 <= i < scans.len() && scans[i].name@ == k && !scan_is_banned(plugins_dir, scans[i]);
                if i < init.len() {
                    assert(init[i] == scans[i]);
                }
            }
        }
        if forall|i: int, j: int| 0 <= i < j < scans.len() ==> scans[i].name@ != scans[j].name@ {
            assert forall|i: int, j: int| 0 <= i < j < init.len() implies init[i].name@ != init[j].name@ by {
                assert(init[i] == scans[i] && init[j] == scans[j]);
            }
            assert forall|i: int|
                0 <= i < scans.len() && !scan_is_banned(plugins_dir, #[trigger] scans[i]) implies m[scans[i].name@]
                == scan_info(plugins_dir, scans[i]) by {
                if i < init.len() {
                    assert(init[i] == scans[i]);
                    assert(scans[i].name@ != last.name@);
                } else {
                    if prev.dom().contains(last.name@) {
                        let j = choose|j: int|
                            0 <= j < init.len() && init[j].name@ == last.name@ && !scan_is_banned(
                                plugins_dir,
                                init[j],
                            );
                        assert(scans[j] == init[j]);
                    }
                }
            }
        }
    }
}

/// Every plugin that the scanned directories resolve is resolved under its
/// directory's name, to that same name and to the path of that name in the
/// plugins directory, with no type prefix added; every directory that is
/// not banned and whose type is detected is resolved. When the names are
/// distinct, each such directory is resolved to its own detected type, and
/// one whose type is not detected stays unresolved.
pub proof fn lemma_registered_plugins_resolve(plugins_dir: Seq<char>, scans: Seq<PluginDirScan>)
    ensures
        forall|k: Seq<char>|
            #![trigger registered_plugins(plugins_dir, scans)[k]]
            registered_plugins(plugins_dir, scans).dom().contains(k) && registered_plugins(
                plugins_dir,
                scans,
            )[k] is Some ==> registered_plugins(plugins_dir, scans)[k].unwrap().0 == k
                && registered_plugins(plugins_dir, scans)[k].unwrap().2 == path_join_spec(
                plugins_dir,
                k,
            ),
        forall|i: int|
            0 <= i < scans.len() && !scan_is_banned(plugins_dir, #[trigger] scans[i]) && detected_type(
                scans[i].probe,
            ) is Ok ==> registered_plugins(plugins_dir, scans).dom().contains(scans[i].name@)
                && registered_plugins(plugins_dir, scans)[scans[i].name@] is Some,
        (forall|i: int, j: int| 0 <= i < j < scans.len() ==> scans[i].name@ != scans[j].name@)
            ==> forall|i: int|
            0 <= i < scans.len() && !scan_is_banned(plugins_dir, #[trigger] scans[i]) ==> match detected_type(
                scans[i].probe,
            ) {
                Ok(t) => registered_plugins(plugins_dir, scans)[scans[i].name@] == Some(
                    (scans[i].name@, t, path_join_spec(plugins_dir, scans[i].name@)),
                ),
                Err(_) => registered_plugins(plugins_dir, scans)[scans[i].name@] is None,
            },
    decreases scans.len(),
{
    lemma_registered_plugins(plugins_dir, scans);
    if scans.len() > 0 {
        let init = scans.drop_last();
        let prev = registered_plugins(plugins_dir, init);
        let m = registered_plugins(plugins_dir, scans);
        let last = scans.last();
        lemma_registered_plugins_resolve(plugins_dir, init);
        assert forall|k: Seq<char>| m.dom().contains(k) && m[k] is Some implies m[k].unwrap().0 == k
            && m[k].unwrap().2 == path_join_spec(plugins_dir, k) by {
            if !(prev.dom().contains(k) && m[k] == prev[k]) {
                assert(k == last.name@);
            }
        }
        assert forall|i: int|
            0 <= i < scans.len() && !scan_is_banned(plugins_dir, #[trigger] scans[i]) && detected_type(
                scans[i].probe,
            ) is Ok implies m.dom().contains(scans[i].name@) && m[scans[i].name@] is Some by {
            if i < init.len() {
                assert(init[i] == scans[i]);
                assert(prev.dom().contains(init[i].name@) && prev[init[i].name@] is Some);
            }
        }
    }
}

/// Initializes the plugin registry from the scanned plugin directories: the
/// banned one is left out and returned for removal, every other one is
/// registered under its name and resolved when its type is detected. An
/// initialized registry is kept as it is, and nothing is returned then.
pub fn init_plugins(state: &mut InstallState, scans: Vec<PluginDirScan>) -> (banned: Vec<String>)
    requires
        old(state).wf(),
    ensures
        final(state).wf(),
        final(state).plugins_ready(),
        final(state).tools_ready() == old(state).tools_ready(),
        final(state).tool_map() == old(state).tool_map(),
        final(state).plugins_dir() == old(state).plugins_dir(),
        final(state).installs_dir() == old(state).installs_dir(),
        final(state).cache_dir() == old(state).cache_dir(),
        old(state).plugins_ready() ==> final(state).plugin_cells() == old(state).plugin_cells()
            && banned@.len() == 0,
        !old(state).plugins_ready() ==> final(state).plugin_cells().map_values(
            |c: Option<PluginInfo>| cell_view(c),
        ) == registered_plugins(old(state).plugins_dir(), scans@) && banned.deep_view()
            == banned_names(old(state).plugins_dir(), scans@),
        !old(state).plugins_ready() ==> forall|k: Seq<char>|
            #[trigger] final(state).resolved_info(k) matches Some(info) ==> info.name@ == k
                && info.path@ == path_join_spec(old(state).plugins_dir(), k),
        !old(state).plugins_ready() ==> forall|i: int|
            0 <= i < scans.len() && !scan_is_banned(old(state).plugins_dir(), #[trigger] scans@[i])
                && detected_type(scans@[i].probe) is Ok ==> final(state).resolved_info(
                scans@[i].name@,
            ) is Some,
        !old(state).plugins_ready() && (forall|i: int, j: int|
            0 <= i < j < scans.len() ==> scans@[i].name@ != scans@[j].name@) ==> forall|i: int|
            0 <= i < scans.len() && !scan_is_banned(old(state).plugins_dir(), #[trigger] scans@[i])
                ==> match final(state).resolved_info(scans@[i].name@) {
                Some(info) => detected_type(scans@[i].probe) == Ok::<PluginType, DetectError>(
                    info.plugin_type,
                ),
                None => detected_type(scans@[i].probe) is Err,
            },
{
    if state.plugins.is_some() {
        return Vec::new();
    }
    let ghost pd = state.dirs.plugins@;
    let mut plugins: SortedMap<Option<PluginInfo>> = SortedMap::new();
    let mut banned: Vec<String> = Vec::new();
    let mut i: usize = 0;
    proof {
        assert(scans@.take(0) =~= Seq::<PluginDirScan>::empty());
        assert(plugins@.map_values(|c: Option<PluginInfo>| cell_view(c)) =~= Map::<
            Seq<char>,
            Option<PluginInfoView>,
        >::empty());
        assert(banned.deep_view() =~= Seq::<Seq<char>>::empty());
    }
    while i < scans.len()
        invariant
            i <= scans.len(),
            pd == state.dirs.plugins@,
            plugins.wf(),
            plugins@.map_values(|c: Option<PluginInfo>| cell_view(c)) == registered_plugins(
                pd,
                scans@.take(i as int),
            ),
            banned.deep_view() == banned_names(pd, scans@.take(i as int)),
        decreases scans.len() - i,
    {
        let scan = &scans[i];
        let ghost before = plugins@;
        proof {
            assert(scans@.take(i + 1).drop_last() =~= scans@.take(i as int));
            assert(scans@.take(i + 1).last() == *scan);
        }
        let path = path_join(state.dirs.plugins.as_str(), scan.name.as_str());
        let remote = match &scan.remote_url {
            Some(u) => Some(u.as_str()),
            None => None,
        };
        if is_banned_plugin(path.as_str(), remote) {
            let ghost prev = banned.deep_view();
            banned.push(scan.name.clone());
            proof {
                assert(banned.deep_view() =~= prev.push(scan.name@));
            }
        } else {
            let resolved = match detect_plugin_type(&scan.probe) {
                Ok(t) => Some(PluginInfo { name: scan.name.clone(), plugin_type: t, path }),
                Err(_) => None,
            };
            let keep = match plugins.get(scan.name.as_str()) {
                Some(Some(_)) => true,
                Some(None) => resolved.is_none(),
                None => false,
            };
            if !keep {
                let ghost rv = cell_view(resolved);
                plugins.insert(scan.name.clone(), resolved);
                proof {
                    assert(plugins@.map_values(|c: Option<PluginInfo>| cell_view(c)) =~= before.map_values(
                        |c: Option<PluginInfo>| cell_view(c),
                    ).insert(scan.name@, rv));
                }
            }
        }
        i += 1;
    }
    proof {
        assert(scans@.take(scans.len() as int) =~= scans@);
        lemma_registered_plugins_resolve(pd, scans@);
        lemma_registered_plugins(pd, scans@);
    }
    state.plugins = Some(plugins);
    proof {
        let cells = state.plugin_cells();
        let reg = registered_plugins(pd, scans@);
        assert(cells.map_values(|c: Option<PluginInfo>| cell_view(c)) == reg);
        assert forall|k: Seq<char>| cells.dom().contains(k) implies reg.dom().contains(k)
            && #[trigger] cell_view(cells[k]) == reg[k] by {
            assert(cells.map_values(|c: Option<PluginInfo>| cell_view(c)).dom().contains(k));
        }
        assert forall|k: Seq<char>| reg.dom().contains(k) implies cells.dom().contains(k) by {
            assert(cells.map_values(|c: Option<PluginInfo>| cell_view(c)).dom().contains(k));
        }
        assert forall|k: Seq<char>| #[trigger] state.resolved_info(k) is Some implies state.resolved_info(
            k,
        ).unwrap().name@ == k && state.resolved_info(k).unwrap().path@ == path_join_spec(pd, k) by {
            assert(cells.dom().contains(k));
            assert(cell_view(cells[k]) == reg[k]);
        }
        assert forall|i: int|
            0 <= i < scans.len() && !scan_is_banned(pd, #[trigger] scans@[i]) && detected_type(
                scans@[i].probe,
            ) is Ok implies state.resolved_info(scans@[i].name@) is Some by {
            let k = scans@[i].name@;
            assert(cell_view(cells[k]) == reg[k]);
        }
        if forall|i: int, j: int| 0 <= i < j < scans.len() ==> scans@[i].name@ != scans@[j].name@ {
            assert forall|i: int| 0 <= i < scans.len() && !scan_is_banned(pd, #[trigger] scans@[i]) implies match state.resolved_info(scans@[i].name@) {
                Some(info) => detected_type(scans@[i].probe) == Ok::<PluginType, DetectError>(
                    info.plugin_type,
                ),
                None => detected_type(scans@[i].probe) is Err,
            } by {
                let k = scans@[i].name@;
                assert(reg.dom().contains(k));
                assert(cell_view(cells[k]) == reg[k]);
            }
        }
    }
    banned
}

/// Registers a plugin name, unresolved, unless it is registered already; an
/// unset registry is initialized first.
pub fn register_plugin_ref(state: &mut InstallState, name: String)
    requires
        old(state).wf(),
    ensures
        final(state).wf(),
        final(state).plugins_ready(),
        final(state).tools_ready() == old(state).tools_ready(),
        final(state).tool_map() == old(state).tool_map(),
        final(state).plugins_dir() == old(state).plugins_dir(),
        final(state).installs_dir() == old(state).installs_dir(),
        final(state).cache_dir() == old(state).cache_dir(),
        old(state).plugin_cells().dom().contains(name@) ==> final(state).plugin_cells() == old(
            state,
        ).plugin_cells(),
        !old(state).plugin_cells().dom().contains(name@) ==> final(state).plugin_cells() == old(
            state,
        ).plugin_cells().insert(name@, None),
        final(state).plugin_cells().dom().contains(name@),
        forall|k: Seq<char>| #[trigger] final(state).resolved_info(k) == old(state).resolved_info(k),
{
    let mut plugins = match state.plugins.take() {
        Some(p) => p,
        None => SortedMap::new(),
    };
    if !plugins.contains_key(name.as_str()) {
        plugins.insert(name, None);
    }
    state.plugins = Some(plugins);
}

/// Why a plugin could not be resolved.
#[derive(Debug)]
pub enum InstallStateError {
    /// The plugin was resolved before.
    PluginAlreadyResolved,
}

/// Resolves a registered plugin with `info`. A plugin that is not registered
/// is left alone; one that is resolved already is refused.
pub fn resolve_plugin(state: &mut InstallState, name: &str, info: PluginInfo) -> (r: Result<
    (),
    InstallStateError,
>)
    requires
        old(state).wf(),
        old(state).plugins_ready(),
    ensures
        final(state).wf(),
        final(state).plugins_ready(),
        final(state).tools_ready() == old(state).tools_ready(),
        final(state).tool_map() == old(state).tool_map(),
        final(state).plugins_dir() == old(state).plugins_dir(),
        final(state).installs_dir() == old(state).installs_dir(),
        final(state).cache_dir() == old(state).cache_dir(),
        r is Err <==> (old(state).plugin_cells().dom().contains(name@) && old(
            state,
        ).plugin_cells()[name@] is Some),
        r is Err ==> final(state).plugin_cells() == old(state).plugin_cells(),
        !old(state).plugin_cells().dom().contains(name@) ==> final(state).plugin_cells() == old(
            state,
        ).plugin_cells(),
        r is Ok && old(state).plugin_cells().dom().contains(name@) ==> final(state).plugin_cells()
            == old(state).plugin_cells().insert(name@, Some(info)),
        r is Ok && old(state).plugin_cells().dom().contains(name@) ==> final(state).resolved_info(
            name@,
        ) == Some(info),
        forall|k: Seq<char>|
            k != name@ ==> #[trigger] final(state).resolved_info(k) == old(state).resolved_info(k),
        forall|k: Seq<char>|
            #[trigger] old(state).resolved_info(k) is Some ==> final(state).resolved_info(k) == old(
                state,
            ).resolved_info(k),
{
    let mut plugins = state.plugins.take().unwrap();
    let resolved = match plugins.get(name) {
        None => {
            state.plugins = Some(plugins);
            return Ok(());
        },
        Some(cell) => cell.is_some(),
    };
    if resolved {
        state.plugins = Some(plugins);
        return Err(InstallStateError::PluginAlreadyResolved);
    }
    plugins.insert(name.to_owned(), Some(info));
    state.plugins = Some(plugins);
    Ok(())
}

/// One look at a plugin's resolution while waiting for it.
#[derive(Debug)]
pub enum PluginInfoPoll {
    /// The plugin is not registered.
    Unregistered,
    /// The plugin is registered and not resolved yet: look again later.
    Pending,
    /// The plugin is resolved.
    Ready(PluginInfo),
    /// The wait is over: assume an asdf plugin in the plugins directory.
    TimedOut(PluginInfo),
}

/// What waiting for plugin `name` does at one look: answer when it is not
/// registered or is resolved, give up with a guess once `timed_out`, and
/// wait otherwise.
pub fn get_plugin_info_step(state: &InstallState, name: &str, timed_out: bool) -> (r:
    PluginInfoPoll)
    requires
        state.wf(),
        state.plugins_ready(),
    ensures
        !state.plugin_cells().dom().contains(name@) ==> r is Unregistered,
        state.plugin_cells().dom().contains(name@) ==> match state.plugin_cells()[name@] {
            Some(info) => r == PluginInfoPoll::Ready(info),
            None => if timed_out {
                r matches PluginInfoPoll::TimedOut(i) && i.name@ == name@ && i.plugin_type
                    == PluginType::Asdf && i.path@ == path_join_spec(
                    state.plugins_dir(),
                    kebab_case(name@),
                )
            } else {
                r is Pending
            },
        },
{
    let plugins = state.plugins.as_ref().unwrap();
    match plugins.get(name) {
        None => PluginInfoPoll::Unregistered,
        Some(Some(info)) => PluginInfoPoll::Ready(info.clone()),
        Some(None) => {
            if timed_out {
                let kebab = to_kebab_case(name);
                let path = path_join(state.dirs.plugins.as_str(), kebab.as_str());
                PluginInfoPoll::TimedOut(
                    PluginInfo { name: name.to_owned(), plugin_type: PluginType::Asdf, path },
                )
            } else {
                PluginInfoPoll::Pending
            }
        },
    }
}

/// The resolved information of plugin `name`, if it is resolved.
pub fn get_plugin_info_sync(state: &InstallState, name: &str) -> (r: Option<PluginInfo>)
    requires
        state.wf(),
        state.plugins_ready(),
    ensures
        r == state.resolved_info(name@),
{
    let plugins = state.plugins.as_ref().unwrap();
    match plugins.get(name) {
        Some(Some(info)) => Some(info.clone()),
        _ => None,
    }
}

/// The resolved plugins by name.
pub fn list_plugins(state: &InstallState) -> (r: SortedMap<PluginInfo>)
    requires
        state.wf(),
        state.plugins_ready(),
    ensures
        r.wf(),
        forall|k: Seq<char>| #[trigger] r@.dom().contains(k) <==> state.resolved_info(k) is Some,
        forall|k: Seq<char>| #[trigger] r@.dom().contains(k) ==> state.resolved_info(k) == Some(r@[k]),
{
    let plugins = state.plugins.as_ref().unwrap();
    let mut r: SortedMap<PluginInfo> = SortedMap::new();
    let n = plugins.len();
    let ghost ks = plugins.keys();
    proof {
        plugins.lemma_keys();
    }
    let mut i: usize = 0;
    while i < n
        invariant
            n == ks.len(),
            ks == plugins.keys(),
            plugins.wf(),
            strictly_sorted(ks),
            forall|k: Seq<char>| #[trigger] plugins@.dom().contains(k) <==> ks.contains(k),
            i <= n,
            r.wf(),
            forall|k: Seq<char>| #[trigger] r@.dom().contains(k) <==> (ks.take(i as int).contains(k)
                && plugins@[k] is Some),
            forall|k: Seq<char>| #[trigger] r@.dom().contains(k) ==> plugins@[k] == Some(r@[k]),
        decreases n - i,
    {
        let key = plugins.key_at(i);
        let cell = plugins.value_at(i);
        let ghost before = r@;
        let ghost t0 = ks.take(i as int);
        let ghost t1 = ks.take(i + 1);
        proof {
            assert(t1 =~= t0.push(ks[i as int]));
            r.lemma_keys();
            lemma_sorted_prefix_step(ks, i as int);
        }
        if let Some(info) = cell {
            proof {
                assert forall|j: int| 0 <= j < r.keys().len() implies lex_order(
                    #[trigger] r.keys()[j],
                    key@,
                ) < 0 by {
                    let kk = r.keys()[j];
                    assert(r.keys().contains(kk));
                    assert(r@.dom().contains(kk));
                    assert(t0.contains(kk));
                    let m = choose|m: int| 0 <= m < t0.len() && t0[m] == kk;
                    assert(ks[m] == kk);
                }
            }
            r.push_greatest(key.to_owned(), info.clone());
            proof {
                assert(r@ == before.insert(key@, *info));
            }
        } else {
            proof {
                assert(r@ == before);
            }
        }
        i += 1;
    }
    proof {
        assert(ks.take(n as int) =~= ks);
    }
    r
}

/// The full name of installed tool `short`, when it has one.
pub fn get_tool_full(state: &InstallState, short: &str) -> (r: Option<String>)
    requires
        state.wf(),
        state.tools_ready(),
    ensures
        opt_view(r) == if state.tool_map().dom().contains(short@) {
            opt_view(state.tool_map()[short@].full)
        } else {
            None
        },
{
    let tools = state.tools.as_ref().unwrap();
    match tools.get(short) {
        Some(t) => match &t.full {
            Some(f) => Some(f.clone()),
            None => None,
        },
        None => None,
    }
}

/// The kind of plugin `short`, when it is resolved.
pub fn get_plugin_type(state: &InstallState, short: &str) -> (r: Option<PluginType>)
    requires
        state.wf(),
        state.plugins_ready(),
    ensures
        r == match state.resolved_info(short@) {
            Some(info) => Some(info.plugin_type),
            None => None,
        },
{
    match get_plugin_info_sync(state, short) {
        Some(info) => Some(info.plugin_type),
        None => None,
    }
}

/// The installed tools by short name.
pub fn list_tools(state: &InstallState) -> (r: &SortedMap<InstallStateTool>)
    requires
        state.wf(),
        state.tools_ready(),
    ensures
        r.wf(),
        r@ == state.tool_map(),
{
    state.tools.as_ref().unwrap()
}

/// The backend guessed from the full name of tool `short`.
pub open spec fn guessed_backend(state: InstallState, short: Seq<char>) -> Option<BackendType> {
    if state.tool_map().dom().contains(short) {
        match opt_view(state.tool_map()[short].full) {
            Some(full) => Some(backend_for_prefix(first_segment(full, ':'))),
            None => None,
        }
    } else {
        None
    }
}

/// The backend lookup falls back on the registry only for an unknown
/// backend of a `plugin:tool` name.
pub open spec fn backend_needs_plugin(state: InstallState, short: Seq<char>) -> bool {
    guessed_backend(state, short) == Some(BackendType::Unknown) && split_once_spec(short, ':') is Some
}

/// The backend of tool `short`: the one its full name names, except that an
/// unknown backend of a `plugin:tool` name whose plugin is a vfox backend
/// plugin is that plugin.
pub fn backend_type(state: &InstallState, short: &str) -> (r: Result<
    Option<BackendType>,
    InstallStateError,
>)
    requires
        state.wf(),
        state.tools_ready(),
        backend_needs_plugin(*state, short@) ==> state.plugins_ready(),
    ensures
        r is Ok,
        ({
            let guessed = guessed_backend(*state, short@);
            match split_once_spec(short@, ':') {
                Some((plugin_name, _)) => if guessed == Some(BackendType::Unknown) && (state.resolved_info(
                    plugin_name,
                ) matches Some(info) && info.plugin_type == PluginType::VfoxBackend) {
                    r matches Ok(Some(BackendType::VfoxBackend(n))) && n@ == plugin_name
                } else {
                    r == Ok::<Option<BackendType>, InstallStateError>(guessed)
                },
                None => r == Ok::<Option<BackendType>, InstallStateError>(guessed),
            }
        }),
{
    let tools = state.tools.as_ref().unwrap();
    let guessed = match tools.get(short) {
        Some(t) => match &t.full {
            Some(full) => Some(BackendType::guess(full.as_str())),
            None => None,
        },
        None => None,
    };
    if let Some(BackendType::Unknown) = guessed {
        if let Some((plugin_name, _)) = split_once(short, ':') {
            if let Some(PluginType::VfoxBackend) = get_plugin_type(state, plugin_name) {
                return Ok(Some(BackendType::VfoxBackend(plugin_name.to_owned())));
            }
        }
    }
    Ok(guessed)
}

/// The installed versions of tool `short`; none when it is not installed.
pub fn list_versions(state: &InstallState, short: &str) -> (r: Vec<String>)
    requires
        state.wf(),
        state.tools_ready(),
    ensures
        r.deep_view() == if state.tool_map().dom().contains(short@) {
            state.tool_map()[short@].versions.deep_view()
        } else {
            Seq::empty()
        },
{
    let tools = state.tools.as_ref().unwrap();
    match tools.get(short) {
        Some(t) => clone_strings(&t.versions),
        None => {
            let r: Vec<String> = Vec::new();
            assert(r.deep_view() =~= Seq::<Seq<char>>::empty());
            r
        },
    }
}

/// The name and path of plugin `short`: those of the resolved plugin its
/// normalized name names, or else its normalized name and the kebab-case
/// form of `short` in the plugins directory.
pub fn get_plugin_path_and_name(state: &InstallState, short: &str) -> (r: (String, String))
    requires
        state.wf(),
        state.plugins_ready(),
    ensures
        (r.0@, r.1@) == state.plugin_path_and_name_spec(short@),
        state.resolved_info(normalized_name(short@)) matches Some(info) ==> r.0@ == info.name@
            && r.1@ == info.path@,
        state.resolved_info(normalized_name(short@)) is None ==> r.0@ == normalized_name(short@)
            && r.1@ == path_join_spec(state.plugins_dir(), kebab_case(short@)),
{
    let normalized_name = normalize_plugin_name(short);
    if let Some(info) = get_plugin_info_sync(state, normalized_name) {
        return (info.name.clone(), info.path.clone());
    }
    let kebab = to_kebab_case(short);
    (normalized_name.to_owned(), path_join(state.dirs.plugins.as_str(), kebab.as_str()))
}

/// A plugin resolved under the normalized name is used whatever the name it
/// was asked for, with or without a type prefix: its own name and path are
/// given, a local plugin's path among them. Only when nothing is resolved
/// under the normalized name is the kebab-case name in the plugins
/// directory given, with the normalized name.
pub proof fn lemma_plugin_path_prefers_resolved(state: InstallState, short: Seq<char>)
    ensures
        state.resolved_info(normalized_name(short)) matches Some(info)
            ==> state.plugin_path_and_name_spec(short) == (info.name@, info.path@),
        state.resolved_info(normalized_name(short)) is None ==> state.plugin_path_and_name_spec(short)
            == (normalized_name(short), path_join_spec(state.plugins_dir(), kebab_case(short))),
{
}

/// The path of plugin `short`, as `get_plugin_path_and_name` gives it.
pub fn get_plugin_path(state: &InstallState, short: &str) -> (r: String)
    requires
        state.wf(),
        state.plugins_ready(),
    ensures
        r@ == state.plugin_path_and_name_spec(short@).1,
        state.resolved_info(normalized_name(short@)) matches Some(info) ==> r@ == info.path@,
        state.resolved_info(normalized_name(short@)) is None ==> r@ == path_join_spec(
            state.plugins_dir(),
            kebab_case(short@),
        ),
{
    get_plugin_path_and_name(state, short).1
}

/// Clears both parts of the state.
pub fn reset(state: &mut InstallState)
    requires
        old(state).wf(),
    ensures
        final(state).wf(),
        !final(state).plugins_ready(),
        !final(state).tools_ready(),
        final(state).plugins_dir() == old(state).plugins_dir(),
        final(state).installs_dir() == old(state).installs_dir(),
        final(state).cache_dir() == old(state).cache_dir(),
{
    state.plugins = None;
    state.tools = None;
}

/// `v` without one leading `v` or `V`.
pub open spec fn normalized_version(v: Seq<char>) -> Seq<char> {
    if v.len() > 0 && (v[0] == 'v' || v[0] == 'V') {
        v.drop_first()
    } else {
        v
    }
}

/// Normalizes a version string for sorting by stripping a leading `v` or `V`,
/// so that `v1.0.0` and `1.0.0` sort together.
pub fn normalize_version_for_sort(v: &str) -> (r: &str)
    ensures
        r@ == normalized_version(v@),
{
    let n = v.unicode_len();
    if n > 0 {
        let c = v.get_char(0);
        if c == 'v' || c == 'V' {
            return v.substring_char(1, n);
        }
    }
    v
}

/// The order versions are listed in: by the versions of their normalized
/// forms, and by the strings themselves between equal versions.
pub open spec fn version_sort_order(a: Seq<char>, b: Seq<char>) -> int {
    let o = versioning_order(normalized_version(a), normalized_version(b));
    if o != 0 {
        o
    } else {
        lex_order(a, b)
    }
}

/// Swapping the operands negates the order.
pub proof fn lemma_version_sort_order_swap(a: Seq<char>, b: Seq<char>)
    requires
        -1 <= versioning_order(normalized_version(a), normalized_version(b)) <= 1,
        versioning_order(normalized_version(b), normalized_version(a)) == -versioning_order(
            normalized_version(a),
            normalized_version(b),
        ),
    ensures
        version_sort_order(a, b) == -version_sort_order(b, a),
        -1 <= version_sort_order(a, b) <= 1,
{
    lemma_lex_order_props(a, b);
}

/// Compares two version strings in listing order: -1, 0 or 1.
pub fn compare_versions_for_sort(a: &str, b: &str) -> (r: i8)
    ensures
        r == version_sort_order(a@, b@),
        version_sort_order(b@, a@) == -r,
        -1 <= r <= 1,
        plain_version_order(normalized_version(a@), normalized_version(b@)) matches Some(o) ==> (o
            != 0 ==> r == o),
{
    let na = normalize_version_for_sort(a);
    let nb = normalize_version_for_sort(b);
    let o = compare_versioning(na, nb);
    proof {
        lemma_version_sort_order_swap(a@, b@);
    }
    if o != 0 {
        o
    } else {
        str_order(a, b)
    }
}

/// `a` may be listed before `b` as far as their shapes say: where the order
/// of their normalized forms is fixed, `a` is not above `b`.
pub open spec fn plainly_ascending(a: Seq<char>, b: Seq<char>) -> bool {
    match plain_version_order(normalized_version(a), normalized_version(b)) {
        Some(o) => o <= 0,
        None => true,
    }
}

/// A pre-release `x.y.z-pre` is listed before its release `x.y.z`, and the
/// release is never listed right before it: in the listing the release is
/// the latest of the two.
pub proof fn lemma_prerelease_listed_first(core: Seq<char>, pre: Seq<char>)
    requires
        version_core(core) is Some,
        is_prerelease(pre),
    ensures
        plainly_ascending(core + "-"@ + pre, core),
        !plainly_ascending(core, core + "-"@ + pre),
{
    lemma_prerelease_below_release(core, pre);
    let p = core + "-"@ + pre;
    assert(core[0] == '.' || crate::version_forms::is_ascii_digit(core[0]));
    assert(p[0] == core[0]);
    assert(normalized_version(core) == core);
    assert(normalized_version(p) == p);
}

/// A release and one of its pre-releases, listed in either order as
/// `sort_versions` lists (the same two versions, each pair of neighbours
/// plainly ascending), come out with the pre-release first and the release
/// last.
pub proof fn lemma_listing_release_pair(core: Seq<char>, pre: Seq<char>, listed: Seq<Seq<char>>)
    requires
        version_core(core) is Some,
        is_prerelease(pre),
        listed.to_multiset() == seq![core, core + "-"@ + pre].to_multiset(),
        forall|i: int| 0 <= i < listed.len() - 1 ==> plainly_ascending(#[trigger] listed[i], listed[i + 1]),
    ensures
        listed == seq![core + "-"@ + pre, core],
{
    let p = core + "-"@ + pre;
    let both = seq![core, p];
    lemma_prerelease_listed_first(core, pre);
    vstd::seq_lib::to_multiset_len(listed);
    vstd::seq_lib::to_multiset_len(both);
    assert(listed.len() == 2);
    assert(p.len() > core.len());
    assert(core != p);
    vstd::seq_lib::to_multiset_contains(listed, listed[0]);
    vstd::seq_lib::to_multiset_contains(listed, listed[1]);
    vstd::seq_lib::to_multiset_contains(both, listed[0]);
    vstd::seq_lib::to_multiset_contains(both, listed[1]);
    vstd::seq_lib::to_multiset_contains(both, core);
    vstd::seq_lib::to_multiset_contains(both, p);
    vstd::seq_lib::to_multiset_contains(listed, core);
    vstd::seq_lib::to_multiset_contains(listed, p);
    assert(listed.contains(listed[0]));
    assert(listed.contains(listed[1]));
    assert(both.contains(core) && both[0] == core);
    assert(both.contains(p) && both[1] == p);
    assert(listed.contains(core));
    assert(listed.contains(p));
    if listed[0] == core {
        assert(listed[1] == p);
        assert(plainly_ascending(listed[0], listed[1]));
    }
    assert(listed[0] == p);
    assert(listed[1] == core);
    assert(listed =~= seq![p, core]);
}

/// Each version is listed no later than the next one.
pub open spec fn versions_ascending(s: Seq<Seq<char>>) -> bool {
    forall|i: int| 0 <= i < s.len() - 1 ==> version_sort_order(#[trigger] s[i], s[i + 1]) <= 0
}

/// `x` placed into `listed` before the first version it is listed before,
/// or at the end when there is none.
pub open spec fn insert_listed(listed: Seq<Seq<char>>, x: Seq<char>) -> Seq<Seq<char>>
    decreases listed.len(),
{
    if listed.len() == 0 {
        seq![x]
    } else if version_sort_order(x, listed[0]) < 0 {
        seq![x] + listed
    } else {
        seq![listed[0]] + insert_listed(listed.drop_first(), x)
    }
}

/// The versions in listing order, each placed in turn before the first
/// version already listed that it is listed before. Whether this is the
/// single ascending order rests on the version comparison being transitive,
/// which is not stated of it; the order is ascending between neighbours in
/// any case (see `sort_versions`).
pub open spec fn listing_order(s: Seq<Seq<char>>) -> Seq<Seq<char>>
    decreases s.len(),
{
    if s.len() == 0 {
        Seq::empty()
    } else {
        insert_listed(listing_order(s.drop_last()), s.last())
    }
}

/// Placing `x` before the first version it is listed before is inserting it
/// at that position.
pub proof fn lemma_insert_listed_at(listed: Seq<Seq<char>>, x: Seq<char>, j: int)
    requires
        0 <= j <= listed.len(),
        forall|k: int| 0 <= k < j ==> version_sort_order(x, #[trigger] listed[k]) >= 0,
        j < listed.len() ==> version_sort_order(x, listed[j]) < 0,
    ensures
        insert_listed(listed, x) == listed.insert(j, x),
    decreases listed.len(),
{
    if listed.len() == 0 {
        assert(listed.insert(j, x) =~= seq![x]);
    } else if j == 0 {
        assert(listed.insert(0, x) =~= seq![x] + listed);
    } else {
        let rest = listed.drop_first();
        assert forall|k: int| 0 <= k < j - 1 implies version_sort_order(x, #[trigger] rest[k]) >= 0 by {
            assert(rest[k] == listed[k + 1]);
        }
        if j < listed.len() {
            assert(rest[j - 1] == listed[j]);
        }
        assert(version_sort_order(x, listed[0]) >= 0);
        lemma_insert_listed_at(rest, x, j - 1);
        assert(listed.insert(j, x) =~= seq![listed[0]] + rest.insert(j - 1, x));
    }
}

/// The versions in listing order: the same versions, each no later than the
/// next, placed in turn as `listing_order` describes.
pub fn sort_versions(v: Vec<String>) -> (r: Vec<String>)
    ensures
        r.deep_view() == listing_order(v.deep_view()),
        r.deep_view().to_multiset() == v.deep_view().to_multiset(),
        versions_ascending(r.deep_view()),
        forall|i: int|
            0 <= i < r.deep_view().len() - 1 ==> plainly_ascending(
                #[trigger] r.deep_view()[i],
                r.deep_view()[i + 1],
            ),
{
    let mut r: Vec<String> = Vec::new();
    let mut i: usize = 0;
    let ghost vd = v.deep_view();
    proof {
        assert(vd.take(0) =~= Seq::<Seq<char>>::empty());
        assert(r.deep_view() =~= Seq::<Seq<char>>::empty());
    }
    while i < v.len()
        invariant
            i <= v.len(),
            vd == v.deep_view(),
            r.deep_view().to_multiset() == vd.take(i as int).to_multiset(),
            r.deep_view() == listing_order(vd.take(i as int)),
            versions_ascending(r.deep_view()),
            forall|k: int|
                0 <= k < r.deep_view().len() - 1 ==> plainly_ascending(
                    #[trigger] r.deep_view()[k],
                    r.deep_view()[k + 1],
                ),
        decreases v.len() - i,
    {
        let x = v[i].clone();
        let mut j: usize = 0;
        while j < r.len() && compare_versions_for_sort(x.as_str(), r[j].as_str()) >= 0
            invariant
                j <= r.len(),
                forall|k: int| 0 <= k < j ==> version_sort_order(#[trigger] r.deep_view()[k], x@) <= 0,
                forall|k: int| 0 <= k < j ==> version_sort_order(x@, #[trigger] r.deep_view()[k]) >= 0,
                forall|k: int| 0 <= k < j ==> plainly_ascending(#[trigger] r.deep_view()[k], x@),
            decreases r.len() - j,
        {
            proof {
                lemma_plain_version_order_swap(
                    normalized_version(r.deep_view()[j as int]),
                    normalized_version(x@),
                );
            }
            j += 1;
        }
        let ghost old_r = r.deep_view();
        proof {
            if j < r.len() {
                assert(version_sort_order(x@, old_r[j as int]) < 0);
                assert(plainly_ascending(x@, old_r[j as int]));
            }
        }
        r.insert(j, x);
        proof {
            let nr = r.deep_view();
            assert(nr =~= old_r.insert(j as int, x@));
            assert(x@ == vd[i as int]);
            assert(vd.take(i + 1) =~= vd.take(i as int).push(vd[i as int]));
            vstd::seq_lib::to_multiset_insert(old_r, j as int, x@);
            vstd::seq_lib::to_multiset_build(vd.take(i as int), vd[i as int]);
            lemma_insert_listed_at(old_r, x@, j as int);
            assert(vd.take(i + 1).drop_last() =~= vd.take(i as int));
            assert forall|k: int| 0 <= k < nr.len() - 1 implies version_sort_order(
                #[trigger] nr[k],
                nr[k + 1],
            ) <= 0 && plainly_ascending(nr[k], nr[k + 1]) by {
                if k + 1 < j {
                    assert(nr[k] == old_r[k] && nr[k + 1] == old_r[k + 1]);
                } else if k + 1 == j {
                    assert(nr[k] == old_r[k]);
                    assert(version_sort_order(old_r[k], x@) <= 0);
                } else if k == j {
                    assert(nr[k + 1] == old_r[k]);
                } else {
                    assert(nr[k] == old_r[k - 1] && nr[k + 1] == old_r[k]);
                }
            }
        }
        i += 1;
    }
    proof {
        assert(vd.take(v.len() as int) =~= vd);
    }
    r
}

/// A directory found under a tool's install directory, with what the file
/// system says of it.
#[derive(Debug)]
pub struct VersionDir {
    pub name: String,
    /// It is a symlink that the runtime keeps, not an install.
    pub is_runtime_symlink: bool,
    /// It holds the marker of an unfinished install.
    pub is_incomplete: bool,
}

/// An installed version: not hidden, not a runtime symlink, not unfinished.
pub open spec fn keeps_version(e: VersionDir) -> bool {
    &&& !(e.name@.len() > 0 && e.name@[0] == '.')
    &&& !e.is_runtime_symlink
    &&& !e.is_incomplete
}

/// The names of the installed versions among `es`, in their order.
pub open spec fn kept_versions(es: Seq<VersionDir>) -> Seq<Seq<char>>
    decreases es.len(),
{
    if es.len() == 0 {
        Seq::empty()
    } else {
        let prev = kept_versions(es.drop_last());
        if keeps_version(es.last()) {
            prev.push(es.last().name@)
        } else {
            prev
        }
    }
}

/// The installed versions among the directories found, in listing order.
pub fn collect_versions(entries: &Vec<VersionDir>) -> (r: Vec<String>)
    ensures
        r.deep_view() == listing_order(kept_versions(entries@)),
        r.deep_view().to_multiset() == kept_versions(entries@).to_multiset(),
        versions_ascending(r.deep_view()),
        forall|i: int|
            0 <= i < r.deep_view().len() - 1 ==> plainly_ascending(
                #[trigger] r.deep_view()[i],
                r.deep_view()[i + 1],
            ),
{
    let mut kept: Vec<String> = Vec::new();
    let mut i: usize = 0;
    proof {
        assert(entries@.take(0) =~= Seq::<VersionDir>::empty());
        assert(kept.deep_view() =~= Seq::<Seq<char>>::empty());
    }
    while i < entries.len()
        invariant
            i <= entries.len(),
            kept.deep_view() == kept_versions(entries@.take(i as int)),
        decreases entries.len() - i,
    {
        let e = &entries[i];
        proof {
            assert(entries@.take(i + 1).drop_last() =~= entries@.take(i as int));
            assert(entries@.take(i + 1).last() == *e);
        }
        let n = e.name.as_str().unicode_len();
        let hidden = n > 0 && e.name.as_str().get_char(0) == '.';
        if !hidden && !e.is_runtime_symlink && !e.is_incomplete {
            let ghost before = kept.deep_view();
            kept.push(e.name.clone());
            proof {
                assert(kept.deep_view() =~= before.push(e.name@));
            }
        }
        i += 1;
    }
    proof {
        assert(entries@.take(entries.len() as int) =~= entries@);
    }
    sort_versions(kept)
}

/// The tool in install directory `dir`: the first two lines of its backend
/// metadata give its short name (else `dir`) and full name, and its versions
/// are the installed ones among `version_dirs`, in listing order.
pub open spec fn tool_of_dir(
    dir: Seq<char>,
    backend_meta: Option<Seq<Seq<char>>>,
    version_dirs: Seq<VersionDir>,
) -> ToolView {
    let meta = match backend_meta {
        Some(m) => m,
        None => Seq::empty(),
    };
    (
        if meta.len() > 0 {
            meta[0]
        } else {
            dir
        },
        if meta.len() > 1 {
            Some(meta[1])
        } else {
            None
        },
        listing_order(kept_versions(version_dirs)),
    )
}

/// What the file system holds for one install directory: its name, the
/// lines of its backend metadata when it has any, and its subdirectories.
#[derive(Debug)]
pub struct ToolDirScan {
    pub dir: String,
    pub backend_meta: Option<Vec<String>>,
    pub version_dirs: Vec<VersionDir>,
}

/// The tool that a scanned install directory holds.
pub open spec fn scan_tool(scan: ToolDirScan) -> ToolView {
    tool_of_dir(
        scan.dir@,
        match scan.backend_meta {
            Some(m) => Some(m.deep_view()),
            None => None,
        },
        scan.version_dirs@,
    )
}

/// The tools of a list of scanned install directories.
pub open spec fn scan_tools(scans: Seq<ToolDirScan>) -> Seq<ToolView> {
    Seq::new(scans.len(), |i: int| scan_tool(scans[i]))
}

impl InstallStateTool {
    /// The tool installed in directory `dir`: its short and full names are
    /// the first two lines of its backend metadata when it has them (the
    /// short name falls back on `dir`), its versions are the installed ones
    /// among `version_dirs`, in listing order.
    pub fn from_install_dir(dir: &str, backend_meta: Option<Vec<String>>, version_dirs: &Vec<
        VersionDir,
    >) -> (r: InstallStateTool)
        ensures
            ({
                let meta = match backend_meta {
                    Some(m) => m.deep_view(),
                    None => Seq::empty(),
                };
                &&& r.short@ == if meta.len() > 0 {
                    meta[0]
                } else {
                    dir@
                }
                &&& opt_view(r.full) == if meta.len() > 1 {
                    Some(meta[1])
                } else {
                    None::<Seq<char>>
                }
            }),
            r.versions.deep_view().to_multiset() == kept_versions(version_dirs@).to_multiset(),
            versions_ascending(r.versions.deep_view()),
            forall|i: int|
                0 <= i < r.versions.deep_view().len() - 1 ==> plainly_ascending(
                    #[trigger] r.versions.deep_view()[i],
                    r.versions.deep_view()[i + 1],
                ),
            r@ == tool_of_dir(
                dir@,
                match backend_meta {
                    Some(m) => Some(m.deep_view()),
                    None => None,
                },
                version_dirs@,
            ),
    {
        let meta = match backend_meta {
            Some(m) => m,
            None => Vec::new(),
        };
        proof {
            if backend_meta is None {
                assert(meta.deep_view() =~= Seq::<Seq<char>>::empty());
            }
        }
        let short = if meta.len() > 0 {
            meta[0].clone()
        } else {
            dir.to_owned()
        };
        let full = if meta.len() > 1 {
            Some(meta[1].clone())
        } else {
            None
        };
        let versions = collect_versions(version_dirs);
        InstallStateTool { short, full, versions }
    }
}

/// The tools found in the install directories, by short name: those with at
/// least one version, a later one replacing an earlier one of the same name.
pub open spec fn scanned_tools(s: Seq<ToolView>) -> Map<Seq<char>, ToolView>
    decreases s.len(),
{
    if s.len() == 0 {
        Map::empty()
    } else {
        let prev = scanned_tools(s.drop_last());
        let t = s.last();
        if t.2.len() > 0 {
            prev.insert(t.0, t)
        } else {
            prev
        }
    }
}

/// The full name that a resolved plugin gives the tool of the same name.
pub open spec fn plugin_full_name(short: Seq<char>, t: PluginType) -> Seq<char> {
    match t {
        PluginType::Asdf => "asdf:"@ + short,
        PluginType::Vfox => "vfox:"@ + short,
        PluginType::VfoxBackend => short,
    }
}

/// The full name a plugin gives its tool names that plugin's backend: `vfox`
/// for a vfox plugin and `asdf` for an asdf plugin, whatever the short name;
/// so a tool whose full name came from a vfox plugin is guessed to have the
/// vfox backend.
pub proof fn lemma_plugin_tool_backend(state: InstallState, short: Seq<char>)
    ensures
        backend_for_prefix(first_segment(plugin_full_name(short, PluginType::Vfox), ':'))
            == BackendType::Vfox,
        backend_for_prefix(first_segment(plugin_full_name(short, PluginType::Asdf), ':'))
            == BackendType::Asdf,
        state.tool_map().dom().contains(short) && opt_view(state.tool_map()[short].full) == Some(
            plugin_full_name(short, PluginType::Vfox),
        ) ==> guessed_backend(state, short) == Some(BackendType::Vfox),
        state.tool_map().dom().contains(short) && opt_view(state.tool_map()[short].full) == Some(
            plugin_full_name(short, PluginType::Asdf),
        ) ==> guessed_backend(state, short) == Some(BackendType::Asdf),
{
    reveal_strlit("vfox:");
    reveal_strlit("asdf:");
    reveal_strlit("vfox");
    reveal_strlit("asdf");
    reveal_strlit(":");
    assert("vfox:"@ + short =~= "vfox"@ + ":"@ + short);
    assert("asdf:"@ + short =~= "asdf"@ + ":"@ + short);
    lemma_guess_named_prefix(BackendType::Vfox, short);
    lemma_guess_named_prefix(BackendType::Asdf, short);
}

/// `k` names a plugin among `done` that is resolved.
pub open spec fn resolved_among(
    cells: Map<Seq<char>, Option<PluginInfo>>,
    done: Set<Seq<char>>,
    k: Seq<char>,
) -> bool {
    done.contains(k) && cells.dom().contains(k) && cells[k] is Some
}

/// The tools once every resolved plugin among `done` has a tool of its name
/// whose full name is the plugin's; a plugin with no installed tool gets one
/// without versions.
pub open spec fn tools_with_plugins(
    base: Map<Seq<char>, ToolView>,
    cells: Map<Seq<char>, Option<PluginInfo>>,
    done: Set<Seq<char>>,
) -> Map<Seq<char>, ToolView> {
    Map::new(
        |k: Seq<char>| base.dom().contains(k) || resolved_among(cells, done, k),
        |k: Seq<char>|
            if resolved_among(cells, done, k) {
                let full = plugin_full_name(k, cells[k].unwrap().plugin_type);
                if base.dom().contains(k) {
                    (base[k].0, Some(full), base[k].2)
                } else {
                    (k, Some(full), Seq::<Seq<char>>::empty())
                }
            } else {
                base[k]
            },
    )
}

/// Initializes the tool list from the tools found in the install
/// directories and the resolved plugins; an initialized list is kept.
pub fn init_tools(state: &mut InstallState, scans: Vec<ToolDirScan>)
    requires
        old(state).wf(),
        old(state).plugins_ready(),
    ensures
        final(state).wf(),
        final(state).tools_ready(),
        final(state).plugins_ready(),
        final(state).plugin_cells() == old(state).plugin_cells(),
        final(state).plugin_names() == old(state).plugin_names(),
        final(state).plugins_dir() == old(state).plugins_dir(),
        final(state).installs_dir() == old(state).installs_dir(),
        final(state).cache_dir() == old(state).cache_dir(),
        old(state).tools_ready() ==> final(state).tool_map() == old(state).tool_map(),
        !old(state).tools_ready() ==> final(state).tool_views() == tools_with_plugins(
            scanned_tools(scan_tools(scans@)),
            old(state).plugin_cells(),
            old(state).plugin_cells().dom(),
        ),
        !old(state).tools_ready() ==> forall|k: Seq<char>|
            #[trigger] old(state).resolved_info(k) matches Some(info) ==> final(state).tool_map().dom().contains(k)
                && (info.plugin_type == PluginType::Vfox ==> guessed_backend(*final(state), k) == Some(
                BackendType::Vfox,
            )) && (info.plugin_type == PluginType::Asdf ==> guessed_backend(*final(state), k) == Some(
                BackendType::Asdf,
            )),
{
    if state.tools.is_some() {
        return;
    }
    let mut tools: SortedMap<InstallStateTool> = SortedMap::new();
    let ghost sv = scan_tools(scans@);
    let mut i: usize = 0;
    proof {
        assert(sv.take(0) =~= Seq::<ToolView>::empty());
        assert(tools@.map_values(|t: InstallStateTool| t@) =~= Map::<Seq<char>, ToolView>::empty());
    }
    while i < scans.len()
        invariant
            i <= scans.len(),
            sv == scan_tools(scans@),
            tools.wf(),
            tools@.map_values(|t: InstallStateTool| t@) == scanned_tools(sv.take(i as int)),
        decreases scans.len() - i,
    {
        let scan = &scans[i];
        let meta = match &scan.backend_meta {
            Some(m) => Some(clone_strings(m)),
            None => None,
        };
        let t = InstallStateTool::from_install_dir(scan.dir.as_str(), meta, &scan.version_dirs);
        let ghost before = tools@;
        proof {
            assert(sv.take(i + 1).drop_last() =~= sv.take(i as int));
            assert(sv.take(i + 1).last() == t@);
        }
        if t.versions.len() > 0 {
            let key = t.short.clone();
            tools.insert(key, t);
            proof {
                assert(tools@.map_values(|t: InstallStateTool| t@) =~= before.map_values(
                    |t: InstallStateTool| t@,
                ).insert(sv[i as int].0, sv[i as int]));
            }
        } else {
            proof {
                assert(t@.2.len() == 0);
            }
        }
        i += 1;
    }
    proof {
        assert(sv.take(scans.len() as int) =~= sv);
    }
    let ghost base = scanned_tools(sv);
    let plugins = state.plugins.as_ref().unwrap();
    let ghost cells = plugins@;
    let ghost ks = plugins.keys();
    proof {
        plugins.lemma_keys();
    }
    let ghost mut done: Set<Seq<char>> = Set::empty();
    proof {
        assert(tools@.map_values(|t: InstallStateTool| t@) =~= tools_with_plugins(base, cells, done));
    }
    let n = plugins.len();
    let mut i: usize = 0;
    while i < n
        invariant
            n == ks.len(),
            ks == plugins.keys(),
            cells == plugins@,
            plugins.wf(),
            strictly_sorted(ks),
            forall|k: Seq<char>| #[trigger] cells.dom().contains(k) <==> ks.contains(k),
            i <= n,
            forall|k: Seq<char>| #[trigger] done.contains(k) <==> ks.take(i as int).contains(k),
            tools.wf(),
            tools@.map_values(|t: InstallStateTool| t@) == tools_with_plugins(base, cells, done),
        decreases n - i,
    {
        let key = plugins.key_at(i);
        let cell = plugins.value_at(i);
        let ghost t0 = ks.take(i as int);
        let ghost t1 = ks.take(i + 1);
        let ghost before = tools@.map_values(|t: InstallStateTool| t@);
        proof {
            assert(t1 =~= t0.push(ks[i as int]));
            lemma_sorted_prefix_step(ks, i as int);
            assert(cells.dom().contains(key@)) by {
                assert(ks[i as int] == key@);
            }
        }
        let ghost new_done = done.insert(key@);
        if let Some(info) = cell {
            let full = match info.plugin_type {
                PluginType::Asdf => concat("asdf:", key),
                PluginType::Vfox => concat("vfox:", key),
                PluginType::VfoxBackend => key.to_owned(),
            };
            let tool = match tools.get(key) {
                Some(existing) => InstallStateTool {
                    short: existing.short.clone(),
                    full: Some(full),
                    versions: clone_strings(&existing.versions),
                },
                None => InstallStateTool { short: key.to_owned(), full: Some(full), versions: Vec::new() },
            };
            proof {
                if !before.dom().contains(key@) {
                    assert(tool.versions.deep_view() =~= Seq::<Seq<char>>::empty());
                }
                assert(cells[key@] == Some(*info));
                assert(resolved_among(cells, new_done, key@));
                assert(!resolved_among(cells, done, key@));
                assert(before.dom().contains(key@) == base.dom().contains(key@));
                if base.dom().contains(key@) {
                    assert(before[key@] == base[key@]);
                }
                assert(tool@ == tools_with_plugins(base, cells, new_done)[key@]);
            }
            let ghost tool_view = tool@;
            tools.insert(key.to_owned(), tool);
            proof {
                assert(tools@.map_values(|t: InstallStateTool| t@) =~= before.insert(key@, tool_view));
                assert(tools@.map_values(|t: InstallStateTool| t@) =~= tools_with_plugins(
                    base,
                    cells,
                    new_done,
                ));
            }
        } else {
            proof {
                assert(tools@.map_values(|t: InstallStateTool| t@) =~= tools_with_plugins(
                    base,
                    cells,
                    new_done,
                ));
            }
        }
        proof {
            done = new_done;
        }
        i += 1;
    }
    proof {
        assert(ks.take(n as int) =~= ks);
        assert(done =~= cells.dom());
    }
    state.tools = Some(tools);
    proof {
        let fin = *state;
        assert forall|k: Seq<char>| #[trigger] cells.dom().contains(k) && cells[k] is Some implies fin.tool_map().dom().contains(
            k,
        ) && (cells[k].unwrap().plugin_type == PluginType::Vfox ==> guessed_backend(fin, k) == Some(
            BackendType::Vfox,
        )) && (cells[k].unwrap().plugin_type == PluginType::Asdf ==> guessed_backend(fin, k) == Some(
            BackendType::Asdf,
        )) by {
            assert(resolved_among(cells, cells.dom(), k));
            assert(fin.tool_views().dom().contains(k));
            assert(fin.tool_views()[k] == fin.tool_map()[k]@);
            lemma_plugin_tool_backend(fin, k);
        }
    }
}

/// What the file system says of a plugin directory.
#[derive(Debug, Clone, Copy)]
pub struct PluginDirProbe {
    /// The path exists.
    pub exists: bool,
    /// The path is a directory.
    pub is_dir: bool,
    /// It holds `metadata.lua`.
    pub has_metadata_lua: bool,
    /// It holds `hooks/backend_install.lua`.
    pub has_backend_install_lua: bool,
    /// It holds `bin/list-all`.
    pub has_list_all: bool,
}

/// Why a plugin's type could not be detected.
#[derive(Debug, Clone, Copy, PartialEq, Eq, Structural)]
pub enum DetectError {
    /// The plugin path does not exist.
    DoesNotExist,
    /// The plugin path is not a directory.
    NotADirectory,
    /// Neither `metadata.lua` (vfox) nor `bin/list-all` (asdf) is there.
    UnknownLayout,
}

/// The plugin type of a directory: vfox when it has `metadata.lua` (a vfox
/// backend when it also has `hooks/backend_install.lua`), otherwise asdf when
/// it has `bin/list-all`.
pub open spec fn detected_type(probe: PluginDirProbe) -> Result<PluginType, DetectError> {
    if !probe.exists {
        Err(DetectError::DoesNotExist)
    } else if !probe.is_dir {
        Err(DetectError::NotADirectory)
    } else if probe.has_metadata_lua {
        if probe.has_backend_install_lua {
            Ok(PluginType::VfoxBackend)
        } else {
            Ok(PluginType::Vfox)
        }
    } else if probe.has_list_all {
        Ok(PluginType::Asdf)
    } else {
        Err(DetectError::UnknownLayout)
    }
}

/// What a plugin directory holds decides its type: `metadata.lua` makes it
/// a vfox plugin, a vfox backend plugin exactly when
/// `hooks/backend_install.lua` is there too, whether or not `bin/list-all`
/// is; without `metadata.lua`, `bin/list-all` makes it an asdf plugin; a
/// directory with neither has an unknown layout, and a path that is missing
/// or is no directory has no type.
pub proof fn lemma_detected_type_cases(probe: PluginDirProbe)
    ensures
        !probe.exists ==> detected_type(probe) == Err::<PluginType, DetectError>(
            DetectError::DoesNotExist,
        ),
        probe.exists && !probe.is_dir ==> detected_type(probe) == Err::<PluginType, DetectError>(
            DetectError::NotADirectory,
        ),
        probe.exists && probe.is_dir && probe.has_metadata_lua && probe.has_backend_install_lua
            ==> detected_type(probe) == Ok::<PluginType, DetectError>(PluginType::VfoxBackend),
        probe.exists && probe.is_dir && probe.has_metadata_lua && !probe.has_backend_install_lua
            ==> detected_type(probe) == Ok::<PluginType, DetectError>(PluginType::Vfox),
        probe.exists && probe.is_dir && !probe.has_metadata_lua && probe.has_list_all
            ==> detected_type(probe) == Ok::<PluginType, DetectError>(PluginType::Asdf),
        probe.exists && probe.is_dir && !probe.has_metadata_lua && !probe.has_list_all
            ==> detected_type(probe) == Err::<PluginType, DetectError>(DetectError::UnknownLayout),
{
}

/// Detects the type of a plugin from what its directory holds.
pub fn detect_plugin_type(probe: &PluginDirProbe) -> (r: Result<PluginType, DetectError>)
    ensures
        r == detected_type(*probe),
        !probe.exists ==> r == Err::<PluginType, DetectError>(DetectError::DoesNotExist),
        probe.exists && !probe.is_dir ==> r == Err::<PluginType, DetectError>(
            DetectError::NotADirectory,
        ),
        probe.exists && probe.is_dir && probe.has_metadata_lua && probe.has_backend_install_lua ==> r
            == Ok::<PluginType, DetectError>(PluginType::VfoxBackend),
        probe.exists && probe.is_dir && probe.has_metadata_lua && !probe.has_backend_install_lua ==> r
            == Ok::<PluginType, DetectError>(PluginType::Vfox),
        probe.exists && probe.is_dir && !probe.has_metadata_lua && probe.has_list_all ==> r == Ok::<
            PluginType,
            DetectError,
        >(PluginType::Asdf),
        probe.exists && probe.is_dir && !probe.has_metadata_lua && !probe.has_list_all ==> r == Err::<
            PluginType,
            DetectError,
        >(DetectError::UnknownLayout),
{
    if !probe.exists {
        return Err(DetectError::DoesNotExist);
    }
    if !probe.is_dir {
        return Err(DetectError::NotADirectory);
    }
    if probe.has_metadata_lua {
        if probe.has_backend_install_lua {
            Ok(PluginType::VfoxBackend)
        } else {
            Ok(PluginType::Vfox)
        }
    } else if probe.has_list_all {
        Ok(PluginType::Asdf)
    } else {
        Err(DetectError::UnknownLayout)
    }
}

/// The one plugin that is removed on sight: the gradle plugin of that
/// repository.
pub open spec fn banned_plugin(path: Seq<char>, remote_url: Option<Seq<char>>) -> bool {
    path_ends_with_spec(path, "gradle"@) && remote_url == Some(
        "https://github.com/rfrancis/asdf-gradle.git"@,
    )
}

/// Whether the plugin at `path`, whose git remote is `remote_url`, is banned.
pub fn is_banned_plugin(path: &str, remote_url: Option<&str>) -> (r: bool)
    ensures
        r == banned_plugin(
            path@,
            match remote_url {
                Some(u) => Some(u@),
                None => None,
            },
        ),
{
    if path_ends_with(path, "gradle") {
        if let Some(url) = remote_url {
            return str_eq(url, "https://github.com/rfrancis/asdf-gradle.git");
        }
    }
    false
}

/// The backend metadata file of tool `short`.
pub fn backend_meta_path(dirs: &Dirs, short: &str) -> (r: String)
    ensures
        r@ == path_join_spec(
            path_join_spec(dirs.installs@, kebab_case(short@)),
            ".mise.backend"@,
        ),
{
    let kebab = to_kebab_case(short);
    let dir = path_join(dirs.installs.as_str(), kebab.as_str());
    path_join(dir.as_str(), ".mise.backend")
}

/// The JSON backend metadata file of an older layout, in install directory `dir`.
pub fn legacy_backend_meta_path(dirs: &Dirs, dir: &str) -> (r: String)
    ensures
        r@ == path_join_spec(path_join_spec(dirs.installs@, dir@), ".mise.backend.json"@),
{
    let d = path_join(dirs.installs.as_str(), dir);
    path_join(d.as_str(), ".mise.backend.json")
}

/// The two-line backend metadata `short` and `full`, trimmed.
pub open spec fn meta_doc(short: Seq<char>, full: Seq<char>) -> Seq<char> {
    trim_spec(short + "\n"@ + full)
}

/// The contents that JSON backend metadata `legacy`, found in install
/// directory `dir`, moves to: its `short` (or `dir`) and its `id` on two
/// lines; nothing when it does not parse or has no string `id`.
pub fn migrate_backend_meta_json(dir: &str, legacy: &str) -> (r: Option<String>)
    ensures
        match json_id_and_short(legacy@) {
            Some((Some(full), short)) => r matches Some(doc) && doc@ == meta_doc(
                match short {
                    Some(s) => s,
                    None => dir@,
                },
                full,
            ),
            _ => r is None,
        },
{
    match parse_json_id_and_short(legacy) {
        Some((Some(full), short)) => {
            let short_name = match &short {
                Some(s) => s.as_str(),
                None => dir,
            };
            Some(two_line_doc(short_name, full.as_str()))
        },
        _ => None,
    }
}

fn two_line_doc(short: &str, full: &str) -> (r: String)
    ensures
        r@ == meta_doc(short@, full@),
{
    let first = concat(short, "\n");
    let doc = concat(first.as_str(), full);
    trim(doc.as_str()).to_owned()
}

/// The non-empty lines of backend metadata.
pub fn parse_backend_meta(body: &str) -> (r: Vec<String>)
    ensures
        r.deep_view() == nonempty_lines(body@),
{
    let n = body.unicode_len();
    let mut out: Vec<String> = Vec::new();
    let mut start: usize = 0;
    let mut i: usize = 0;
    proof {
        assert(body@.take(0) =~= Seq::<char>::empty());
        assert(split_on(body@.take(0), '\n').drop_last() =~= Seq::<Seq<char>>::empty());
        assert(out.deep_view() =~= Seq::<Seq<char>>::empty());
    }
    while i < n
        invariant
            n == body@.len(),
            start <= i <= n,
            split_on(body@.take(i as int), '\n').len() >= 1,
            split_on(body@.take(i as int), '\n').last() == body@.subrange(start as int, i as int),
            out.deep_view() == nonempty_lines_of_init(split_on(body@.take(i as int), '\n').drop_last()),
        decreases n - i,
    {
        let c = body.get_char(i);
        let ghost before = split_on(body@.take(i as int), '\n');
        proof {
            assert(body@.take(i + 1).drop_last() =~= body@.take(i as int));
            assert(body@.take(i + 1).last() == c);
        }
        if c == '\n' {
            let ghost after = split_on(body@.take(i + 1), '\n');
            proof {
                assert(after == before.push(Seq::<char>::empty()));
                assert(after.drop_last() =~= before);
                assert(before =~= before.drop_last().push(before.last()));
            }
            let mut end = i;
            if end > start && body.get_char(end - 1) == '\r' {
                end = end - 1;
            }
            let line = body.substring_char(start, end);
            proof {
                assert(line@ =~= strip_cr(before.last()));
            }
            if line.unicode_len() != 0 {
                let ghost prev = out.deep_view();
                out.push(line.to_owned());
                proof {
                    assert(out.deep_view() =~= prev.push(line@));
                }
            }
            start = i + 1;
            proof {
                assert(after.last() =~= body@.subrange(start as int, (i + 1) as int));
            }
        } else {
            proof {
                let after = split_on(body@.take(i + 1), '\n');
                assert(after == before.update(before.len() - 1, before.last().push(c)));
                assert(after.drop_last() =~= before.drop_last());
                assert(after.last() =~= body@.subrange(start as int, (i + 1) as int));
            }
        }
        i += 1;
    }
    let last = body.substring_char(start, n);
    let ghost all = split_on(body@, '\n');
    proof {
        assert(body@.take(n as int) =~= body@);
        assert(all =~= all.drop_last().push(all.last()));
    }
    if last.unicode_len() != 0 {
        let ghost prev = out.deep_view();
        out.push(last.to_owned());
        proof {
            assert(out.deep_view() =~= prev.push(last@));
        }
    }
    out
}

/// What recording the backend of an install writes, and where: the file
/// `.mise.backend` in `install_path`, holding the tool's short name and, on
/// the next line, its full name when that names a core tool, else its full
/// name with options; trimmed.
pub fn write_backend_meta(short: &str, full: &str, full_with_opts: &str, install_path: &str) -> (r: (
    String,
    String,
))
    ensures
        r.0@ == path_join_spec(install_path@, ".mise.backend"@),
        r.1@ == meta_doc(
            short@,
            if seq_starts_with(full@, "core:"@) {
                full@
            } else {
                full_with_opts@
            },
        ),
{
    let doc = if starts_with(full, "core:") {
        two_line_doc(short, full)
    } else {
        two_line_doc(short, full_with_opts)
    };
    (path_join(install_path, ".mise.backend"), doc)
}

/// The marker of an unfinished install of version `v` of tool `short`.
pub fn incomplete_file_path(dirs: &Dirs, short: &str, v: &str) -> (r: String)
    ensures
        r@ == path_join_spec(
            path_join_spec(path_join_spec(dirs.cache@, kebab_case(short@)), v@),
            "incomplete"@,
        ),
{
    let kebab = to_kebab_case(short);
    let a = path_join(dirs.cache.as_str(), kebab.as_str());
    let b = path_join(a.as_str(), v);
    path_join(b.as_str(), "incomplete")
}

/// A leading `v` or `V` does not change where a version is listed among
/// versions: `v` + x and `V` + x normalize to x, as x itself does unless it
/// starts with one of them.
pub proof fn lemma_v_prefix_ignored(x: Seq<char>)
    ensures
        normalized_version(seq!['v'] + x) == x,
        normalized_version(seq!['V'] + x) == x,
        !(x.len() > 0 && (x[0] == 'v' || x[0] == 'V')) ==> normalized_version(x) == x,
{
    assert((seq!['v'] + x).drop_first() =~= x);
    assert((seq!['V'] + x).drop_first() =~= x);
}

/// Every tool found in the install directories is listed under its short
/// name and has at least one version.
pub proof fn lemma_scanned_tools(s: Seq<ToolView>)
    ensures
        forall|k: Seq<char>| #[trigger] scanned_tools(s).dom().contains(k) ==> scanned_tools(s)[k].0
            == k && scanned_tools(s)[k].2.len() > 0,
    decreases s.len(),
{
    if s.len() > 0 {
        let prev = scanned_tools(s.drop_last());
        lemma_scanned_tools(s.drop_last());
        assert forall|k: Seq<char>| #[trigger] scanned_tools(s).dom().contains(k) implies scanned_tools(
            s,
        )[k].0 == k && scanned_tools(s)[k].2.len() > 0 by {
            if k != s.last().0 || s.last().2.len() == 0 {
                assert(prev.dom().contains(k));
            }
        }
    }
}

/// After initialization every tool is listed under its short name, and has
/// a version or belongs to a resolved plugin whose full name it carries.
pub proof fn lemma_initialized_tools(
    scanned: Seq<ToolView>,
    cells: Map<Seq<char>, Option<PluginInfo>>,
)
    ensures
        forall|k: Seq<char>| #[trigger] tools_with_plugins(
            scanned_tools(scanned),
            cells,
            cells.dom(),
        ).dom().contains(k) ==> {
            let t = tools_with_plugins(scanned_tools(scanned), cells, cells.dom())[k];
            &&& t.0 == k
            &&& t.2.len() > 0 || (cells.dom().contains(k) && cells[k] is Some)
            &&& (cells.dom().contains(k) && cells[k] is Some) ==> t.1 == Some(
                plugin_full_name(k, cells[k].unwrap().plugin_type),
            )
        },
{
    lemma_scanned_tools(scanned);
}

/// What is written as backend metadata reads back as the same two lines,
/// for a short and a full name that hold no newline, that start and end
/// without white space, and a short name not ending with a carriage return.
pub proof fn lemma_backend_meta_round_trip(short: Seq<char>, full: Seq<char>)
    requires
        short.len() > 0,
        full.len() > 0,
        forall|j: int| 0 <= j < short.len() ==> short[j] != '\n',
        forall|j: int| 0 <= j < full.len() ==> full[j] != '\n',
        !is_white_space(short[0]),
        !is_white_space(full.last()),
        short.last() != '\r',
    ensures
        nonempty_lines(meta_doc(short, full)) == seq![short, full],
{
    reveal_strlit("\n");
    let d = short + "\n"@ + full;
    assert(d[0] == short[0]);
    assert(leading_ws(d) == 0);
    assert(d.skip(0) =~= d);
    assert(d.last() == full.last());
    assert(trailing_ws(d) == 0);
    assert(d.take(d.len() as int) =~= d);
    assert(meta_doc(short, full) == d);
    lemma_split_on_append(Seq::<char>::empty(), short, '\n');
    assert(Seq::<char>::empty() + short =~= short);
    assert(split_on(Seq::<char>::empty(), '\n') =~= seq![Seq::<char>::empty()]);
    assert(split_on(short, '\n') =~= seq![short]);
    let sn = short + "\n"@;
    assert(sn.drop_last() =~= short);
    assert(split_on(sn, '\n') =~= seq![short, Seq::<char>::empty()]);
    lemma_split_on_append(sn, full, '\n');
    assert(d =~= sn + full);
    assert(split_on(d, '\n') =~= seq![short, full]);
    let pieces = seq![short, full];
    assert(pieces.drop_last() =~= seq![short]);
    assert(seq![short].drop_last() =~= Seq::<Seq<char>>::empty());
    assert(strip_cr(short) == short);
    assert(seq![short].last() == short);
    assert(nonempty_lines_of_init(Seq::<Seq<char>>::empty()) =~= Seq::<Seq<char>>::empty());
    assert(Seq::<Seq<char>>::empty().push(short) =~= seq![short]);
    assert(nonempty_lines_of_init(seq![short]) =~= seq![short]);
    assert(pieces.last() == full);
}

} // verus!
