//! Plugin kinds, plugin locations and sources, and the lookup of a plugin by
//! its short name.
pub mod names;

use vstd::prelude::*;
use std::cmp::Ordering;
use vstd::std_specs::cmp::PartialEqSpecImpl;
use vstd::std_specs::cmp::PartialOrdSpecImpl;
use crate::paths::{path_eq, path_eq_spec};
use crate::text::{
    char_pos, contains_char, first_segment, first_segment_of, lemma_char_pos, lemma_char_pos_unique,
    lemma_first_segment_of_joined, lemma_lex_order_props, lemma_lex_order_transitive,
    lemma_split_once_rejoins, lex_order, split_once, split_once_spec, str_eq, str_order,
};
use crate::toolset::install_state::{get_plugin_path, list_plugins, InstallState, PluginInfo};

verus! {

/// The kind of a plugin.
#[derive(Debug, Clone, Copy, PartialEq, Eq, Structural)]
pub enum PluginType {
    Asdf,
    Vfox,
    VfoxBackend,
}

/// Why a plugin could not be had.
#[derive(Debug)]
pub enum PluginError {
    /// A full tool name whose prefix names no plugin type.
    UnknownPluginType(String),
    /// The named plugin is not installed.
    PluginNotInstalled(String),
}

impl PluginType {
    /// The prefix that names this type in a full tool name.
    pub open spec fn type_prefix(self) -> Seq<char> {
        match self {
            PluginType::Asdf => "asdf"@,
            PluginType::Vfox => "vfox"@,
            PluginType::VfoxBackend => "vfox-backend"@,
        }
    }

    /// The type that a full-name prefix names, if any.
    pub open spec fn from_prefix(p: Seq<char>) -> Option<PluginType> {
        if p == "asdf"@ {
            Some(PluginType::Asdf)
        } else if p == "vfox"@ {
            Some(PluginType::Vfox)
        } else if p == "vfox-backend"@ {
            Some(PluginType::VfoxBackend)
        } else {
            None
        }
    }

    /// The variant's own name, as it is printed and parsed.
    pub open spec fn variant_name(self) -> Seq<char> {
        match self {
            PluginType::Asdf => "Asdf"@,
            PluginType::Vfox => "Vfox"@,
            PluginType::VfoxBackend => "VfoxBackend"@,
        }
    }

    /// A type's prefix, alone or followed by `':'` and anything, names that
    /// type again.
    pub proof fn lemma_from_full_prefix(self, rest: Seq<char>)
        ensures
            PluginType::from_prefix(first_segment(self.type_prefix(), ':')) == Some(self),
            PluginType::from_prefix(first_segment(self.type_prefix() + seq![':'] + rest, ':'))
                == Some(self),
    {
        reveal_strlit("asdf");
        reveal_strlit("vfox");
        reveal_strlit("vfox-backend");
        let p = self.type_prefix();
        assert(forall|j: int| 0 <= j < p.len() ==> p[j] != ':');
        lemma_first_segment_of_joined(p, ':', rest);
        lemma_char_pos_unique(p, ':', -1);
        assert("asdf"@[0] != "vfox"@[0]);
        assert("asdf"@[0] != "vfox-backend"@[0]);
        assert("vfox"@.len() != "vfox-backend"@.len());
    }

    /// The type named by the part of `full` before its first `':'`.
    pub fn from_full(full: &str) -> (r: Result<PluginType, PluginError>)
        ensures
            match PluginType::from_prefix(first_segment(full@, ':')) {
                Some(t) => r == Ok::<PluginType, PluginError>(t),
                None => r matches Err(PluginError::UnknownPluginType(s)) && s@ == full@,
            },
    {
        let prefix = first_segment_of(full, ':');
        if str_eq(prefix, "asdf") {
            Ok(PluginType::Asdf)
        } else if str_eq(prefix, "vfox") {
            Ok(PluginType::Vfox)
        } else if str_eq(prefix, "vfox-backend") {
            Ok(PluginType::VfoxBackend)
        } else {
            Err(PluginError::UnknownPluginType(full.to_owned()))
        }
    }

    /// The variant's name.
    pub fn as_str(&self) -> (r: &'static str)
        ensures
            r@ == self.variant_name(),
    {
        match self {
            PluginType::Asdf => "Asdf",
            PluginType::Vfox => "Vfox",
            PluginType::VfoxBackend => "VfoxBackend",
        }
    }

    /// The type whose variant name is `s`, if any.
    pub fn parse_name(s: &str) -> (r: Option<PluginType>)
        ensures
            match r {
                Some(t) => t.variant_name() == s@,
                None => forall|t: PluginType| t.variant_name() != s@,
            },
    {
        if str_eq(s, "Asdf") {
            Some(PluginType::Asdf)
        } else if str_eq(s, "Vfox") {
            Some(PluginType::Vfox)
        } else if str_eq(s, "VfoxBackend") {
            Some(PluginType::VfoxBackend)
        } else {
            proof {
                assert forall|t: PluginType| t.variant_name() != s@ by {
                    match t {
                        PluginType::Asdf => {},
                        PluginType::Vfox => {},
                        PluginType::VfoxBackend => {},
                    }
                }
            }
            None
        }
    }

    /// A plugin of this type named `short`, at `custom_path` when one is
    /// given and otherwise where the install state places `short`.
    pub fn plugin(&self, short: String, custom_path: Option<String>, state: &InstallState) -> (r:
        PluginEnum)
        requires
            state.wf(),
            custom_path is None ==> state.plugins_ready(),
        ensures
            r.plugin_type_of() == *self,
            r.name_view() == short@,
            r.path_view() == match custom_path {
                Some(p) => p@,
                None => state.plugin_path_and_name_spec(short@).1,
            },
    {
        let path = match custom_path {
            Some(p) => p,
            None => get_plugin_path(state, short.as_str()),
        };
        match self {
            PluginType::Asdf => PluginEnum::Asdf(AsdfPlugin::new(short, path)),
            PluginType::Vfox => PluginEnum::Vfox(VfoxPlugin::new(short, path)),
            PluginType::VfoxBackend => PluginEnum::VfoxBackend(VfoxPlugin::new(short, path)),
        }
    }
}

/// Where a plugin comes from: a remote URL or a local path.
#[derive(Debug)]
pub enum PluginLocation {
    /// Remote plugin given by its URL.
    Remote(String),
    /// Local plugin given by its path.
    Local(String),
}

impl PluginLocation {
    /// Whether this is a local plugin.
    pub fn is_local(&self) -> (r: bool)
        ensures
            r == (self is Local),
    {
        matches!(self, PluginLocation::Local(_))
    }

    /// Whether this is a remote plugin.
    pub fn is_remote(&self) -> (r: bool)
        ensures
            r == (self is Remote),
    {
        matches!(self, PluginLocation::Remote(_))
    }

    /// The URL of a remote plugin.
    pub fn as_remote(&self) -> (r: Option<&str>)
        ensures
            match self {
                PluginLocation::Remote(url) => r matches Some(u) && u@ == url@,
                PluginLocation::Local(_) => r is None,
            },
    {
        match self {
            PluginLocation::Remote(url) => Some(url.as_str()),
            PluginLocation::Local(_) => None,
        }
    }

    /// The path of a local plugin.
    pub fn as_local(&self) -> (r: Option<&str>)
        ensures
            match self {
                PluginLocation::Local(path) => r matches Some(p) && p@ == path@,
                PluginLocation::Remote(_) => r is None,
            },
    {
        match self {
            PluginLocation::Local(path) => Some(path.as_str()),
            PluginLocation::Remote(_) => None,
        }
    }

    /// Two locations are equal when both are remote with the same URL, or
    /// both are local with paths of the same components.
    pub open spec fn same_location(&self, other: &PluginLocation) -> bool {
        match (self, other) {
            (PluginLocation::Remote(a), PluginLocation::Remote(b)) => a@ == b@,
            (PluginLocation::Local(a), PluginLocation::Local(b)) => path_eq_spec(a@, b@),
            _ => false,
        }
    }
}

impl Clone for PluginLocation {
    fn clone(&self) -> (r: Self)
        ensures
            r == *self,
    {
        match self {
            PluginLocation::Remote(url) => PluginLocation::Remote(url.clone()),
            PluginLocation::Local(path) => PluginLocation::Local(path.clone()),
        }
    }
}

/// Location equality is an equivalence: reflexive, symmetric and transitive.
pub proof fn lemma_same_location_equivalence(a: PluginLocation, b: PluginLocation, c: PluginLocation)
    ensures
        a.same_location(&a),
        a.same_location(&b) ==> b.same_location(&a),
        a.same_location(&b) && b.same_location(&c) ==> a.same_location(&c),
{
}

/// A location is local or remote, never both.
pub proof fn lemma_location_kind(a: PluginLocation)
    ensures
        (a is Local) != (a is Remote),
{
}

impl PartialEq for PluginLocation {
    fn eq(&self, other: &Self) -> (r: bool) {
        match (self, other) {
            (PluginLocation::Remote(a), PluginLocation::Remote(b)) => str_eq(a.as_str(), b.as_str()),
            (PluginLocation::Local(a), PluginLocation::Local(b)) => path_eq(a.as_str(), b.as_str()),
            _ => false,
        }
    }
}

impl PartialEqSpecImpl for PluginLocation {
    open spec fn obeys_eq_spec() -> bool {
        true
    }

    open spec fn eq_spec(&self, other: &PluginLocation) -> bool {
        self.same_location(other)
    }
}

impl Eq for PluginLocation {

}

/// An asdf plugin: its name and the directory it lives in.
#[derive(Debug)]
pub struct AsdfPlugin {
    pub name: String,
    pub plugin_path: String,
}

impl AsdfPlugin {
    pub fn new(name: String, plugin_path: String) -> (r: Self)
        ensures
            r.name == name,
            r.plugin_path == plugin_path,
    {
        AsdfPlugin { name, plugin_path }
    }
}

/// A vfox plugin: its name and the directory it lives in.
#[derive(Debug)]
pub struct VfoxPlugin {
    pub name: String,
    pub plugin_path: String,
}

impl VfoxPlugin {
    pub fn new(name: String, plugin_path: String) -> (r: Self)
        ensures
            r.name == name,
            r.plugin_path == plugin_path,
    {
        VfoxPlugin { name, plugin_path }
    }
}

/// A plugin of one of the three kinds.
#[derive(Debug)]
pub enum PluginEnum {
    Asdf(AsdfPlugin),
    Vfox(VfoxPlugin),
    VfoxBackend(VfoxPlugin),
}

impl PluginEnum {
    pub open spec fn name_view(&self) -> Seq<char> {
        match self {
            PluginEnum::Asdf(p) => p.name@,
            PluginEnum::Vfox(p) => p.name@,
            PluginEnum::VfoxBackend(p) => p.name@,
        }
    }

    pub open spec fn path_view(&self) -> Seq<char> {
        match self {
            PluginEnum::Asdf(p) => p.plugin_path@,
            PluginEnum::Vfox(p) => p.plugin_path@,
            PluginEnum::VfoxBackend(p) => p.plugin_path@,
        }
    }

    pub open spec fn plugin_type_of(&self) -> PluginType {
        match self {
            PluginEnum::Asdf(_) => PluginType::Asdf,
            PluginEnum::Vfox(_) => PluginType::Vfox,
            PluginEnum::VfoxBackend(_) => PluginType::VfoxBackend,
        }
    }

    /// The plugin's name.
    pub fn name(&self) -> (r: &str)
        ensures
            r@ == self.name_view(),
    {
        match self {
            PluginEnum::Asdf(plugin) => plugin.name.as_str(),
            PluginEnum::Vfox(plugin) => plugin.name.as_str(),
            PluginEnum::VfoxBackend(plugin) => plugin.name.as_str(),
        }
    }

    /// The directory the plugin lives in.
    pub fn path(&self) -> (r: String)
        ensures
            r@ == self.path_view(),
    {
        match self {
            PluginEnum::Asdf(plugin) => plugin.plugin_path.clone(),
            PluginEnum::Vfox(plugin) => plugin.plugin_path.clone(),
            PluginEnum::VfoxBackend(plugin) => plugin.plugin_path.clone(),
        }
    }

    /// The plugin's kind.
    pub fn get_plugin_type(&self) -> (r: PluginType)
        ensures
            r == self.plugin_type_of(),
    {
        match self {
            PluginEnum::Asdf(_) => PluginType::Asdf,
            PluginEnum::Vfox(_) => PluginType::Vfox,
            PluginEnum::VfoxBackend(_) => PluginType::VfoxBackend,
        }
    }

    /// Fails with `PluginNotInstalled` and the plugin's name exactly when
    /// `installed`, the answer of the plugin's installation check, is false.
    pub fn is_installed_err(&self, installed: bool) -> (r: Result<(), PluginError>)
        ensures
            installed ==> r is Ok,
            !installed ==> (r matches Err(PluginError::PluginNotInstalled(n)) && n@ == self.name_view()),
    {
        if !installed {
            return Err(PluginError::PluginNotInstalled(self.name().to_owned()));
        }
        Ok(())
    }

    /// The plugin as it is printed: its name.
    pub fn to_string(&self) -> (r: String)
        ensures
            r@ == self.name_view(),
    {
        self.name().to_owned()
    }

    /// Plugins are ordered by name.
    pub open spec fn name_order(&self, other: &PluginEnum) -> Option<Ordering> {
        let c = lex_order(self.name_view(), other.name_view());
        if c < 0 {
            Some(Ordering::Less)
        } else if c == 0 {
            Some(Ordering::Equal)
        } else {
            Some(Ordering::Greater)
        }
    }
}

/// The order of plugins is that of their names: two plugins are equal
/// exactly when their order is `Equal`, reversing the operands reverses the
/// order, and `Less` is transitive.
pub proof fn lemma_plugin_order(a: PluginEnum, b: PluginEnum, c: PluginEnum)
    ensures
        (a.name_order(&b) == Some(Ordering::Equal)) <==> a.name_view() == b.name_view(),
        (a.name_order(&b) == Some(Ordering::Less)) <==> (b.name_order(&a) == Some(
            Ordering::Greater,
        )),
        a.name_order(&b) == Some(Ordering::Less) && b.name_order(&c) == Some(Ordering::Less)
            ==> a.name_order(&c) == Some(Ordering::Less),
{
    lemma_lex_order_props(a.name_view(), b.name_view());
    if a.name_order(&b) == Some(Ordering::Less) && b.name_order(&c) == Some(Ordering::Less) {
        lemma_lex_order_transitive(a.name_view(), b.name_view(), c.name_view());
    }
}

impl PartialEq for PluginEnum {
    fn eq(&self, other: &Self) -> (r: bool) {
        str_eq(self.name(), other.name())
    }
}

impl PartialEqSpecImpl for PluginEnum {
    open spec fn obeys_eq_spec() -> bool {
        true
    }

    open spec fn eq_spec(&self, other: &PluginEnum) -> bool {
        self.name_view() == other.name_view()
    }
}

impl Eq for PluginEnum {

}

impl PartialOrd for PluginEnum {
    fn partial_cmp(&self, other: &Self) -> (r: Option<Ordering>) {
        let c = str_order(self.name(), other.name());
        if c < 0 {
            Some(Ordering::Less)
        } else if c == 0 {
            Some(Ordering::Equal)
        } else {
            Some(Ordering::Greater)
        }
    }
}

impl PartialOrdSpecImpl for PluginEnum {
    open spec fn obeys_partial_cmp_spec() -> bool {
        true
    }

    open spec fn partial_cmp_spec(&self, other: &PluginEnum) -> Option<Ordering> {
        self.name_order(other)
    }
}

/// Where a plugin's code is fetched from.
#[derive(Debug)]
pub enum PluginSource {
    /// Git repository with URL and optional ref
    Git { url: String, git_ref: Option<String> },
    /// Zip file accessible via HTTPS
    Zip { url: String },
}

/// Whether the lowercase form of `s` ends with `.zip`. Only `.`, `z`, `i`
/// and `p` and the ASCII capitals `Z`, `I`, `P` have lowercase forms that
/// end with those characters, so the test looks at the last four characters.
pub open spec fn is_zip_path(s: Seq<char>) -> bool {
    let n = s.len();
    &&& n >= 4
    &&& s[n - 4] == '.'
    &&& (s[n - 3] == 'z' || s[n - 3] == 'Z')
    &&& (s[n - 2] == 'i' || s[n - 2] == 'I')
    &&& (s[n - 1] == 'p' || s[n - 1] == 'P')
}

/// The part of a repository address before any query (`?`) or fragment (`#`).
pub open spec fn url_path_of(repository: Seq<char>) -> Seq<char> {
    first_segment(first_segment(repository, '?'), '#')
}

fn is_zip_url_path(s: &str) -> (r: bool)
    ensures
        r == is_zip_path(s@),
{
    let n = s.unicode_len();
    if n < 4 {
        return false;
    }
    let a = s.get_char(n - 4);
    let b = s.get_char(n - 3);
    let c = s.get_char(n - 2);
    let d = s.get_char(n - 1);
    a == '.' && (b == 'z' || b == 'Z') && (c == 'i' || c == 'I') && (d == 'p' || d == 'P')
}

/// Splits a git address at its first `#` into the URL and the ref.
pub fn split_url_and_ref(url: &str) -> (r: (String, Option<String>))
    ensures
        match split_once_spec(url@, '#') {
            Some((u, g)) => r.0@ == u && (r.1 matches Some(g2) && g2@ == g),
            None => r.0@ == url@ && r.1 is None,
        },
{
    match split_once(url, '#') {
        Some((u, g)) => (u.to_owned(), Some(g.to_owned())),
        None => (url.to_owned(), None),
    }
}

/// `r` is the source that the address `repository` describes: a zip source
/// of the whole address when its path ends with `.zip` in any case, and
/// otherwise a git source split at the first `#` into URL and ref.
pub open spec fn parsed_source(repository: Seq<char>, r: PluginSource) -> bool {
    if is_zip_path(url_path_of(repository)) {
        r matches PluginSource::Zip { url } && url@ == repository
    } else {
        r matches PluginSource::Git { url, git_ref } && match split_once_spec(repository, '#') {
            Some((u, g)) => url@ == u && (git_ref matches Some(g2) && g2@ == g),
            None => url@ == repository && git_ref is None,
        }
    }
}

/// Parsing an address loses nothing: a zip source keeps the whole address; a
/// git source's URL, joined to its ref by `#`, gives the address back, the
/// URL holding no `#`; a git source without a ref keeps an address that
/// holds no `#`.
pub proof fn lemma_parsed_source_keeps_address(repository: Seq<char>, r: PluginSource)
    requires
        parsed_source(repository, r),
    ensures
        r matches PluginSource::Zip { url } ==> url@ == repository,
        r matches PluginSource::Git { url, git_ref } ==> match git_ref {
            Some(g) => url@ + seq!['#'] + g@ == repository && char_pos(url@, '#') < 0,
            None => url@ == repository && char_pos(repository, '#') < 0,
        },
{
    lemma_split_once_rejoins(repository, '#');
}

/// The ASCII capital of a lowercase ASCII letter; any other character as it is.
pub open spec fn ascii_upper(c: char) -> char {
    if 'a' <= c && c <= 'z' {
        ((c as u32) - 32) as char
    } else {
        c
    }
}

/// `s` with its ASCII letters in capitals.
pub open spec fn ascii_uppercase(s: Seq<char>) -> Seq<char> {
    s.map_values(|c: char| ascii_upper(c))
}

proof fn lemma_ascii_upper_char(x: char)
    ensures
        ascii_upper(x) == '?' <==> x == '?',
        ascii_upper(x) == '#' <==> x == '#',
        ascii_upper(x) == '.' <==> x == '.',
        (ascii_upper(x) == 'Z' || ascii_upper(x) == 'z') <==> (x == 'z' || x == 'Z'),
        (ascii_upper(x) == 'I' || ascii_upper(x) == 'i') <==> (x == 'i' || x == 'I'),
        (ascii_upper(x) == 'P' || ascii_upper(x) == 'p') <==> (x == 'p' || x == 'P'),
{
}

/// Upper-casing leaves the position of a character that is no letter.
proof fn lemma_char_pos_upper(s: Seq<char>, c: char)
    requires
        forall|x: char| ascii_upper(x) == c <==> x == c,
    ensures
        char_pos(ascii_uppercase(s), c) == char_pos(s, c),
    decreases s.len(),
{
    if s.len() > 0 {
        assert(ascii_uppercase(s).drop_first() =~= ascii_uppercase(s.drop_first()));
        lemma_char_pos_upper(s.drop_first(), c);
    }
}

/// The first segment before a non-letter commutes with upper-casing.
proof fn lemma_first_segment_upper(s: Seq<char>, c: char)
    requires
        forall|x: char| ascii_upper(x) == c <==> x == c,
    ensures
        first_segment(ascii_uppercase(s), c) == ascii_uppercase(first_segment(s, c)),
{
    lemma_char_pos_upper(s, c);
    lemma_char_pos(s, c);
    if char_pos(s, c) >= 0 {
        assert(ascii_uppercase(s).take(char_pos(s, c)) =~= ascii_uppercase(s.take(char_pos(s, c))));
    }
}

/// Appending `c` and anything does not change the first segment before `c`.
proof fn lemma_first_segment_append(s: Seq<char>, c: char, q: Seq<char>)
    ensures
        first_segment(s + seq![c] + q, c) == first_segment(s, c),
{
    let t = s + seq![c] + q;
    lemma_char_pos(s, c);
    if char_pos(s, c) >= 0 {
        let p = char_pos(s, c);
        assert forall|j: int| 0 <= j < t.len() && j < p implies t[j] != c by {
            assert(t[j] == s[j]);
        }
        lemma_char_pos_unique(t, c, p);
        assert(t.take(p) =~= s.take(p));
    } else {
        assert forall|j: int| 0 <= j < t.len() && j < s.len() implies t[j] != c by {
            assert(t[j] == s[j]);
        }
        lemma_char_pos_unique(t, c, s.len() as int);
        assert(t.take(s.len() as int) =~= s);
    }
}

/// Whether an address is a zip source does not change when a query is
/// appended to it, nor when its ASCII letters are put in capitals.
pub proof fn lemma_zip_kind_stable(
    repository: Seq<char>,
    query: Seq<char>,
    r: PluginSource,
    with_query: PluginSource,
    upper: PluginSource,
)
    requires
        parsed_source(repository, r),
        parsed_source(repository + seq!['?'] + query, with_query),
        parsed_source(ascii_uppercase(repository), upper),
    ensures
        (r is Zip) == (with_query is Zip),
        (r is Zip) == (upper is Zip),
{
    lemma_first_segment_append(repository, '?', query);
    assert forall|x: char| ascii_upper(x) == '?' <==> x == '?' by {
        lemma_ascii_upper_char(x);
    }
    assert forall|x: char| ascii_upper(x) == '#' <==> x == '#' by {
        lemma_ascii_upper_char(x);
    }
    lemma_first_segment_upper(repository, '?');
    let f = first_segment(repository, '?');
    lemma_first_segment_upper(f, '#');
    let p = url_path_of(repository);
    let up = ascii_uppercase(p);
    assert(url_path_of(ascii_uppercase(repository)) == up);
    if p.len() >= 4 {
        let n = p.len();
        lemma_ascii_upper_char(p[n - 4]);
        lemma_ascii_upper_char(p[n - 3]);
        lemma_ascii_upper_char(p[n - 2]);
        lemma_ascii_upper_char(p[n - 1]);
    }
    assert(is_zip_path(up) == is_zip_path(p));
}

impl PluginSource {
    /// A zip source when the address, without query and fragment, ends with
    /// `.zip` in any case; otherwise a git source, whose ref is what follows
    /// the first `#`.
    pub fn parse(repository: &str) -> (r: PluginSource)
        ensures
            parsed_source(repository@, r),
    {
        let url_path = first_segment_of(first_segment_of(repository, '?'), '#');
        if is_zip_url_path(url_path) {
            return PluginSource::Zip { url: repository.to_owned() };
        }
        let (url, git_ref) = split_url_and_ref(repository);
        PluginSource::Git { url, git_ref }
    }
}

/// The lookup key of `short`: its plugin part when `short` has the form
/// `plugin:tool` and that plugin is resolved, otherwise `short` itself.
pub open spec fn lookup_key(state: InstallState, short: Seq<char>) -> Seq<char> {
    match split_once_spec(short, ':') {
        Some((name, _)) => if state.resolved_info(name) is Some {
            name
        } else {
            short
        },
        None => short,
    }
}

/// The plugin name and the full name of `short`: the parts around its first
/// `':'`, or `short` twice when it has none.
pub open spec fn name_and_full(short: Seq<char>) -> (Seq<char>, Seq<char>) {
    match split_once_spec(short, ':') {
        Some((name, full)) => (name, full),
        None => (short, short),
    }
}

/// The plugin for `short`. A resolved plugin found under the lookup key
/// gives its kind and its path; otherwise the kind comes from the full name
/// and the path from the install state.
pub fn get(state: &InstallState, short: &str) -> (r: Result<PluginEnum, PluginError>)
    requires
        state.wf(),
        state.plugins_ready(),
    ensures
        ({
            let (name, full) = name_and_full(short@);
            match state.resolved_info(lookup_key(*state, short@)) {
                Some(info) => r matches Ok(p) && p.name_view() == name && p.plugin_type_of()
                    == info.plugin_type && p.path_view() == info.path@,
                None => match PluginType::from_prefix(first_segment(full, ':')) {
                    Some(t) => r matches Ok(p) && p.name_view() == name && p.plugin_type_of() == t
                        && p.path_view() == state.plugin_path_and_name_spec(name).1,
                    None => r matches Err(PluginError::UnknownPluginType(s)) && s@ == full,
                },
            }
        }),
{
    let (name, full) = match split_once(short, ':') {
        Some((n, f)) => (n, f),
        None => (short, short),
    };
    let plugins = list_plugins(state);
    let plugin_lookup_key = if contains_char(short, ':') {
        if plugins.get(name).is_some() {
            name
        } else {
            short
        }
    } else {
        short
    };
    let (plugin_type, custom_path) = match plugins.get(plugin_lookup_key) {
        Some(info) => (info.plugin_type, Some(info.path.clone())),
        None => (PluginType::from_full(full)?, None),
    };
    Ok(plugin_type.plugin(name.to_owned(), custom_path, state))
}

} // verus!
