//! Plugin name normalization: a name loses at most one type prefix.
use vstd::prelude::*;
use crate::plugins::PluginType;
use crate::text::{strip_prefix, strip_prefix_spec};

verus! {

/// `name` without the first of the prefixes `vfox:`, `vfox-backend:` and
/// `asdf:` that it starts with, tried in that order; unchanged when it starts
/// with none of them.
pub open spec fn normalized_name(name: Seq<char>) -> Seq<char> {
    if let Some(rest) = strip_prefix_spec(name, "vfox:"@) {
        rest
    } else if let Some(rest) = strip_prefix_spec(name, "vfox-backend:"@) {
        rest
    } else if let Some(rest) = strip_prefix_spec(name, "asdf:"@) {
        rest
    } else {
        name
    }
}

/// A name made of a plugin type's prefix, `':'` and a rest normalizes to
/// that rest, whatever the rest holds: only the first prefix is stripped.
pub proof fn lemma_normalize_strips_type_prefix(t: PluginType, rest: Seq<char>)
    ensures
        normalized_name(t.type_prefix() + seq![':'] + rest) == rest,
{
    reveal_strlit("asdf");
    reveal_strlit("vfox");
    reveal_strlit("vfox-backend");
    reveal_strlit("vfox:");
    reveal_strlit("asdf:");
    reveal_strlit("vfox-backend:");
    let name = t.type_prefix() + seq![':'] + rest;
    match t {
        PluginType::Asdf => {
            assert(name.take(5) =~= "asdf:"@);
            assert(name.take(5)[0] != "vfox:"@[0]);
            if name.len() >= 13 {
                assert(name.take(13)[0] != "vfox-backend:"@[0]);
            }
            assert(name.skip(5) =~= rest);
        },
        PluginType::Vfox => {
            assert(name.take(5) =~= "vfox:"@);
            assert(name.skip(5) =~= rest);
        },
        PluginType::VfoxBackend => {
            assert(name.take(5)[4] != "vfox:"@[4]);
            assert(name.take(13) =~= "vfox-backend:"@);
            assert(name.skip(13) =~= rest);
        },
    }
}

/// Normalizes a plugin name by stripping one type prefix.
pub fn normalize_plugin_name(name: &str) -> (r: &str)
    ensures
        r@ == normalized_name(name@),
{
    if let Some(rest) = strip_prefix(name, "vfox:") {
        rest
    } else if let Some(rest) = strip_prefix(name, "vfox-backend:") {
        rest
    } else if let Some(rest) = strip_prefix(name, "asdf:") {
        rest
    } else {
        name
    }
}

} // verus!
