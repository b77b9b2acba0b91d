//! The backend kinds that a full tool name can name.
use vstd::prelude::*;
use crate::text::{first_segment, first_segment_of, lemma_char_pos_unique, lemma_first_segment_of_joined, str_eq};

verus! {

/// The backend that installs a tool.
#[derive(Debug)]
pub enum BackendType {
    Aqua,
    Asdf,
    Cargo,
    Core,
    Dotnet,
    Gem,
    Github,
    Gitlab,
    Go,
    Npm,
    Pipx,
    Spm,
    Http,
    Ubi,
    Vfox,
    /// A backend provided by the named vfox backend plugin.
    VfoxBackend(String),
    Unknown,
}

/// The backend named by a full-name prefix; `Unknown` for any other prefix.
pub open spec fn backend_for_prefix(p: Seq<char>) -> BackendType {
    if p == "aqua"@ {
        BackendType::Aqua
    } else if p == "asdf"@ {
        BackendType::Asdf
    } else if p == "cargo"@ {
        BackendType::Cargo
    } else if p == "core"@ {
        BackendType::Core
    } else if p == "dotnet"@ {
        BackendType::Dotnet
    } else if p == "gem"@ {
        BackendType::Gem
    } else if p == "github"@ {
        BackendType::Github
    } else if p == "gitlab"@ {
        BackendType::Gitlab
    } else if p == "go"@ {
        BackendType::Go
    } else if p == "npm"@ {
        BackendType::Npm
    } else if p == "pipx"@ {
        BackendType::Pipx
    } else if p == "spm"@ {
        BackendType::Spm
    } else if p == "http"@ {
        BackendType::Http
    } else if p == "ubi"@ {
        BackendType::Ubi
    } else if p == "vfox"@ {
        BackendType::Vfox
    } else {
        BackendType::Unknown
    }
}

/// The prefix that names a backend kind in a full tool name; a vfox backend
/// plugin's backend and the unknown one have none.
pub open spec fn backend_name(k: BackendType) -> Option<Seq<char>> {
    match k {
        BackendType::Aqua => Some("aqua"@),
        BackendType::Asdf => Some("asdf"@),
        BackendType::Cargo => Some("cargo"@),
        BackendType::Core => Some("core"@),
        BackendType::Dotnet => Some("dotnet"@),
        BackendType::Gem => Some("gem"@),
        BackendType::Github => Some("github"@),
        BackendType::Gitlab => Some("gitlab"@),
        BackendType::Go => Some("go"@),
        BackendType::Npm => Some("npm"@),
        BackendType::Pipx => Some("pipx"@),
        BackendType::Spm => Some("spm"@),
        BackendType::Http => Some("http"@),
        BackendType::Ubi => Some("ubi"@),
        BackendType::Vfox => Some("vfox"@),
        BackendType::VfoxBackend(_) => None,
        BackendType::Unknown => None,
    }
}

/// The letters that tell the backend names apart.
proof fn lemma_backend_name_letters()
    ensures
        "aqua"@.len() == 4,
        "aqua"@[0] == 'a',
        "asdf"@.len() == 4,
        "asdf"@[0] == 'a',
        "cargo"@.len() == 5,
        "cargo"@[0] == 'c',
        "core"@.len() == 4,
        "core"@[0] == 'c',
        "dotnet"@.len() == 6,
        "dotnet"@[0] == 'd',
        "gem"@.len() == 3,
        "gem"@[0] == 'g',
        "github"@.len() == 6,
        "github"@[0] == 'g',
        "gitlab"@.len() == 6,
        "gitlab"@[0] == 'g',
        "go"@.len() == 2,
        "go"@[0] == 'g',
        "npm"@.len() == 3,
        "npm"@[0] == 'n',
        "pipx"@.len() == 4,
        "pipx"@[0] == 'p',
        "spm"@.len() == 3,
        "spm"@[0] == 's',
        "http"@.len() == 4,
        "http"@[0] == 'h',
        "ubi"@.len() == 3,
        "ubi"@[0] == 'u',
        "vfox"@.len() == 4,
        "vfox"@[0] == 'v',
        "aqua"@[1] == 'q',
        "asdf"@[1] == 's',
        "github"@[3] == 'h',
        "gitlab"@[3] == 'l',
{
    reveal_strlit("aqua");
    reveal_strlit("asdf");
    reveal_strlit("cargo");
    reveal_strlit("core");
    reveal_strlit("dotnet");
    reveal_strlit("gem");
    reveal_strlit("github");
    reveal_strlit("gitlab");
    reveal_strlit("go");
    reveal_strlit("npm");
    reveal_strlit("pipx");
    reveal_strlit("spm");
    reveal_strlit("http");
    reveal_strlit("ubi");
    reveal_strlit("vfox");
}

/// A full name `n:x`, where `n` names backend kind `k`, guesses `k`, for
/// every `x`; `n` itself, with no `:`, guesses `k` too.
pub proof fn lemma_guess_named_prefix(k: BackendType, rest: Seq<char>)
    requires
        backend_name(k) is Some,
    ensures
        backend_for_prefix(first_segment(backend_name(k).unwrap() + ":"@ + rest, ':')) == k,
        backend_for_prefix(first_segment(backend_name(k).unwrap(), ':')) == k,
        backend_for_prefix(backend_name(k).unwrap()) == k,
{
    reveal_strlit(":");
    reveal_strlit("aqua");
    reveal_strlit("asdf");
    reveal_strlit("cargo");
    reveal_strlit("core");
    reveal_strlit("dotnet");
    reveal_strlit("gem");
    reveal_strlit("github");
    reveal_strlit("gitlab");
    reveal_strlit("go");
    reveal_strlit("npm");
    reveal_strlit("pipx");
    reveal_strlit("spm");
    reveal_strlit("http");
    reveal_strlit("ubi");
    reveal_strlit("vfox");
    lemma_backend_name_letters();
    let n = backend_name(k).unwrap();
    assert(":"@ =~= seq![':']);
    lemma_first_segment_of_joined(n, ':', rest);
    lemma_first_segment_of_joined(n, ':', Seq::<char>::empty());
    assert(n + seq![':'] + Seq::<char>::empty() =~= n + seq![':']);
    lemma_char_pos_unique(n, ':', -1);
    assert(first_segment(n, ':') == n);
    assert(backend_for_prefix(n) == k);
}

/// A prefix gives the backend kind it is the name of, and a prefix that is
/// the name of no kind gives `Unknown`.
pub proof fn lemma_backend_for_prefix_names(p: Seq<char>)
    ensures
        forall|k: BackendType| #[trigger] backend_name(k) == Some(p) ==> backend_for_prefix(p) == k,
        backend_for_prefix(p) is Unknown || backend_name(backend_for_prefix(p)) == Some(p),
        backend_for_prefix(p) is Unknown <==> forall|k: BackendType| #[trigger] backend_name(k) != Some(
            p,
        ),
{
    assert forall|k: BackendType| #[trigger] backend_name(k) == Some(p) implies backend_for_prefix(p)
        == k by {
        lemma_guess_named_prefix(k, Seq::<char>::empty());
    }
    if backend_for_prefix(p) is Unknown {
        assert forall|k: BackendType| #[trigger] backend_name(k) != Some(p) by {
            if backend_name(k) == Some(p) {
                lemma_guess_named_prefix(k, Seq::<char>::empty());
            }
        }
    } else {
        assert(backend_name(backend_for_prefix(p)) == Some(p));
    }
}

impl Clone for BackendType {
    fn clone(&self) -> (r: Self)
        ensures
            r == *self,
    {
        match self {
            BackendType::Aqua => BackendType::Aqua,
            BackendType::Asdf => BackendType::Asdf,
            BackendType::Cargo => BackendType::Cargo,
            BackendType::Core => BackendType::Core,
            BackendType::Dotnet => BackendType::Dotnet,
            BackendType::Gem => BackendType::Gem,
            BackendType::Github => BackendType::Github,
            BackendType::Gitlab => BackendType::Gitlab,
            BackendType::Go => BackendType::Go,
            BackendType::Npm => BackendType::Npm,
            BackendType::Pipx => BackendType::Pipx,
            BackendType::Spm => BackendType::Spm,
            BackendType::Http => BackendType::Http,
            BackendType::Ubi => BackendType::Ubi,
            BackendType::Vfox => BackendType::Vfox,
            BackendType::VfoxBackend(name) => BackendType::VfoxBackend(name.clone()),
            BackendType::Unknown => BackendType::Unknown,
        }
    }
}

impl BackendType {
    /// The backend named by the part of `full` before its first `':'`.
    pub fn guess(full: &str) -> (r: BackendType)
        ensures
            r == backend_for_prefix(first_segment(full@, ':')),
            forall|k: BackendType| #[trigger] backend_name(k) == Some(first_segment(full@, ':')) ==> r
                == k,
            r is Unknown <==> forall|k: BackendType| #[trigger] backend_name(k) != Some(
                first_segment(full@, ':'),
            ),
            r is Unknown || backend_name(r) == Some(first_segment(full@, ':')),
    {
        proof {
            lemma_backend_for_prefix_names(first_segment(full@, ':'));
        }
        let p = first_segment_of(full, ':');
        if str_eq(p, "aqua") {
            BackendType::Aqua
        } else if str_eq(p, "asdf") {
            BackendType::Asdf
        } else if str_eq(p, "cargo") {
            BackendType::Cargo
        } else if str_eq(p, "core") {
            BackendType::Core
        } else if str_eq(p, "dotnet") {
            BackendType::Dotnet
        } else if str_eq(p, "gem") {
            BackendType::Gem
        } else if str_eq(p, "github") {
            BackendType::Github
        } else if str_eq(p, "gitlab") {
            BackendType::Gitlab
        } else if str_eq(p, "go") {
            BackendType::Go
        } else if str_eq(p, "npm") {
            BackendType::Npm
        } else if str_eq(p, "pipx") {
            BackendType::Pipx
        } else if str_eq(p, "spm") {
            BackendType::Spm
        } else if str_eq(p, "http") {
            BackendType::Http
        } else if str_eq(p, "ubi") {
            BackendType::Ubi
        } else if str_eq(p, "vfox") {
            BackendType::Vfox
        } else {
            BackendType::Unknown
        }
    }
}

} // verus!
