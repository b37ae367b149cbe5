//! File categories for watch mode and incremental builds.
//!
//! | Category | Rebuild strategy | Example files |
//! |----------|------------------|---------------|
//! | Content  | incremental      | `content/*.typ` |
//! | Asset    | incremental      | `assets/images/*` |
//! | Config   | full rebuild     | `tola.toml` |
//! | Deps     | rebuild dependents | `templates/*.typ`, `utils/*.typ` |
//! | Unknown  | ignored          | files outside watched directories |

use vstd::prelude::*;
use crate::config::SiteConfig;
use crate::utils::path::{self, path_has_base};
use crate::utils::text::str_eq;

verus! {

/// Category of a changed file, which decides the rebuild strategy.
#[derive(Clone, Copy, Debug, PartialEq, Eq, Structural)]
pub enum FileCategory {
    /// Content file (`.typ`): rebuilt on its own.
    Content,
    /// Asset file: copied on its own.
    Asset,
    /// Site configuration: full rebuild.
    Config,
    /// Dependency (templates, utils, ...): dependent content is rebuilt.
    Deps,
    /// Outside the watched directories.
    Unknown,
}

impl FileCategory {
    /// The short name of the category, used in logs.
    pub fn name(self) -> (r: &'static str)
        ensures
            r@ == match self {
                FileCategory::Content => "content"@,
                FileCategory::Asset => "assets"@,
                FileCategory::Config => "config"@,
                FileCategory::Deps => "deps"@,
                FileCategory::Unknown => "unknown"@,
            },
    {
        match self {
            FileCategory::Content => "content",
            FileCategory::Asset => "assets",
            FileCategory::Config => "config",
            FileCategory::Deps => "deps",
            FileCategory::Unknown => "unknown",
        }
    }

    /// The directories (or file) of the category in the configuration.
    pub fn paths(self, config: &SiteConfig) -> (r: Vec<String>)
        ensures
            r@.map_values(|s: String| s@) == match self {
                FileCategory::Content => seq![config.build.content@],
                FileCategory::Asset => seq![config.build.assets@],
                FileCategory::Config => seq![config.config_path@],
                FileCategory::Deps => config.build.deps@.map_values(|s: String| s@),
                FileCategory::Unknown => Seq::<Seq<char>>::empty(),
            },
    {
        let r = match self {
            FileCategory::Content => vec![config.build.content.clone()],
            FileCategory::Asset => vec![config.build.assets.clone()],
            FileCategory::Config => vec![config.config_path.clone()],
            FileCategory::Deps => clone_strings(&config.build.deps),
            FileCategory::Unknown => Vec::new(),
        };
        proof {
            match self {
                FileCategory::Content => { assert(r@.map_values(|s: String| s@) =~= seq![config.build.content@]); },
                FileCategory::Asset => { assert(r@.map_values(|s: String| s@) =~= seq![config.build.assets@]); },
                FileCategory::Config => { assert(r@.map_values(|s: String| s@) =~= seq![config.config_path@]); },
                FileCategory::Deps => {},
                FileCategory::Unknown => { assert(r@.map_values(|s: String| s@) =~= Seq::<Seq<char>>::empty()); },
            }
        }
        r
    }

    /// Whether the category stands for directories rather than a single file.
    pub fn is_directory(self) -> (r: bool)
        ensures
            r == (self == FileCategory::Content || self == FileCategory::Asset || self == FileCategory::Deps),
    {
        match self {
            FileCategory::Content | FileCategory::Asset | FileCategory::Deps => true,
            _ => false,
        }
    }
}

/// A copy of a list of strings.
pub fn clone_strings(v: &Vec<String>) -> (r: Vec<String>)
    ensures
        r@.map_values(|s: String| s@) == v@.map_values(|s: String| s@),
{
    let mut r: Vec<String> = Vec::new();
    let mut i: usize = 0;
    while i < v.len()
        invariant
            i <= v@.len(),
            r@.len() == i,
            forall|k: int| 0 <= k < i ==> (#[trigger] r@[k])@ == v@[k]@,
        decreases v.len() - i,
    {
        r.push(v[i].clone());
        i = i + 1;
    }
    proof {
        let a = r@.map_values(|s: String| s@);
        let b = v@.map_values(|s: String| s@);
        assert forall|k: int| 0 <= k < a.len() implies #[trigger] a[k] == b[k] by {
            assert(r@[k]@ == v@[k]@);
        }
        assert(a =~= b);
    }
    r
}

/// Whether a path lies under one of the dependency directories.
pub open spec fn in_deps(p: Seq<char>, config: SiteConfig) -> bool {
    exists|k: int| 0 <= k < config.build.deps@.len() && path_has_base(p, (#[trigger] config.build.deps@[k])@)
}

/// Checks whether a path lies under one of the dependency directories.
pub fn is_in_deps(p: &str, config: &SiteConfig) -> (r: bool)
    ensures
        r == in_deps(p@, *config),
{
    let deps = &config.build.deps;
    let mut k: usize = 0;
    while k < deps.len()
        invariant
            k <= deps@.len(),
            deps == &config.build.deps,
            forall|j: int| 0 <= j < k ==> !path_has_base(p@, (#[trigger] deps@[j])@),
        decreases deps.len() - k,
    {
        if path::has_base(p, deps[k].as_str()) {
            return true;
        }
        k = k + 1;
    }
    false
}

/// The category of a normalized path: the configuration file, then the
/// dependency directories, then content, then assets.
pub open spec fn category_of(p: Seq<char>, config: SiteConfig) -> FileCategory {
    if p == config.config_path@ {
        FileCategory::Config
    } else if in_deps(p, config) {
        FileCategory::Deps
    } else if path_has_base(p, config.build.content@) {
        FileCategory::Content
    } else if path_has_base(p, config.build.assets@) {
        FileCategory::Asset
    } else {
        FileCategory::Unknown
    }
}

/// Categorizes a (normalized) file path to decide how a change to it is handled.
pub fn categorize_path(normalized: &str, config: &SiteConfig) -> (r: FileCategory)
    ensures
        r == category_of(normalized@, *config),
{
    if str_eq(normalized, config.config_path.as_str()) {
        FileCategory::Config
    } else if is_in_deps(normalized, config) {
        FileCategory::Deps
    } else if path::has_base(normalized, config.build.content.as_str()) {
        FileCategory::Content
    } else if path::has_base(normalized, config.build.assets.as_str()) {
        FileCategory::Asset
    } else {
        FileCategory::Unknown
    }
}

} // verus!
