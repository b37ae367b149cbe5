//! Classification of changed files into a rebuild plan.

use vstd::prelude::*;
use vstd::string::StringExecFns;
use crate::config::SiteConfig;
use crate::utils::category::is_in_deps;
use crate::utils::category::in_deps;
use crate::utils::path::{self, path_has_base};
use crate::utils::text::{eq_chars, str_eq, to_chars};
use crate::utils::keyed::find_entry;

verus! {

/// Category of a changed file, which decides the rebuild strategy.
#[derive(Clone, Copy, Debug, PartialEq, Eq, Structural)]
pub enum FileCategory {
    /// Content file (`.typ`): rebuilt on its own.
    Content,
    /// Asset file.
    Asset,
    /// Site configuration: full rebuild.
    Config,
    /// Dependency (templates, utils): dependents rebuilt.
    Deps,
    /// Outside the watched directories: ignored.
    Unknown,
}

impl FileCategory {
    /// The short name of the category.
    pub fn name(self) -> (r: &'static str)
        ensures
            r@ == match self {
                FileCategory::Content => "content"@,
                FileCategory::Asset => "asset"@,
                FileCategory::Config => "config"@,
                FileCategory::Deps => "deps"@,
                FileCategory::Unknown => "unknown"@,
            },
    {
        match self {
            FileCategory::Content => "content",
            FileCategory::Asset => "asset",
            FileCategory::Config => "config",
            FileCategory::Deps => "deps",
            FileCategory::Unknown => "unknown",
        }
    }
}

/// The category of a normalized path: the configuration file, then the
/// dependency directories, then content, then assets.
pub open spec fn category_of(p: Seq<char>, config: SiteConfig) -> FileCategory {
    if p == config.config_path@ {
        FileCategory::Config
    } else if in_deps(p, config) {
        FileCategory::Deps
    } else if path_has_base(p, config.build.content@) {
        FileCategory::Content
    } else if path_has_base(p, config.build.assets@) {
        FileCategory::Asset
    } else {
        FileCategory::Unknown
    }
}

/// Categorizes a (normalized) path by the configured directories.
pub fn categorize_path(normalized: &str, config: &SiteConfig) -> (r: FileCategory)
    ensures
        r == category_of(normalized@, *config),
{
    if str_eq(normalized, config.config_path.as_str()) {
        FileCategory::Config
    } else if is_in_deps(normalized, config) {
        FileCategory::Deps
    } else if path::has_base(normalized, config.build.content.as_str()) {
        FileCategory::Content
    } else if path::has_base(normalized, config.build.assets.as_str()) {
        FileCategory::Asset
    } else {
        FileCategory::Unknown
    }
}

/// Result of classifying changed files.
#[derive(Debug)]
pub struct ClassifyResult {
    /// Each changed file with its category.
    pub classified: Vec<(String, FileCategory)>,
    /// Whether a full rebuild is needed.
    pub config_changed: bool,
    /// Content files to compile.
    pub content_to_compile: Vec<String>,
    /// An optional note for the log.
    pub note: Option<String>,
}

/// The paths among the first `n` whose category satisfies `want`, in order.
pub open spec fn selected(paths: Seq<String>, cats: Seq<FileCategory>, want: spec_fn(FileCategory) -> bool, n: int) -> Seq<Seq<char>>
    decreases n,
{
    if n <= 0 {
        seq![]
    } else if want(cats[n - 1]) {
        selected(paths, cats, want, n - 1).push(paths[n - 1]@)
    } else {
        selected(paths, cats, want, n - 1)
    }
}

/// `s` without repeated elements, each kept at its first occurrence.
pub open spec fn dedup(s: Seq<Seq<char>>) -> Seq<Seq<char>>
    decreases s.len(),
{
    if s.len() == 0 {
        seq![]
    } else if dedup(s.drop_last()).contains(s.last()) {
        dedup(s.drop_last())
    } else {
        dedup(s.drop_last()).push(s.last())
    }
}

/// The note logged when dependencies changed but nothing depends on them.
pub open spec fn no_dependents_note() -> Seq<char> {
    "deps changed but no dependents found"@
}

/// The categories of the normalized paths.
pub open spec fn categories(normalized: Seq<String>, config: SiteConfig) -> Seq<FileCategory> {
    normalized.map_values(|s: String| category_of(s@, config))
}

/// Whether a category is handled by compiling single files.
pub open spec fn is_single(c: FileCategory) -> bool {
    c == FileCategory::Content || c == FileCategory::Asset
}

/// Whether a category is a dependency.
pub open spec fn is_dep(c: FileCategory) -> bool {
    c == FileCategory::Deps
}

/// The rebuild plan for a set of changes.
///
/// A change to the configuration asks for a full rebuild. Otherwise, when
/// dependencies changed, their dependents and the directly changed content
/// are compiled (each once); if nothing depends on them, a full rebuild is
/// asked for with a note. Otherwise the changed content is compiled.
pub open spec fn plan(paths: Seq<String>, normalized: Seq<String>, dependents: Seq<String>, config: SiteConfig)
    -> (bool, Seq<Seq<char>>, Option<Seq<char>>)
{
    let cats = categories(normalized, config);
    let any_config = exists|i: int| 0 <= i < cats.len() && cats[i] == FileCategory::Config;
    let deps = selected(paths, cats, |c: FileCategory| is_dep(c), paths.len() as int);
    let content = selected(paths, cats, |c: FileCategory| is_single(c), paths.len() as int);
    if any_config {
        (true, seq![], None)
    } else if deps.len() > 0 {
        if dependents.len() == 0 {
            (true, seq![], Some(no_dependents_note()))
        } else {
            (false, dedup(dependents.map_values(|s: String| s@) + content), None)
        }
    } else {
        (false, content, None)
    }
}

fn contains_path(v: &Vec<String>, p: &String) -> (r: bool)
    ensures
        r == v@.map_values(|s: String| s@).contains(p@),
{
    let pc = to_chars(p.as_str());
    let mut i: usize = 0;
    while i < v.len()
        invariant
            i <= v@.len(),
            pc@ == p@,
            forall|k: int| 0 <= k < i ==> (#[trigger] v@[k])@ != p@,
        decreases v.len() - i,
    {
        if eq_chars(&to_chars(v[i].as_str()), &pc) {
            assert(v@.map_values(|s: String| s@)[i as int] == p@);
            return true;
        }
        i = i + 1;
    }
    proof {
        let m = v@.map_values(|s: String| s@);
        if m.contains(p@) {
            let k = choose|k: int| 0 <= k < m.len() && #[trigger] m[k] == p@;
            assert(v@[k]@ == p@);
        }
    }
    false
}

/// Classifies changed files and plans the rebuild.
///
/// `paths` are the changed files as reported, `normalized` the same files in
/// normalized (absolute) form, and `dependents` the content files that depend
/// on the changed dependency files.
pub fn classify_changes(paths: &Vec<String>, normalized: &Vec<String>, dependents: &Vec<String>, config: &SiteConfig)
    -> (r: ClassifyResult)
    requires
        paths@.len() == normalized@.len(),
    ensures
        r.classified@.len() == paths@.len(),
        forall|i: int| 0 <= i < paths@.len() ==> (#[trigger] r.classified@[i]).0@ == paths@[i]@
            && r.classified@[i].1 == category_of(normalized@[i]@, *config),
        ({
            let (full, content, note) = plan(paths@, normalized@, dependents@, *config);
            &&& r.config_changed == full
            &&& r.content_to_compile@.map_values(|s: String| s@) == content
            &&& match note {
                Some(n) => r.note matches Some(m) && m@ == n,
                None => r.note is None,
            }
        }),
{
    let ghost cats = categories(normalized@, *config);
    let ghost is_dep_fn = |c: FileCategory| is_dep(c);
    let ghost is_single_fn = |c: FileCategory| is_single(c);
    let mut classified: Vec<(String, FileCategory)> = Vec::new();
    let mut config_changed = false;
    let mut deps_changed: Vec<String> = Vec::new();
    let mut content_changed: Vec<String> = Vec::new();
    let mut i: usize = 0;
    while i < paths.len()
        invariant
            i <= paths@.len() == normalized@.len(),
            cats == categories(normalized@, *config),
            is_dep_fn == (|c: FileCategory| is_dep(c)),
            is_single_fn == (|c: FileCategory| is_single(c)),
            classified@.len() == i,
            forall|k: int| 0 <= k < i ==> (#[trigger] classified@[k]).0@ == paths@[k]@
                && classified@[k].1 == cats[k],
            config_changed == exists|k: int| 0 <= k < i && cats[k] == FileCategory::Config,
            deps_changed@.map_values(|s: String| s@) == selected(paths@, cats, is_dep_fn, i as int),
            content_changed@.map_values(|s: String| s@) == selected(paths@, cats, is_single_fn, i as int),
        decreases paths.len() - i,
    {
        let category = categorize_path(normalized[i].as_str(), config);
        assert(category == cats[i as int]);
        classified.push((paths[i].clone(), category));
        let ghost dbefore = deps_changed@;
        let ghost cbefore = content_changed@;
        match category {
            FileCategory::Config => { config_changed = true; },
            FileCategory::Deps => { deps_changed.push(paths[i].clone()); },
            FileCategory::Content => { content_changed.push(paths[i].clone()); },
            FileCategory::Asset => { content_changed.push(paths[i].clone()); },
            FileCategory::Unknown => {},
        }
        proof {
            assert(deps_changed@.map_values(|s: String| s@) =~= selected(paths@, cats, is_dep_fn, i + 1));
            assert(content_changed@.map_values(|s: String| s@) =~= selected(paths@, cats, is_single_fn, i + 1));
        }
        i = i + 1;
    }
    let mut note: Option<String> = None;
    let content_to_compile = if config_changed {
        Vec::new()
    } else if deps_changed.len() > 0 {
        if dependents.len() == 0 {
            note = Some(String::from_str("deps changed but no dependents found"));
            Vec::new()
        } else {
            let mut merged: Vec<String> = Vec::new();
            let ghost all = dependents@.map_values(|s: String| s@) + content_changed@.map_values(|s: String| s@);
            let mut j: usize = 0;
            while j < dependents.len()
                invariant
                    j <= dependents@.len(),
                    all == dependents@.map_values(|s: String| s@) + content_changed@.map_values(|s: String| s@),
                    merged@.map_values(|s: String| s@) == dedup(all.subrange(0, j as int)),
                decreases dependents.len() - j,
            {
                let item = &dependents[j];
                assert(item@ == all[j as int]);
                assert(all.subrange(0, j + 1).drop_last() =~= all.subrange(0, j as int));
                if !contains_path(&merged, item) {
                    let ghost before = merged@;
                    merged.push(item.clone());
                    assert(merged@.map_values(|s: String| s@) =~= before.map_values(|s: String| s@).push(item@));
                }
                j = j + 1;
            }
            let mut k: usize = 0;
            while k < content_changed.len()
                invariant
                    j == dependents@.len(),
                    k <= content_changed@.len(),
                    all == dependents@.map_values(|s: String| s@) + content_changed@.map_values(|s: String| s@),
                    merged@.map_values(|s: String| s@) == dedup(all.subrange(0, j + k)),
                decreases content_changed.len() - k,
            {
                let item = &content_changed[k];
                assert(item@ == all[j + k]);
                assert(all.subrange(0, j + k + 1).drop_last() =~= all.subrange(0, j + k));
                if !contains_path(&merged, item) {
                    let ghost before = merged@;
                    merged.push(item.clone());
                    assert(merged@.map_values(|s: String| s@) =~= before.map_values(|s: String| s@).push(item@));
                }
                k = k + 1;
            }
            assert(all.subrange(0, j + k) =~= all);
            merged
        }
    } else {
        content_changed
    };
    let config_changed = config_changed || (deps_changed.len() > 0 && content_to_compile.len() == 0 && note.is_some());
    ClassifyResult { classified, config_changed, content_to_compile, note }
}

/// Whether the entry at `i` is the first one of `graph` for `file`.
pub open spec fn first_entry_for(graph: Seq<(String, Vec<String>)>, file: Seq<char>, i: int) -> bool {
    &&& 0 <= i < graph.len()
    &&& graph[i].0@ == file
    &&& forall|j: int| 0 <= j < i ==> #[trigger] graph[j].0@ != file
}

/// The content files that depend on `file`, as the reverse dependency map
/// `graph` (files, each with the content files that read it) lists them:
/// those of its first entry, none when it has none.
pub open spec fn dependents_of(graph: Seq<(String, Vec<String>)>, file: Seq<char>) -> Seq<Seq<char>> {
    if exists|i: int| first_entry_for(graph, file, i) {
        let i = choose|i: int| first_entry_for(graph, file, i);
        graph[i].1@.map_values(|s: String| s@)
    } else {
        seq![]
    }
}

/// Whether `x` depends on one of the first `k` changed files.
pub open spec fn depends_on_changed(
    graph: Seq<(String, Vec<String>)>,
    changed: Seq<String>,
    k: int,
    x: Seq<char>,
) -> bool {
    exists|i: int| 0 <= i < k && #[trigger] dependents_of(graph, changed[i]@).contains(x)
}

/// Collects the content files that depend on any of the changed files, each
/// once, from the reverse dependency map `graph`.
pub fn collect_dependents(changed: &[String], graph: &Vec<(String, Vec<String>)>) -> (r: Vec<String>)
    ensures
        forall|x: Seq<char>|
            r@.map_values(|s: String| s@).contains(x) <==> depends_on_changed(graph@, changed@, changed@.len() as int, x),
        forall|i: int, j: int| 0 <= i < j < r@.len() ==> r@[i]@ != r@[j]@,
{
    let mut out: Vec<String> = Vec::new();
    let mut k: usize = 0;
    while k < changed.len()
        invariant
            k <= changed@.len(),
            forall|x: Seq<char>|
                out@.map_values(|s: String| s@).contains(x) <==> depends_on_changed(graph@, changed@, k as int, x),
            forall|i: int, j: int| 0 <= i < j < out@.len() ==> out@[i]@ != out@[j]@,
        decreases changed@.len() - k,
    {
        let ghost deps: Seq<Seq<char>> = dependents_of(graph@, changed@[k as int]@);
        match find_entry(graph, changed[k].as_str()) {
            Some(e) => {
                assert(first_entry_for(graph@, changed@[k as int]@, e as int));
                assert(deps == graph@[e as int].1@.map_values(|s: String| s@)) by {
                    let c = choose|i: int| first_entry_for(graph@, changed@[k as int]@, i);
                    if c < e {
                        assert(graph@[c].0@ != changed@[k as int]@);
                    } else if c > e {
                        assert(graph@[e as int].0@ != changed@[k as int]@);
                    }
                }
                let list = &graph[e].1;
                let mut j: usize = 0;
                while j < list.len()
                    invariant
                        j <= list@.len(),
                        k < changed@.len(),
                        deps == list@.map_values(|s: String| s@),
                        deps == dependents_of(graph@, changed@[k as int]@),
                        forall|x: Seq<char>|
                            out@.map_values(|s: String| s@).contains(x) <==> (depends_on_changed(graph@, changed@, k as int, x)
                                || deps.subrange(0, j as int).contains(x)),
                        forall|a: int, b: int| 0 <= a < b < out@.len() ==> out@[a]@ != out@[b]@,
                    decreases list@.len() - j,
                {
                    let ghost before = out@.map_values(|s: String| s@);
                    let ghost old_out = out@;
                    let d = &list[j];
                    let was = contains_path(&out, d);
                    if !was {
                        out.push(d.as_str().to_owned());
                        assert(out@.map_values(|s: String| s@) =~= before.push(d@));
                        assert forall|a: int, b: int| 0 <= a < b < out@.len() implies out@[a]@ != out@[b]@ by {
                            if b == out@.len() - 1 {
                                assert(before[a] == old_out[a]@);
                                assert(out@[a] == old_out[a]);
                                if out@[a]@ == d@ {
                                    assert(before.contains(d@));
                                }
                            } else {
                                assert(out@[a] == old_out[a]);
                                assert(out@[b] == old_out[b]);
                            }
                        }
                    }
                    proof {
                        let now = out@.map_values(|s: String| s@);
                        let sj = deps.subrange(0, j as int);
                        let sj1 = deps.subrange(0, j + 1);
                        assert(sj1 =~= sj.push(d@));
                        assert(was ==> now == before);
                        assert(!was ==> now == before.push(d@));
                        assert forall|x: Seq<char>| now.contains(x) <==> (depends_on_changed(graph@, changed@, k as int, x)
                            || sj1.contains(x)) by {
                            if sj.contains(x) {
                                let t = choose|t: int| 0 <= t < sj.len() && #[trigger] sj[t] == x;
                                assert(sj1[t] == x);
                            }
                            if sj1.contains(x) && !sj.contains(x) {
                                let t = choose|t: int| 0 <= t < sj1.len() && #[trigger] sj1[t] == x;
                                if t < j {
                                    assert(sj[t] == x);
                                }
                                assert(x == d@);
                            }
                            if before.contains(x) {
                                let t = choose|t: int| 0 <= t < before.len() && #[trigger] before[t] == x;
                                assert(now[t] == x);
                            }
                            if now.contains(x) && !before.contains(x) {
                                let t = choose|t: int| 0 <= t < now.len() && #[trigger] now[t] == x;
                                if t < before.len() {
                                    assert(before[t] == x);
                                }
                                assert(x == d@);
                                assert(sj1[j as int] == x);
                            }
                            if x == d@ {
                                assert(sj1[j as int] == x);
                                if !was {
                                    assert(now[now.len() - 1] == x);
                                }
                            }
                        }
                    }
                    j = j + 1;
                }
                proof {
                    assert(deps.subrange(0, j as int) =~= deps);
                    assert forall|x: Seq<char>| out@.map_values(|s: String| s@).contains(x) <==> (depends_on_changed(
                        graph@,
                        changed@,
                        k as int,
                        x,
                    ) || deps.contains(x)) by {
                        assert(deps.subrange(0, j as int).contains(x) == deps.contains(x));
                    }
                }
            },
            None => {
                assert(deps =~= Seq::<Seq<char>>::empty()) by {
                    if exists|i: int| first_entry_for(graph@, changed@[k as int]@, i) {
                        let c = choose|i: int| first_entry_for(graph@, changed@[k as int]@, i);
                        assert(graph@[c].0@ != changed@[k as int]@);
                    }
                }
                assert forall|x: Seq<char>| out@.map_values(|s: String| s@).contains(x) <==> (depends_on_changed(
                    graph@,
                    changed@,
                    k as int,
                    x,
                ) || deps.contains(x)) by {
                    if deps.contains(x) {
                        let t = choose|t: int| 0 <= t < deps.len() && #[trigger] deps[t] == x;
                    }
                }
            },
        }
        proof {
            assert forall|x: Seq<char>| depends_on_changed(graph@, changed@, k + 1, x) <==> (depends_on_changed(
                graph@,
                changed@,
                k as int,
                x,
            ) || deps.contains(x)) by {
                if depends_on_changed(graph@, changed@, k + 1, x) {
                    let i = choose|i: int| 0 <= i < k + 1 && #[trigger] dependents_of(graph@, changed@[i]@).contains(x);
                    if i < k {
                        assert(depends_on_changed(graph@, changed@, k as int, x));
                    }
                }
                if deps.contains(x) {
                    assert(dependents_of(graph@, changed@[k as int]@).contains(x));
                }
                if depends_on_changed(graph@, changed@, k as int, x) {
                    let i = choose|i: int| 0 <= i < k && #[trigger] dependents_of(graph@, changed@[i]@).contains(x);
                    assert(0 <= i < k + 1 && dependents_of(graph@, changed@[i]@).contains(x));
                }
            }
            let k1: int = k + 1;
            assert forall|x: Seq<char>| out@.map_values(|s: String| s@).contains(x) <==> depends_on_changed(
                graph@,
                changed@,
                k1,
                x,
            ) by {
                assert(out@.map_values(|s: String| s@).contains(x) <==> (depends_on_changed(graph@, changed@, k as int, x)
                    || deps.contains(x)));
            }
        }
        k = k + 1;
    }
    out
}

proof fn lemma_selected_contains(
    paths: Seq<String>,
    cats: Seq<FileCategory>,
    want: spec_fn(FileCategory) -> bool,
    n: int,
    j: int,
)
    requires
        0 <= j < n <= paths.len(),
        n <= cats.len(),
        want(cats[j]),
    ensures
        selected(paths, cats, want, n).contains(paths[j]@),
    decreases n,
{
    if j == n - 1 {
        let s = selected(paths, cats, want, n);
        assert(s[s.len() - 1] == paths[j]@);
    } else {
        lemma_selected_contains(paths, cats, want, n - 1, j);
        let prev = selected(paths, cats, want, n - 1);
        let k = choose|k: int| 0 <= k < prev.len() && prev[k] == paths[j]@;
        if want(cats[n - 1]) {
            assert(selected(paths, cats, want, n)[k] == paths[j]@);
        }
    }
}

proof fn lemma_selected_none(paths: Seq<String>, cats: Seq<FileCategory>, want: spec_fn(FileCategory) -> bool, n: int)
    requires
        n <= cats.len(),
        forall|j: int| 0 <= j < n ==> !want(#[trigger] cats[j]),
    ensures
        selected(paths, cats, want, n).len() == 0,
    decreases n,
{
    if n > 0 {
        lemma_selected_none(paths, cats, want, n - 1);
    }
}

/// A changed file under the assets directory (not the configuration file,
/// and under neither a dependency directory nor the content directory) is an
/// asset.
pub proof fn law_asset_is_asset(p: Seq<char>, config: SiteConfig)
    requires
        path_has_base(p, config.build.assets@),
        p != config.config_path@,
        !in_deps(p, config),
        !path_has_base(p, config.build.content@),
    ensures
        category_of(p, config) == FileCategory::Asset,
{
}

/// When no changed file is the configuration or a dependency, every changed
/// asset is among the files to rebuild, and no full rebuild is asked for.
pub proof fn law_changed_asset_is_rebuilt(
    paths: Seq<String>,
    normalized: Seq<String>,
    dependents: Seq<String>,
    config: SiteConfig,
    j: int,
)
    requires
        paths.len() == normalized.len(),
        0 <= j < paths.len(),
        forall|i: int| 0 <= i < normalized.len() ==> #[trigger] normalized[i]@ != config.config_path@ && !in_deps(normalized[i]@, config),
        path_has_base(normalized[j]@, config.build.assets@),
        !path_has_base(normalized[j]@, config.build.content@),
    ensures
        !plan(paths, normalized, dependents, config).0,
        plan(paths, normalized, dependents, config).1.contains(paths[j]@),
{
    let cats = categories(normalized, config);
    law_asset_is_asset(normalized[j]@, config);
    assert(cats[j] == FileCategory::Asset);
    assert forall|i: int| 0 <= i < cats.len() implies #[trigger] cats[i] != FileCategory::Config && cats[i] != FileCategory::Deps by {
        assert(cats[i] == category_of(normalized[i]@, config));
        assert(normalized[i]@ != config.config_path@ && !in_deps(normalized[i]@, config));
    }
    let dep_fn = |c: FileCategory| is_dep(c);
    let single_fn = |c: FileCategory| is_single(c);
    lemma_selected_none(paths, cats, dep_fn, paths.len() as int);
    lemma_selected_contains(paths, cats, single_fn, paths.len() as int, j);
    assert(!(exists|i: int| 0 <= i < cats.len() && cats[i] == FileCategory::Config));
}

} // verus!
