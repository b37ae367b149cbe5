//! CSS support: the auto-enhance stylesheet and Tailwind integration.

use vstd::prelude::*;
use vstd::string::StringExecFns;
use vstd::string::StringSliceAdditionalSpecFns;
use crate::config::SiteConfig;
use crate::error::Error;
use crate::utils::exec::FilterRule;
use crate::utils::hash::{fingerprint, fingerprint_of};
use crate::utils::text::{ends_with, from_chars, has_prefix, has_suffix, push_all, starts_with, str_eq, to_chars};

verus! {

/// Stylesheet that adapts Typst's SVG output to the page theme and dark mode.
pub const ENHANCE_CSS: &'static str = ".typst-text { fill: currentColor; }
.typst-frame path[stroke]:not([stroke=\"none\"]) { stroke: currentColor; }
.typst-frame path[fill]:not([fill=\"none\"]) { fill: currentColor; }
@media (prefers-color-scheme: dark) {
  .typst-frame image { filter: invert(1) hue-rotate(180deg); }
}
";

/// The name of the enhance stylesheet: `.enhance-{fingerprint}.css`.
pub open spec fn enhance_name(css: Seq<u8>) -> Seq<char> {
    ".enhance-"@ + fingerprint_of(css) + ".css"@
}

/// The enhance stylesheet's file name (a hidden file with the content's hash),
/// such as `.enhance-a1b2c3d4.css`.
pub fn enhance_css_filename() -> (r: String)
    ensures
        r@ == enhance_name(ENHANCE_CSS.spec_bytes()),
{
    let fp = fingerprint(ENHANCE_CSS.as_bytes());
    let mut out = to_chars(".enhance-");
    push_all(&mut out, &to_chars(fp.as_str()));
    push_all(&mut out, &to_chars(".css"));
    from_chars(&out)
}

/// Whether a file in the output directory is an old enhance stylesheet:
/// `.enhance-*.css` but not the current one.
pub open spec fn is_stale_enhance(name: Seq<char>, current: Seq<char>) -> bool {
    has_prefix(name, ".enhance-"@) && has_suffix(name, ".css"@) && name != current
}

/// Checks whether a file name is an enhance stylesheet other than the current one.
pub fn is_stale_enhance_css(name: &str, current: &str) -> (r: bool)
    ensures
        r == is_stale_enhance(name@, current@),
{
    let n = to_chars(name);
    starts_with(&n, &to_chars(".enhance-")) && ends_with(&n, &to_chars(".css")) && !str_eq(name, current)
}

/// Tailwind filter: skips the version banner in the output.
pub fn tailwind_filter() -> (r: FilterRule)
    ensures
        r.skip_prefixes@.len() == 1,
        r.skip_prefixes@[0]@ == "≈ tailwindcss"@,
{
    FilterRule::new(&["≈ tailwindcss"])
}

/// Whether a path is the Tailwind input file, given the path's canonical form
/// (if it could be canonicalized).
pub fn is_tailwind_input(canonical: Option<&str>, config: &SiteConfig) -> (r: bool)
    ensures
        r == (config.build.tailwind.enable && canonical is Some && config.build.tailwind.input is Some
            && canonical.unwrap()@ == config.build.tailwind.input.unwrap()@),
{
    if !config.build.tailwind.enable {
        return false;
    }
    match (canonical, &config.build.tailwind.input) {
        (Some(c), Some(input)) => str_eq(c, input.as_str()),
        _ => false,
    }
}

/// The arguments of the Tailwind command after the configured command itself:
/// `-i input -o output`, and `--minify` when minification is on.
pub open spec fn tailwind_args_spec(input: Seq<char>, output: Seq<char>, minify: bool) -> Seq<Seq<char>> {
    seq!["-i"@, input, "-o"@, output] + if minify { seq!["--minify"@] } else { seq![] }
}

/// Builds the Tailwind arguments (empty arguments are dropped, so `--minify`
/// only appears when minification is on).
pub fn tailwind_args(input: &str, output: &str, config: &SiteConfig) -> (r: Vec<String>)
    ensures
        r@.map_values(|s: String| s@) == tailwind_args_spec(input@, output@, config.build.minify),
{
    let mut v: Vec<String> = Vec::new();
    v.push(String::from_str("-i"));
    v.push(input.to_owned());
    v.push(String::from_str("-o"));
    v.push(output.to_owned());
    if config.build.minify {
        v.push(String::from_str("--minify"));
    }
    assert(v@.map_values(|s: String| s@) =~= tailwind_args_spec(input@, output@, config.build.minify));
    v
}

/// The input path for a Tailwind rebuild: the configured input, or an error
/// when none is configured.
pub fn tailwind_input(config: &SiteConfig) -> (r: Result<String, Error>)
    ensures
        config.build.tailwind.input is None <==> r is Err,
        r matches Ok(i) ==> i@ == config.build.tailwind.input.unwrap()@,
        r matches Err(e) ==> e == Error::TailwindInputMissing,
{
    match &config.build.tailwind.input {
        Some(i) => Ok(i.clone()),
        None => Err(Error::TailwindInputMissing),
    }
}

} // verus!
