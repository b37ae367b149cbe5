//! Site configuration values that the library's logic reads.

use vstd::prelude::*;
use vstd::string::StringExecFns;

verus! {

/// How text is turned into a slug.
#[derive(Clone, Copy, Debug, PartialEq, Eq, Structural)]
pub enum SlugMode {
    /// Leave the text as it is.
    No,
    /// Transliterate to ASCII, lowercase, replace unsafe characters.
    Full,
    /// Keep Unicode, replace unsafe characters.
    Safe,
    /// Transliterate to ASCII, replace unsafe characters.
    Ascii,
}

/// Case transformation applied to a slug.
#[derive(Clone, Copy, Debug, PartialEq, Eq, Structural)]
pub enum SlugCase {
    Lower,
    Upper,
    Capitalize,
    Preserve,
}

/// Separator character used in slugs.
#[derive(Clone, Copy, Debug, PartialEq, Eq, Structural)]
pub enum SlugSeparator {
    Dash,
    Underscore,
}

impl SlugSeparator {
    pub open spec fn spec_char(self) -> char {
        match self {
            SlugSeparator::Dash => '-',
            SlugSeparator::Underscore => '_',
        }
    }

    /// The separator as a character.
    pub fn as_char(self) -> (c: char)
        ensures
            c == self.spec_char(),
    {
        match self {
            SlugSeparator::Dash => '-',
            SlugSeparator::Underscore => '_',
        }
    }
}

/// Slug settings.
#[derive(Clone, Copy, Debug)]
pub struct SlugConfig {
    pub path: SlugMode,
    pub fragment: SlugMode,
    pub case: SlugCase,
    pub separator: SlugSeparator,
}

impl SlugConfig {
    /// Default slug settings: full slugs for paths and fragments, lowercase, dashes.
    pub fn default_config() -> (c: SlugConfig)
        ensures
            c.path == SlugMode::Full,
            c.fragment == SlugMode::Full,
            c.case == SlugCase::Lower,
            c.separator == SlugSeparator::Dash,
    {
        SlugConfig {
            path: SlugMode::Full,
            fragment: SlugMode::Full,
            case: SlugCase::Lower,
            separator: SlugSeparator::Dash,
        }
    }
}

} // verus!

verus! {

/// Basic site information.
#[derive(Clone, Debug)]
pub struct BaseConfig {
    pub title: String,
    pub description: String,
    pub url: Option<String>,
    pub language: String,
    pub author: String,
    pub email: String,
}

/// Tailwind CSS settings.
#[derive(Clone, Debug)]
pub struct TailwindConfig {
    pub enable: bool,
    pub input: Option<String>,
    pub command: Vec<String>,
    /// The input path made absolute with symbolic links resolved, as read
    /// from disk; `None` when it cannot be resolved.
    pub canonical_input: Option<String>,
}

/// A script that the `<head>` of every page loads.
#[derive(Clone, Debug)]
pub struct HeadScript {
    pub path: String,
    pub defer: bool,
    pub async_load: bool,
}

impl HeadScript {
    /// The script's path.
    pub fn path(&self) -> (r: &str)
        ensures
            r@ == self.path@,
    {
        self.path.as_str()
    }

    /// Whether the script is loaded with `defer`.
    pub fn is_defer(&self) -> (r: bool)
        ensures
            r == self.defer,
    {
        self.defer
    }

    /// Whether the script is loaded with `async`.
    pub fn is_async(&self) -> (r: bool)
        ensures
            r == self.async_load,
    {
        self.async_load
    }
}

/// What the `<head>` of every page gets besides title and description.
#[derive(Clone, Debug)]
pub struct HeadConfig {
    /// Favicon path.
    pub icon: Option<String>,
    /// Stylesheet paths.
    pub styles: Vec<String>,
    pub scripts: Vec<HeadScript>,
    /// Raw HTML elements, written as they are.
    pub elements: Vec<String>,
}

/// CSS settings.
#[derive(Clone, Debug)]
pub struct CssConfig {
    /// Whether the auto-enhance stylesheet is linked and SVG images get the
    /// `color-invert` class.
    pub auto_enhance: bool,
}

/// Build settings.
#[derive(Clone, Debug)]
pub struct BuildConfig {
    /// Directory of content (`.typ`) files.
    pub content: String,
    /// Directory of static assets.
    pub assets: String,
    /// Output directory.
    pub output: String,
    /// Name of the internal data directory in the output.
    pub data: String,
    /// Dependency directories (templates, utils, ...).
    pub deps: Vec<String>,
    /// Path prefix under which the site is served (may be empty).
    pub path_prefix: String,
    /// Whether output is minified.
    pub minify: bool,
    /// Slug settings.
    pub slug: SlugConfig,
    /// Tailwind settings.
    pub tailwind: TailwindConfig,
    /// `<head>` settings.
    pub head: HeadConfig,
    /// CSS settings.
    pub css: CssConfig,
    /// Whether inline SVGs of the pages are extracted into files of their
    /// own (every Typst SVG extract mode but the embedded one).
    pub extract_svg: bool,
    /// Names of the top-level entries of the assets directory, as read from disk.
    pub asset_top_levels: Vec<String>,
}

/// Site configuration.
#[derive(Clone, Debug)]
pub struct SiteConfig {
    pub base: BaseConfig,
    pub build: BuildConfig,
    /// Path of the configuration file.
    pub config_path: String,
}

impl Default for SiteConfig {
    fn default() -> (c: SiteConfig)
        ensures
            c.build.slug.path == SlugMode::Full,
            c.build.slug.fragment == SlugMode::Full,
            c.build.slug.case == SlugCase::Lower,
            c.build.slug.separator == SlugSeparator::Dash,
            c.build.path_prefix@ == Seq::<char>::empty(),
            c.build.asset_top_levels@.len() == 0,
            c.build.minify,
            c.base.url is None,
    {
        SiteConfig {
            base: BaseConfig {
                title: String::new(),
                description: String::new(),
                url: None,
                language: String::from_str("en"),
                author: String::new(),
                email: String::new(),
            },
            build: BuildConfig {
                content: String::from_str("content"),
                assets: String::from_str("assets"),
                output: String::from_str("public"),
                data: String::from_str("_data"),
                deps: vec![String::from_str("templates"), String::from_str("utils")],
                path_prefix: String::new(),
                minify: true,
                slug: SlugConfig::default_config(),
                tailwind: TailwindConfig {
                    enable: false,
                    input: None,
                    command: vec![String::from_str("tailwindcss")],
                    canonical_input: None,
                },
                head: HeadConfig { icon: None, styles: Vec::new(), scripts: Vec::new(), elements: Vec::new() },
                css: CssConfig { auto_enhance: false },
                extract_svg: false,
                asset_top_levels: Vec::new(),
            },
            config_path: String::from_str("tola.toml"),
        }
    }
}

impl SiteConfig {
    /// The URL of a path relative to the site root: `/` followed by the path
    /// prefix joined with the relative path.
    pub open spec fn spec_url_for_rel_path(&self, rel: Seq<char>) -> Seq<char> {
        seq!['/'] + crate::utils::path::path_joined(self.build.path_prefix@, rel)
    }

    /// The URL of a path relative to the site root.
    pub fn url_for_rel_path(&self, rel: &str) -> (r: String)
        ensures
            r@ == self.spec_url_for_rel_path(rel@),
    {
        let joined = crate::utils::path::join(self.build.path_prefix.as_str(), rel);
        let mut r = String::from_str("/");
        proof { reveal_strlit("/"); }
        r.append(joined.as_str());
        r
    }

    /// Whether a path prefix is configured.
    pub fn has_prefix(&self) -> (r: bool)
        ensures
            r == (self.build.path_prefix@.len() > 0),
    {
        !self.build.path_prefix.as_str().is_empty()
    }
}

} // verus!
