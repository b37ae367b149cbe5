//! URL slugification and path sanitization.
//!
//! Text and file paths are turned into URL-safe forms according to the slug
//! settings of the site: unsafe characters and whitespace become the
//! separator, runs of separators collapse to one, and leading and trailing
//! separators are dropped.

use vstd::prelude::*;
use crate::config::{SlugCase, SlugConfig, SlugMode};
use crate::utils::text::{from_chars, is_whitespace, is_ws, push_all, to_chars, trim, trim_chars};
use crate::utils::path;

verus! {

/// Characters that are unsafe in URLs and file paths.
pub const FORBIDDEN_CHARS: [char; 15] = [
    '<', '>', ':', '|', '?', '*', '#', '\\', '(', ')', '[', ']', '\t', '\r', '\n',
];

/// Whether `c` is one of [`FORBIDDEN_CHARS`].
pub open spec fn is_forbidden(c: char) -> bool {
    c == '<' || c == '>' || c == ':' || c == '|' || c == '?' || c == '*' || c == '#'
        || c == '\\' || c == '(' || c == ')' || c == '[' || c == ']' || c == '\t'
        || c == '\r' || c == '\n'
}

/// Whether `c` is replaced by the separator.
pub open spec fn is_special(c: char) -> bool {
    is_forbidden(c) || is_ws(c)
}

/// `s` with every forbidden or whitespace character replaced by `sep`.
pub open spec fn replaced(s: Seq<char>, sep: char) -> Seq<char> {
    s.map_values(|c: char| if is_special(c) { sep } else { c })
}

/// The maximal runs of characters other than `sep` in `s`, in order.
pub open spec fn words(s: Seq<char>, sep: char) -> Seq<Seq<char>>
    decreases s.len(),
{
    if s.len() == 0 {
        seq![]
    } else {
        let w = words(s.drop_last(), sep);
        let c = s.last();
        if c == sep {
            w
        } else if s.len() >= 2 && s[s.len() - 2] != sep && w.len() > 0 {
            w.update(w.len() - 1, w.last().push(c))
        } else {
            w.push(seq![c])
        }
    }
}

/// The sequences of `ws` joined by single `sep` characters.
pub open spec fn join(ws: Seq<Seq<char>>, sep: char) -> Seq<char>
    decreases ws.len(),
{
    if ws.len() == 0 {
        seq![]
    } else if ws.len() == 1 {
        ws[0]
    } else {
        join(ws.drop_last(), sep) + seq![sep] + ws.last()
    }
}

/// `s` with runs of `sep` collapsed to one and leading and trailing `sep` removed:
/// the words of `s` joined by single separators.
pub open spec fn collapsed(s: Seq<char>, sep: char) -> Seq<char> {
    join(words(s, sep), sep)
}

/// Sanitized text: trimmed, special characters replaced, separators collapsed.
pub open spec fn sanitized(s: Seq<char>, sep: char) -> Seq<char> {
    collapsed(replaced(trim(s), sep), sep)
}

/// Whether `s` is a well-formed slug over `sep`: no leading or trailing
/// separator and no two separators in a row.
pub open spec fn is_clean(s: Seq<char>, sep: char) -> bool {
    &&& s.len() > 0 ==> s[0] != sep && s.last() != sep
    &&& forall|i: int| 0 <= i < s.len() - 1 ==> !(#[trigger] s[i] == sep && s[i + 1] == sep)
}

/// Every word is non-empty and free of `sep`.
pub open spec fn words_ok(ws: Seq<Seq<char>>, sep: char) -> bool {
    forall|k: int| 0 <= k < ws.len() ==> (#[trigger] ws[k]).len() > 0 && !ws[k].contains(sep)
}

// ---------------------------------------------------------------------------
// Lemmas about words and join
// ---------------------------------------------------------------------------

proof fn lemma_words_ok(s: Seq<char>, sep: char)
    ensures
        words_ok(words(s, sep), sep),
        s.len() > 0 && s.last() != sep ==> words(s, sep).len() > 0,
    decreases s.len(),
{
    if s.len() > 0 {
        lemma_words_ok(s.drop_last(), sep);
        let w = words(s.drop_last(), sep);
        let c = s.last();
        if c == sep {
        } else if s.len() >= 2 && s[s.len() - 2] != sep && w.len() > 0 {
            let nw = w.update(w.len() - 1, w.last().push(c));
            assert forall|k: int| 0 <= k < nw.len() implies (#[trigger] nw[k]).len() > 0 && !nw[k].contains(sep) by {
                if k == w.len() - 1 {
                    let l = w.last();
                    if l.push(c).contains(sep) {
                        let j = choose|j: int| 0 <= j < l.push(c).len() && l.push(c)[j] == sep;
                        assert(l[j] == sep);
                    }
                }
            }
        } else {
            let nw = w.push(seq![c]);
            assert forall|k: int| 0 <= k < nw.len() implies (#[trigger] nw[k]).len() > 0 && !nw[k].contains(sep) by {
                if k == w.len() {
                    assert(nw[k] =~= seq![c]);
                }
            }
        }
    }
}

proof fn lemma_words_nonempty_when_last_not_sep(s: Seq<char>, sep: char)
    requires
        s.len() > 0,
        s.last() != sep,
    ensures
        words(s, sep).len() > 0,
{
    lemma_words_ok(s, sep);
}

proof fn lemma_join_push(ws: Seq<Seq<char>>, x: Seq<char>, sep: char)
    requires
        ws.len() > 0,
    ensures
        join(ws.push(x), sep) == join(ws, sep) + seq![sep] + x,
{
    assert(ws.push(x).drop_last() =~= ws);
}

proof fn lemma_join_extend_last(ws: Seq<Seq<char>>, c: char, sep: char)
    requires
        ws.len() > 0,
    ensures
        join(ws.update(ws.len() - 1, ws.last().push(c)), sep) == join(ws, sep).push(c),
{
    let nw = ws.update(ws.len() - 1, ws.last().push(c));
    if ws.len() == 1 {
        assert(nw[0] == ws[0].push(c));
    } else {
        assert(nw.drop_last() =~= ws.drop_last());
        assert(join(nw, sep) == join(ws.drop_last(), sep) + seq![sep] + ws.last().push(c));
        assert(join(ws.drop_last(), sep) + seq![sep] + ws.last().push(c)
            =~= (join(ws.drop_last(), sep) + seq![sep] + ws.last()).push(c));
    }
}

/// No leading separator and no two separators in a row.
spec fn pre_clean(s: Seq<char>, sep: char) -> bool {
    &&& s.len() > 0 ==> s[0] != sep
    &&& forall|i: int| 0 <= i < s.len() - 1 ==> !(#[trigger] s[i] == sep && s[i + 1] == sep)
}

proof fn lemma_pre_clean_words(s: Seq<char>, sep: char)
    requires
        pre_clean(s, sep),
    ensures
        s.len() > 0 && s.last() == sep ==> join(words(s, sep), sep) + seq![sep] == s,
        !(s.len() > 0 && s.last() == sep) ==> join(words(s, sep), sep) == s,
    decreases s.len(),
{
    if s.len() > 0 {
        let t = s.drop_last();
        let c = s.last();
        assert(pre_clean(t, sep)) by {
            assert forall|i: int| 0 <= i < t.len() - 1 implies !(#[trigger] t[i] == sep && t[i + 1] == sep) by {
                assert(t[i] == s[i] && t[i + 1] == s[i + 1]);
            }
        }
        lemma_pre_clean_words(t, sep);
        let w = words(t, sep);
        assert(s =~= t.push(c));
        if c == sep {
            assert(t.len() > 0);
            assert(!(s[s.len() - 2] == sep && s[s.len() - 1] == sep));
        } else if s.len() >= 2 && s[s.len() - 2] != sep && w.len() > 0 {
            lemma_join_extend_last(w, c, sep);
        } else if t.len() == 0 {
            assert(words(s, sep) =~= seq![seq![c]]);
            assert(join(seq![seq![c]], sep) == seq![c]);
        } else {
            assert(t.last() == sep || w.len() == 0);
            if t.last() != sep {
                lemma_words_nonempty_when_last_not_sep(t, sep);
            }
            assert(t.last() == sep);
            if w.len() == 0 {
                assert(t =~= seq![sep]);
                assert(t[0] == sep);
            } else {
                lemma_join_push(w, seq![c], sep);
            }
        }
    }
}

/// A clean slug is left as it is by collapsing.
proof fn lemma_clean_fixed(s: Seq<char>, sep: char)
    requires
        is_clean(s, sep),
    ensures
        collapsed(s, sep) == s,
{
    lemma_pre_clean_words(s, sep);
}

/// Collapsing separators is idempotent: collapsing a collapsed text changes
/// nothing.
pub proof fn law_collapse_idempotent(s: Seq<char>, sep: char)
    ensures
        collapsed(collapsed(s, sep), sep) == collapsed(s, sep),
{
    lemma_words_ok(s, sep);
    lemma_join_clean(words(s, sep), sep);
    lemma_clean_fixed(collapsed(s, sep), sep);
}

/// The join of non-empty, separator-free words is a clean slug.
pub proof fn lemma_join_clean(ws: Seq<Seq<char>>, sep: char)
    requires
        words_ok(ws, sep),
    ensures
        is_clean(join(ws, sep), sep),
        ws.len() > 0 ==> join(ws, sep).len() > 0,
    decreases ws.len(),
{
    if ws.len() == 0 {
    } else if ws.len() == 1 {
        let w = ws[0];
        assert(w.len() > 0 && !w.contains(sep));
        assert forall|i: int| 0 <= i < w.len() - 1 implies !(#[trigger] w[i] == sep && w[i + 1] == sep) by {
            if w[i] == sep {
                assert(w.contains(sep));
            }
        }
        if w[0] == sep {
            assert(w.contains(sep));
        }
        if w.last() == sep {
            assert(w[w.len() - 1] == sep);
            assert(w.contains(sep));
        }
    } else {
        let init = ws.drop_last();
        assert(words_ok(init, sep)) by {
            assert forall|k: int| 0 <= k < init.len() implies (#[trigger] init[k]).len() > 0 && !init[k].contains(sep) by {
                assert(init[k] == ws[k]);
            }
        }
        lemma_join_clean(init, sep);
        let a = join(init, sep);
        let l = ws.last();
        assert(l == ws[ws.len() - 1]);
        assert(l.len() > 0 && !l.contains(sep));
        let r = a + seq![sep] + l;
        assert(r == join(ws, sep));
        assert forall|i: int| 0 <= i < r.len() - 1 implies !(#[trigger] r[i] == sep && r[i + 1] == sep) by {
            if i < a.len() - 1 {
                assert(r[i] == a[i] && r[i + 1] == a[i + 1]);
            } else if i == a.len() - 1 {
                assert(r[i] == a.last());
            } else if i == a.len() {
                assert(r[i + 1] == l[0]);
                if l[0] == sep {
                    assert(l.contains(sep));
                }
            } else {
                let k = i - a.len() - 1;
                assert(r[i] == l[k]);
                if l[k] == sep {
                    assert(l.contains(sep));
                }
            }
        }
        assert(r[0] == a[0]);
        assert(r.last() == l.last());
        if l.last() == sep {
            assert(l[l.len() - 1] == sep);
            assert(l.contains(sep));
        }
    }
}

// ---------------------------------------------------------------------------
// Executable transformations
// ---------------------------------------------------------------------------

/// Whether `c` is one of [`FORBIDDEN_CHARS`].
pub fn is_forbidden_char(c: char) -> (b: bool)
    ensures
        b == is_forbidden(c),
{
    c == '<' || c == '>' || c == ':' || c == '|' || c == '?' || c == '*' || c == '#'
        || c == '\\' || c == '(' || c == ')' || c == '[' || c == ']' || c == '\t'
        || c == '\r' || c == '\n'
}

/// Replaces forbidden characters and whitespace with the separator.
pub fn replace_special_chars(text: &[char], sep: char) -> (r: Vec<char>)
    ensures
        r@ == replaced(text@, sep),
{
    let mut r: Vec<char> = Vec::new();
    let mut i: usize = 0;
    while i < text.len()
        invariant
            i <= text@.len(),
            r@ == replaced(text@.subrange(0, i as int), sep),
        decreases text.len() - i,
    {
        let c = text[i];
        if is_forbidden_char(c) || is_whitespace(c) {
            r.push(sep);
        } else {
            r.push(c);
        }
        i = i + 1;
        assert(r@ =~= replaced(text@.subrange(0, i as int), sep));
    }
    assert(text@.subrange(0, i as int) =~= text@);
    r
}

/// Collapses consecutive separators into one and trims leading and trailing
/// separators.
pub fn collapse_consecutive_separators(text: &[char], sep: char) -> (r: Vec<char>)
    ensures
        r@ == collapsed(text@, sep),
        is_clean(r@, sep),
{
    let mut result: Vec<char> = Vec::new();
    let mut prev_was_sep = true;
    let mut i: usize = 0;
    while i < text.len()
        invariant
            i <= text@.len(),
            prev_was_sep == (i == 0 || text@[i - 1] == sep),
            ({
                let p = text@.subrange(0, i as int);
                let w = words(p, sep);
                if prev_was_sep && w.len() > 0 {
                    result@ == join(w, sep) + seq![sep]
                } else {
                    result@ == join(w, sep)
                }
            }),
        decreases text.len() - i,
    {
        let c = text[i];
        let ghost p = text@.subrange(0, i as int);
        let ghost p2 = text@.subrange(0, i + 1);
        assert(p2.drop_last() =~= p);
        assert(p2.last() == c);
        proof {
            if i > 0 {
                assert(p2[p2.len() - 2] == text@[i - 1]);
            }
        }
        if c == sep {
            if !prev_was_sep {
                proof { lemma_words_nonempty_when_last_not_sep(p, sep); }
                result.push(c);
            }
        } else {
            proof {
                let w = words(p, sep);
                if prev_was_sep {
                    if w.len() > 0 {
                        lemma_join_push(w, seq![c], sep);
                        assert(join(w, sep) + seq![sep] + seq![c] =~= (join(w, sep) + seq![sep]).push(c));
                    } else {
                        assert(w.push(seq![c]) =~= seq![seq![c]]);
                    }
                } else {
                    lemma_words_nonempty_when_last_not_sep(p, sep);
                    lemma_join_extend_last(w, c, sep);
                }
            }
            result.push(c);
            prev_was_sep = false;
        }
        if c == sep {
            prev_was_sep = true;
        }
        i = i + 1;
    }
    let ghost w = words(text@, sep);
    assert(text@.subrange(0, i as int) =~= text@);
    proof { lemma_words_ok(text@, sep); lemma_join_clean(w, sep); }
    let n = result.len();
    if n > 0 && result[n - 1] == sep {
        proof {
            if !(prev_was_sep && w.len() > 0) {
                assert(result@ == join(w, sep));
                assert(result@[result@.len() - 1] == sep);
                assert(false);
            }
        }
        result.pop();
        assert(result@ =~= join(w, sep));
    }
    result
}

/// Sanitizes text: trims whitespace, replaces forbidden characters and
/// whitespace with the separator, collapses separators. Unicode is kept.
pub fn sanitize(text: &str, sep: char) -> (r: String)
    ensures
        r@ == sanitized(text@, sep),
{
    let chars = to_chars(text);
    let trimmed = trim_chars(&chars);
    let replaced_chars = replace_special_chars(&trimmed, sep);
    let collapsed_chars = collapse_consecutive_separators(&replaced_chars, sep);
    from_chars(&collapsed_chars)
}


// ---------------------------------------------------------------------------
// Outside computations: transliteration and Unicode case mapping
// ---------------------------------------------------------------------------

/// What `deunicode::deunicode` returns for a text: its ASCII transliteration.
pub uninterp spec fn deunicoded(s: Seq<char>) -> Seq<char>;

/// What `str::to_lowercase` returns (Unicode lowercase mapping of a whole string).
pub uninterp spec fn lowercased(s: Seq<char>) -> Seq<char>;

/// What `str::to_uppercase` returns (Unicode uppercase mapping of a whole string).
pub uninterp spec fn uppercased(s: Seq<char>) -> Seq<char>;

/// The characters that `char::to_uppercase` yields for one character.
pub uninterp spec fn char_upper(c: char) -> Seq<char>;

/// The characters that `char::to_lowercase` yields for one character.
pub uninterp spec fn char_lower(c: char) -> Seq<char>;

/// Transliterates Unicode text to ASCII with `deunicode::deunicode`.
#[verifier::external_body]
fn deunicode_text(s: &str) -> (r: String)
    ensures
        r@ == deunicoded(s@),
{
    deunicode::deunicode(s)
}

/// `str::to_lowercase`.
#[verifier::external_body]
pub(crate) fn to_lowercase(s: &str) -> (r: String)
    ensures
        r@ == lowercased(s@),
{
    s.to_lowercase()
}

/// `str::to_uppercase`.
#[verifier::external_body]
fn to_uppercase(s: &str) -> (r: String)
    ensures
        r@ == uppercased(s@),
{
    s.to_uppercase()
}

/// `char::to_uppercase`, collected.
#[verifier::external_body]
fn char_to_uppercase(c: char) -> (r: Vec<char>)
    ensures
        r@ == char_upper(c),
{
    c.to_uppercase().collect()
}

/// `char::to_lowercase`, collected.
#[verifier::external_body]
fn char_to_lowercase(c: char) -> (r: Vec<char>)
    ensures
        r@ == char_lower(c),
{
    c.to_lowercase().collect()
}

// ---------------------------------------------------------------------------
// Case transformation
// ---------------------------------------------------------------------------

/// Whether `c` delimits words for capitalization: `-`, `_` or whitespace.
pub open spec fn is_word_delim(c: char) -> bool {
    c == '-' || c == '_' || is_ws(c)
}

/// What character `i` of `s` becomes when words are capitalized: delimiters
/// stay, the first character of a word is uppercased, the others lowercased.
pub open spec fn capitalized_piece(s: Seq<char>, i: int) -> Seq<char> {
    if is_word_delim(s[i]) {
        seq![s[i]]
    } else if i == 0 || is_word_delim(s[i - 1]) {
        char_upper(s[i])
    } else {
        char_lower(s[i])
    }
}

/// The pieces of the characters `0..n` of `s`, concatenated.
pub open spec fn capitalized_prefix(s: Seq<char>, n: int) -> Seq<char>
    decreases n,
{
    if n <= 0 {
        seq![]
    } else {
        capitalized_prefix(s, n - 1) + capitalized_piece(s, n - 1)
    }
}

/// `s` with the first letter of each word uppercased and the rest lowercased.
pub open spec fn capitalized(s: Seq<char>) -> Seq<char> {
    capitalized_prefix(s, s.len() as int)
}

/// Capitalizes the first letter of each word; words are delimited by `-`,
/// `_` or whitespace.
pub fn capitalize_words(text: &str) -> (r: String)
    ensures
        r@ == capitalized(text@),
{
    let chars = to_chars(text);
    let mut result: Vec<char> = Vec::new();
    let mut at_word_start = true;
    let mut i: usize = 0;
    while i < chars.len()
        invariant
            i <= chars@.len(),
            chars@ == text@,
            at_word_start == (i == 0 || is_word_delim(chars@[i - 1])),
            result@ == capitalized_prefix(chars@, i as int),
        decreases chars.len() - i,
    {
        let c = chars[i];
        if c == '-' || c == '_' || is_whitespace(c) {
            result.push(c);
            at_word_start = true;
        } else if at_word_start {
            let up = char_to_uppercase(c);
            push_all(&mut result, &up);
            at_word_start = false;
        } else {
            let low = char_to_lowercase(c);
            push_all(&mut result, &low);
        }
        i = i + 1;
    }
    from_chars(&result)
}

/// `s` transformed by the case setting.
pub open spec fn cased(s: Seq<char>, case: SlugCase) -> Seq<char> {
    match case {
        SlugCase::Lower => lowercased(s),
        SlugCase::Upper => uppercased(s),
        SlugCase::Capitalize => capitalized(s),
        SlugCase::Preserve => s,
    }
}

/// Applies a case transformation to text.
pub fn apply_case(text: &str, case: &SlugCase) -> (r: String)
    ensures
        r@ == cased(text@, *case),
{
    match case {
        SlugCase::Lower => to_lowercase(text),
        SlugCase::Upper => to_uppercase(text),
        SlugCase::Capitalize => capitalize_words(text),
        SlugCase::Preserve => text.to_owned(),
    }
}

// ---------------------------------------------------------------------------
// Slugs
// ---------------------------------------------------------------------------

/// Full slug: transliterated to ASCII, lowercased, special characters replaced,
/// separators collapsed.
pub open spec fn full_slug(s: Seq<char>, sep: char) -> Seq<char> {
    collapsed(replaced(lowercased(deunicoded(s)), sep), sep)
}

/// Full slugification: Unicode to ASCII, lowercase, separator-delimited.
pub fn slugify_full(text: &str, sep: char) -> (r: String)
    ensures
        r@ == full_slug(text@, sep),
        is_clean(r@, sep),
{
    let ascii = deunicode_text(text);
    let lower = to_lowercase(ascii.as_str());
    let chars = to_chars(lower.as_str());
    let replaced_chars = replace_special_chars(&chars, sep);
    let collapsed_chars = collapse_consecutive_separators(&replaced_chars, sep);
    from_chars(&collapsed_chars)
}

/// The slug of one path component (or fragment) in a non-`No`, non-`Full`
/// mode: sanitized (after transliteration when `to_ascii`), then cased.
pub open spec fn component_slug(s: Seq<char>, sep: char, case: SlugCase, to_ascii: bool) -> Seq<char> {
    if to_ascii {
        cased(sanitized(deunicoded(s), sep), case)
    } else {
        cased(sanitized(s, sep), case)
    }
}

fn slug_component(text: &str, sep: char, case: &SlugCase, to_ascii: bool) -> (r: String)
    ensures
        r@ == component_slug(text@, sep, *case, to_ascii),
{
    let sanitized_text = if to_ascii {
        let ascii = deunicode_text(text);
        sanitize(ascii.as_str(), sep)
    } else {
        sanitize(text, sep)
    };
    apply_case(sanitized_text.as_str(), case)
}

/// Transforms each component of a path with full slugification.
pub fn transform_path_components_full(path: &str, sep: char) -> (r: String)
    ensures
        r@ == path::path_collect(path::path_components(path@).map_values(|c: Seq<char>| full_slug(c, sep))),
{
    let parts = path::components(path);
    let mut out: Vec<String> = Vec::new();
    let mut i: usize = 0;
    while i < parts.len()
        invariant
            i <= parts@.len(),
            out@.len() == i,
            forall|k: int| 0 <= k < i ==> (#[trigger] out@[k])@ == full_slug(parts@[k]@, sep),
        decreases parts.len() - i,
    {
        let s = slugify_full(parts[i].as_str(), sep);
        out.push(s);
        i = i + 1;
    }
    let r = path::collect_components(&out);
    proof {
        let a = out@.map_values(|s: String| s@);
        let pv = parts@.map_values(|s: String| s@);
        let b = path::path_components(path@).map_values(|c: Seq<char>| full_slug(c, sep));
        assert(pv == path::path_components(path@));
        assert forall|k: int| 0 <= k < a.len() implies #[trigger] a[k] == b[k] by {
            assert(pv[k] == parts@[k]@);
        }
        assert(a =~= b);
    }
    r
}

/// Transforms each component of a path independently: sanitized (after
/// transliteration when `to_ascii`), then cased.
pub fn transform_path_components(path: &str, sep: char, case: &SlugCase, to_ascii: bool) -> (r: String)
    ensures
        r@ == path::path_collect(path::path_components(path@).map_values(
            |c: Seq<char>| component_slug(c, sep, *case, to_ascii))),
{
    let parts = path::components(path);
    let mut out: Vec<String> = Vec::new();
    let mut i: usize = 0;
    while i < parts.len()
        invariant
            i <= parts@.len(),
            out@.len() == i,
            forall|k: int| 0 <= k < i ==> (#[trigger] out@[k])@ == component_slug(parts@[k]@, sep, *case, to_ascii),
        decreases parts.len() - i,
    {
        let s = slug_component(parts[i].as_str(), sep, case, to_ascii);
        out.push(s);
        i = i + 1;
    }
    let r = path::collect_components(&out);
    proof {
        let a = out@.map_values(|s: String| s@);
        let pv = parts@.map_values(|s: String| s@);
        let b = path::path_components(path@).map_values(|c: Seq<char>| component_slug(c, sep, *case, to_ascii));
        assert(pv == path::path_components(path@));
        assert forall|k: int| 0 <= k < a.len() implies #[trigger] a[k] == b[k] by {
            assert(pv[k] == parts@[k]@);
        }
        assert(a =~= b);
    }
    r
}

/// The slug of fragment text under the slug settings.
pub open spec fn fragment_slug(text: Seq<char>, slug: SlugConfig) -> Seq<char> {
    let sep = slug.separator.spec_char();
    match slug.fragment {
        SlugMode::No => text,
        SlugMode::Full => cased(full_slug(text, sep), slug.case),
        SlugMode::Safe => cased(sanitized(text, sep), slug.case),
        SlugMode::Ascii => cased(sanitized(deunicoded(text), sep), slug.case),
    }
}

/// The slug of a path under the slug settings: each component slugified on its own.
pub open spec fn path_slug(p: Seq<char>, slug: SlugConfig) -> Seq<char> {
    let sep = slug.separator.spec_char();
    match slug.path {
        SlugMode::No => p,
        SlugMode::Full => path::path_collect(path::path_components(p).map_values(|c: Seq<char>| full_slug(c, sep))),
        SlugMode::Safe => path::path_collect(path::path_components(p).map_values(
            |c: Seq<char>| component_slug(c, sep, slug.case, false))),
        SlugMode::Ascii => path::path_collect(path::path_components(p).map_values(
            |c: Seq<char>| component_slug(c, sep, slug.case, true))),
    }
}

/// Converts fragment text (such as a heading anchor) to URL-safe form.
pub fn slugify_fragment(text: &str, slug: &SlugConfig) -> (r: String)
    ensures
        r@ == fragment_slug(text@, *slug),
{
    let sep = slug.separator.as_char();
    let result = match slug.fragment {
        SlugMode::No => return text.to_owned(),
        SlugMode::Full => slugify_full(text, sep),
        SlugMode::Safe => sanitize(text, sep),
        SlugMode::Ascii => {
            let ascii = deunicode_text(text);
            sanitize(ascii.as_str(), sep)
        },
    };
    apply_case(result.as_str(), &slug.case)
}

/// Converts a file path to URL-safe form, component by component.
pub fn slugify_path(p: &str, slug: &SlugConfig) -> (r: String)
    ensures
        r@ == path_slug(p@, *slug),
{
    let sep = slug.separator.as_char();
    match slug.path {
        SlugMode::No => p.to_owned(),
        SlugMode::Full => transform_path_components_full(p, sep),
        SlugMode::Safe => transform_path_components(p, sep, &slug.case, false),
        SlugMode::Ascii => transform_path_components(p, sep, &slug.case, true),
    }
}

} // verus!
