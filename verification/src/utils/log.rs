//! Layout of log lines and progress bars.
//!
//! Log lines look like `[module] message`; progress bars look like
//! `[module] [████░░░░] 42/100`. This module computes how such lines fit a
//! terminal of a given width; writing them is done by the program.

use vstd::prelude::*;
use vstd::utf8::{encode_utf8_valid_utf8, is_char_boundary};
use vstd::string::StringSliceAdditionalSpecFns;

verus! {

/// Length of the brackets around a module name: `[]`.
pub const BRACKET_LEN: usize = 2;
/// The space after the prefix: `[module] `.
pub const SPACE_AFTER_PREFIX: usize = 1;
/// The bar wrapper: ` []`.
pub const BAR_WRAPPER_LEN: usize = 3;
/// The space before the count: `...] 42/100`.
pub const SPACE_BEFORE_COUNT: usize = 1;
/// Minimum progress bar width in characters.
pub const MIN_BAR_WIDTH: usize = 10;
/// Maximum progress bar width in characters.
pub const MAX_BAR_WIDTH: usize = 40;

/// Total prefix length for a module name of `module_len` bytes:
/// the name, its brackets and the trailing space.
pub fn calc_prefix_len(module_len: usize) -> (r: usize)
    requires
        module_len + 3 <= usize::MAX,
    ensures
        r == module_len + BRACKET_LEN + SPACE_AFTER_PREFIX,
{
    module_len + BRACKET_LEN + SPACE_AFTER_PREFIX
}

/// Truncates a string to at most `max_len` bytes, cutting at the last
/// character boundary that fits so that the result stays valid UTF-8.
pub fn truncate_str(s: &str, max_len: usize) -> (r: &str)
    ensures
        s.len() <= max_len ==> r@ == s@,
        s.len() > max_len ==> {
            let e = r.spec_bytes().len() as int;
            &&& e <= max_len
            &&& r.spec_bytes() == s.spec_bytes().subrange(0, e)
            &&& is_char_boundary(s.spec_bytes(), e)
            &&& forall|k: int| e < k <= max_len ==> !is_char_boundary(s.spec_bytes(), k)
        },
{
    proof { encode_utf8_valid_utf8(s@); }
    if s.len() <= max_len {
        return s;
    }
    let mut end = max_len;
    while end > 0 && !s.is_char_boundary(end)
        invariant
            end <= max_len,
            forall|k: int| end < k <= max_len ==> !is_char_boundary(s.spec_bytes(), k),
        decreases end,
    {
        end = end - 1;
    }
    assert(is_char_boundary(s.spec_bytes(), end as int));
    let (head, _) = s.split_at(end);
    head
}

/// The longest log message, in bytes, that fits beside a prefix for a module
/// name of `module_len` bytes on a terminal `width` columns wide.
pub fn max_message_len(module_len: usize, width: usize) -> (r: usize)
    requires
        module_len + 3 <= usize::MAX,
    ensures
        r == if width >= module_len + 3 { width - (module_len + 3) } else { 0 },
{
    let prefix_len = calc_prefix_len(module_len);
    width.saturating_sub(prefix_len)
}

/// The message part of a log line: the message itself when it fits beside
/// the module prefix, otherwise its longest prefix (at a character boundary)
/// that fits.
pub fn fit_message<'a>(module: &str, message: &'a str, width: usize) -> (r: &'a str)
    requires
        module.len() + 3 <= usize::MAX,
    ensures
        ({
            let max = if width >= module.len() + 3 { width - (module.len() + 3) } else { 0 };
            &&& message.len() <= max ==> r@ == message@
            &&& message.len() > max ==> {
                let e = r.spec_bytes().len() as int;
                &&& e <= max
                &&& r.spec_bytes() == message.spec_bytes().subrange(0, e)
                &&& is_char_boundary(message.spec_bytes(), e)
                &&& forall|k: int| e < k <= max ==> !is_char_boundary(message.spec_bytes(), k)
            }
        }),
{
    let max_msg_len = max_message_len(module.len(), width);
    if message.len() > max_msg_len {
        truncate_str(message, max_msg_len)
    } else {
        message
    }
}

/// Colour of a log prefix.
#[derive(Clone, Copy, Debug, PartialEq, Eq, Structural)]
pub enum PrefixColor {
    BrightBlue,
    BrightGreen,
    BrightRed,
    BrightYellow,
}

/// ASCII lowercase of a character (what `char::to_ascii_lowercase` returns).
pub open spec fn ascii_lower(c: char) -> char {
    if 'A' <= c <= 'Z' { ((c as u32) + 32) as char } else { c }
}

/// The colour of the prefix for a module: `serve` blue, `watch` green,
/// `error` red, all others yellow; the name is compared case-insensitively
/// (ASCII).
pub open spec fn prefix_color(module: Seq<char>) -> PrefixColor {
    let lower = module.map_values(|c: char| ascii_lower(c));
    if lower == "serve"@ {
        PrefixColor::BrightBlue
    } else if lower == "watch"@ {
        PrefixColor::BrightGreen
    } else if lower == "error"@ {
        PrefixColor::BrightRed
    } else {
        PrefixColor::BrightYellow
    }
}

fn to_ascii_lower_chars(v: &[char]) -> (r: Vec<char>)
    ensures
        r@ == v@.map_values(|c: char| ascii_lower(c)),
{
    let mut r: Vec<char> = Vec::new();
    let mut i: usize = 0;
    while i < v.len()
        invariant
            i <= v@.len(),
            r@ == v@.subrange(0, i as int).map_values(|c: char| ascii_lower(c)),
        decreases v.len() - i,
    {
        let c = v[i];
        let l = if 'A' <= c && c <= 'Z' { ((c as u32) + 32) as u8 as char } else { c };
        assert(l == ascii_lower(c));
        r.push(l);
        i = i + 1;
        assert(r@ =~= v@.subrange(0, i as int).map_values(|c: char| ascii_lower(c)));
    }
    assert(v@.subrange(0, i as int) =~= v@);
    r
}

/// Chooses the colour of a module's log prefix.
pub fn colorize_prefix(module: &str) -> (r: PrefixColor)
    ensures
        r == prefix_color(module@),
{
    let chars = crate::utils::text::to_chars(module);
    let lower = to_ascii_lower_chars(&chars);
    let serve = crate::utils::text::to_chars("serve");
    let watch = crate::utils::text::to_chars("watch");
    let error = crate::utils::text::to_chars("error");
    if crate::utils::text::eq_chars(&lower, &serve) {
        PrefixColor::BrightBlue
    } else if crate::utils::text::eq_chars(&lower, &watch) {
        PrefixColor::BrightGreen
    } else if crate::utils::text::eq_chars(&lower, &error) {
        PrefixColor::BrightRed
    } else {
        PrefixColor::BrightYellow
    }
}

/// Number of decimal digits of `n`.
pub open spec fn decimal_len(n: nat) -> nat
    decreases n,
{
    if n < 10 { 1 } else { 1 + decimal_len(n / 10) }
}

/// Number of decimal digits of a value.
pub fn count_digits(n: usize) -> (r: usize)
    ensures
        r == decimal_len(n as nat),
        1 <= r <= 20,
{
    proof {
        reveal_with_fuel(pow10, 21);
        assert(pow10(20) == 100000000000000000000nat);
        lemma_decimal_len_bound(n as nat, 20);
        lemma_decimal_len_pos(n as nat);
    }
    let mut m = n;
    let mut d: usize = 1;
    while m >= 10
        invariant
            1 <= d,
            d + decimal_len(m as nat) == decimal_len(n as nat) + 1,
            decimal_len(n as nat) <= 20,
        decreases m,
    {
        proof {
            lemma_decimal_len_pos((m / 10) as nat);
        }
        m = m / 10;
        d = d + 1;
    }
    d
}

proof fn lemma_decimal_len_pos(n: nat)
    ensures
        decimal_len(n) >= 1,
    decreases n,
{
    if n >= 10 {
        lemma_decimal_len_pos(n / 10);
    }
}

proof fn lemma_decimal_len_bound(n: nat, k: nat)
    requires
        k >= 1,
        n < pow10(k),
    ensures
        decimal_len(n) <= k,
    decreases k,
{
    if n >= 10 {
        assert(pow10(k) == 10 * pow10((k - 1) as nat));
        if k == 1 {
            assert(pow10(0) == 1);
        } else {
            assert(n / 10 < pow10((k - 1) as nat));
            lemma_decimal_len_bound(n / 10, (k - 1) as nat);
        }
    }
}

/// Ten to the power `k`.
pub open spec fn pow10(k: nat) -> nat
    decreases k,
{
    if k == 0 { 1 } else { 10 * pow10((k - 1) as nat) }
}

/// Width of the bar and the lengths of its filled and empty parts.
pub open spec fn bar_width(prefix_len: int, current: int, total: int, width: int) -> int {
    let text_len = decimal_len(current as nat) + 1 + decimal_len(total as nat);
    let overhead = prefix_len + BAR_WRAPPER_LEN + SPACE_BEFORE_COUNT + text_len;
    let available = if width >= overhead { width - overhead } else { 0 };
    if available < MIN_BAR_WIDTH { MIN_BAR_WIDTH as int } else if available > MAX_BAR_WIDTH { MAX_BAR_WIDTH as int } else { available }
}

/// Layout of a progress bar for `current` of `total` items: the number of
/// filled and of empty cells. The bar is as wide as the terminal leaves room
/// for after the prefix and the `current/total` text, clamped to
/// [`MIN_BAR_WIDTH`]..=[`MAX_BAR_WIDTH`].
pub fn bar_layout(prefix_len: usize, current: usize, total: usize, width: usize) -> (r: (usize, usize))
    requires
        prefix_len <= usize::MAX - 64,
        current * MAX_BAR_WIDTH <= usize::MAX,
    ensures
        ({
            let w = bar_width(prefix_len as int, current as int, total as int, width as int);
            let filled = if total > 0 { (current * w) / (total as int) } else { 0 };
            &&& r.0 == filled
            &&& r.1 == if w >= filled { w - filled } else { 0 }
        }),
{
    let text_len = count_digits(current) + 1 + count_digits(total);
    let overhead = prefix_len + BAR_WRAPPER_LEN + SPACE_BEFORE_COUNT + text_len;
    let available = width.saturating_sub(overhead);
    let w = if available < MIN_BAR_WIDTH {
        MIN_BAR_WIDTH
    } else if available > MAX_BAR_WIDTH {
        MAX_BAR_WIDTH
    } else {
        available
    };
    assert(current * w <= current * MAX_BAR_WIDTH) by (nonlinear_arith)
        requires w <= MAX_BAR_WIDTH;
    let filled = if total > 0 { (current * w) / total } else { 0 };
    let empty = w.saturating_sub(filled);
    (filled, empty)
}

} // verus!
