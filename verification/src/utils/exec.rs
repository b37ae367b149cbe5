//! Filtering of the output of external commands.
//!
//! Commands are run by the program; this module decides which of their
//! output lines are worth logging and how a failure is reported.

use vstd::prelude::*;
use crate::utils::pattern::{ansi_free, regex_replace_all};
use crate::utils::slug::join;
use crate::utils::text::{
    from_chars, has_prefix, push_all, slice_vec, starts_with, to_chars, trim, trim_chars, trim_start,
};

verus! {

/// Matches ANSI colour escape sequences.
pub const ANSI_PATTERN: &'static str = r"\x1b\[[0-9;]*m";

/// `s` with ANSI colour escape sequences removed.
pub open spec fn ansi_stripped(s: Seq<char>) -> Seq<char> {
    ansi_free(s)
}

/// Removes ANSI colour escape sequences.
pub fn strip_ansi(s: &str) -> (r: String)
    ensures
        r@ == ansi_stripped(s@),
{
    regex_replace_all(ANSI_PATTERN, s, "")
}

/// A line of text without one trailing `\r`.
pub open spec fn strip_cr(l: Seq<char>) -> Seq<char> {
    if l.len() > 0 && l.last() == '\r' { l.drop_last() } else { l }
}

/// Whether position `i` holds the first `\n` of `s`.
pub open spec fn is_first_nl(s: Seq<char>, i: int) -> bool {
    0 <= i < s.len() && s[i] == '\n' && forall|j: int| 0 <= j < i ==> s[j] != '\n'
}

/// The lines of `s` as `str::lines` yields them: split at `\n`, a `\r`
/// before the `\n` removed, no empty line after a final `\n`.
pub open spec fn text_lines(s: Seq<char>) -> Seq<Seq<char>>
    decreases s.len(),
{
    if s.len() == 0 {
        seq![]
    } else if exists|i: int| is_first_nl(s, i) {
        let i = choose|i: int| is_first_nl(s, i);
        seq![strip_cr(s.subrange(0, i))] + text_lines(s.subrange(i + 1, s.len() as int))
    } else {
        seq![s]
    }
}

proof fn lemma_text_lines_step(s: Seq<char>, i: int)
    requires
        is_first_nl(s, i),
    ensures
        text_lines(s) == seq![strip_cr(s.subrange(0, i))] + text_lines(s.subrange(i + 1, s.len() as int)),
{
    let k = choose|k: int| is_first_nl(s, k);
    if k < i {
    } else if k > i {
        assert(s[i] != '\n');
    }
}

/// Splits text into lines like `str::lines`.
pub fn split_lines(s: &str) -> (r: Vec<String>)
    ensures
        r@.map_values(|l: String| l@) == text_lines(s@),
{
    let v = to_chars(s);
    let n = v.len();
    let mut out: Vec<String> = Vec::new();
    let mut start: usize = 0;
    assert(v@.subrange(0, n as int) =~= v@);
    while start < n
        invariant
            start <= n == v@.len(),
            out@.map_values(|l: String| l@) + text_lines(v@.subrange(start as int, n as int)) == text_lines(v@),
        decreases n - start,
    {
        let mut i = start;
        while i < n && v[i] != '\n'
            invariant
                start <= i <= n == v@.len(),
                forall|j: int| start <= j < i ==> v@[j] != '\n',
            decreases n - i,
        {
            i = i + 1;
        }
        let ghost rest = v@.subrange(start as int, n as int);
        let ghost before = out@.map_values(|l: String| l@);
        if i < n {
            let mut line = slice_vec(&v, start, i);
            let ghost raw = line@;
            if line.len() > 0 && line[line.len() - 1] == '\r' {
                line.pop();
            }
            assert(line@ == strip_cr(raw));
            out.push(from_chars(&line));
            proof {
                assert(is_first_nl(rest, i - start)) by {
                    assert forall|j: int| 0 <= j < i - start implies rest[j] != '\n' by {
                        assert(rest[j] == v@[start + j]);
                    }
                }
                lemma_text_lines_step(rest, i - start);
                assert(rest.subrange(0, i - start) =~= raw);
                assert(rest.subrange(i - start + 1, rest.len() as int) =~= v@.subrange(i + 1, n as int));
                assert(out@.map_values(|l: String| l@) =~= before.push(strip_cr(raw)));
                assert(before + (seq![strip_cr(raw)] + text_lines(v@.subrange(i + 1, n as int)))
                    =~= before.push(strip_cr(raw)) + text_lines(v@.subrange(i + 1, n as int)));
            }
            start = i + 1;
        } else {
            let line = slice_vec(&v, start, n);
            out.push(from_chars(&line));
            proof {
                assert(!(exists|j: int| is_first_nl(rest, j))) by {
                    if exists|j: int| is_first_nl(rest, j) {
                        let j = choose|j: int| is_first_nl(rest, j);
                        assert(rest[j] == v@[start + j]);
                    }
                }
                assert(rest =~= line@);
                assert(text_lines(rest) == seq![rest]);
                assert(v@.subrange(n as int, n as int) =~= Seq::<char>::empty());
                assert(out@.map_values(|l: String| l@) =~= before.push(rest));
                assert(before + seq![rest] =~= before.push(rest) + text_lines(Seq::<char>::empty()));
            }
            start = n;
        }
    }
    proof {
        assert(v@.subrange(n as int, n as int) =~= Seq::<char>::empty());
        assert(out@.map_values(|l: String| l@) + Seq::<Seq<char>>::empty() =~= out@.map_values(|l: String| l@));
    }
    out
}

/// Filter rule for skipping command output by line prefix.
pub struct FilterRule {
    /// Prefixes of lines (or whole outputs) to skip.
    pub skip_prefixes: Vec<String>,
}

/// Whether `output` is skipped: empty, or starting with one of the prefixes.
pub open spec fn skipped(prefixes: Seq<String>, output: Seq<char>) -> bool {
    output.len() == 0 || exists|k: int| 0 <= k < prefixes.len() && has_prefix(output, (#[trigger] prefixes[k])@)
}

/// Whether a line of output is worth logging: after removing colour codes
/// and surrounding whitespace it is non-empty and not skipped.
pub open spec fn loggable(prefixes: Seq<String>, line: Seq<char>) -> bool {
    let t = trim(ansi_stripped(line));
    t.len() > 0 && !skipped(prefixes, t)
}

/// The lines of `output` that are worth logging, in order.
pub open spec fn loggable_lines(prefixes: Seq<String>, lines: Seq<Seq<char>>) -> Seq<Seq<char>>
    decreases lines.len(),
{
    if lines.len() == 0 {
        seq![]
    } else if loggable(prefixes, lines.last()) {
        loggable_lines(prefixes, lines.drop_last()).push(lines.last())
    } else {
        loggable_lines(prefixes, lines.drop_last())
    }
}

impl FilterRule {
    /// Creates a filter rule with the given prefixes.
    pub fn new(skip_prefixes: &[&str]) -> (r: Self)
        ensures
            r.skip_prefixes@.len() == skip_prefixes@.len(),
            forall|k: int| 0 <= k < skip_prefixes@.len() ==> (#[trigger] r.skip_prefixes@[k])@ == skip_prefixes@[k]@,
    {
        let mut v: Vec<String> = Vec::new();
        let mut i: usize = 0;
        while i < skip_prefixes.len()
            invariant
                i <= skip_prefixes@.len(),
                v@.len() == i,
                forall|k: int| 0 <= k < i ==> (#[trigger] v@[k])@ == skip_prefixes@[k]@,
            decreases skip_prefixes.len() - i,
        {
            v.push(skip_prefixes[i].to_owned());
            i = i + 1;
        }
        FilterRule { skip_prefixes: v }
    }

    /// Whether an output is skipped entirely: it is empty or starts with one
    /// of the skip prefixes.
    pub fn should_skip(&self, output: &str) -> (r: bool)
        ensures
            r == skipped(self.skip_prefixes@, output@),
    {
        let o = to_chars(output);
        if o.len() == 0 {
            return true;
        }
        let mut k: usize = 0;
        while k < self.skip_prefixes.len()
            invariant
                k <= self.skip_prefixes@.len(),
                o@ == output@,
                o@.len() > 0,
                forall|j: int| 0 <= j < k ==> !has_prefix(o@, (#[trigger] self.skip_prefixes@[j])@),
            decreases self.skip_prefixes.len() - k,
        {
            let p = to_chars(self.skip_prefixes[k].as_str());
            if starts_with(&o, &p) {
                return true;
            }
            k = k + 1;
        }
        false
    }

    /// The message to log for an output: its loggable lines joined by
    /// newlines, or `None` when no line is worth logging.
    pub fn filter_log_lines(&self, output: &str) -> (r: Option<String>)
        ensures
            ({
                let kept = loggable_lines(self.skip_prefixes@, text_lines(output@));
                &&& kept.len() == 0 ==> r is None
                &&& kept.len() > 0 ==> (r matches Some(m) && m@ == join(kept, '\n'))
            }),
    {
        let lines = split_lines(output);
        let ghost all = lines@.map_values(|l: String| l@);
        let mut kept: Vec<char> = Vec::new();
        let mut count: usize = 0;
        let mut i: usize = 0;
        while i < lines.len()
            invariant
                i <= lines@.len(),
                all == lines@.map_values(|l: String| l@),
                count == loggable_lines(self.skip_prefixes@, all.subrange(0, i as int)).len(),
                count <= i,
                kept@ == join(loggable_lines(self.skip_prefixes@, all.subrange(0, i as int)), '\n'),
            decreases lines.len() - i,
        {
            let line = lines[i].as_str();
            let plain = strip_ansi(line);
            let t = trim_chars(&to_chars(plain.as_str()));
            let ts = from_chars(&t);
            assert(all.subrange(0, i + 1).drop_last() =~= all.subrange(0, i as int));
            assert(all.subrange(0, i + 1).last() == line@);
            if t.len() > 0 && !self.should_skip(ts.as_str()) {
                let ghost prev = loggable_lines(self.skip_prefixes@, all.subrange(0, i as int));
                if count > 0 {
                    kept.push('\n');
                    push_all(&mut kept, &to_chars(line));
                    proof {
                        assert(prev.push(line@).drop_last() =~= prev);
                        assert(join(prev.push(line@), '\n') == join(prev, '\n') + seq!['\n'] + line@);
                        assert(kept@ =~= join(prev, '\n') + seq!['\n'] + line@);
                    }
                } else {
                    push_all(&mut kept, &to_chars(line));
                    proof {
                        assert(prev.len() == 0);
                        assert(prev.push(line@) =~= seq![line@]);
                        assert(kept@ =~= line@);
                    }
                }
                count = count + 1;
            }
            i = i + 1;
        }
        assert(all.subrange(0, i as int) =~= all);
        if count == 0 {
            None
        } else {
            Some(from_chars(&kept))
        }
    }
}


/// The filter for the standard output of failed commands: skips HTML and JSON.
pub fn stdout_filter() -> (r: FilterRule)
    ensures
        r.skip_prefixes@.len() == 2,
        r.skip_prefixes@[0]@ == "<!DOCTYPE"@,
        r.skip_prefixes@[1]@ == "{"@,
{
    FilterRule::new(&["<!DOCTYPE", "{"])
}

/// The empty filter: skips nothing but empty output.
pub fn empty_filter() -> (r: FilterRule)
    ensures
        r.skip_prefixes@.len() == 0,
{
    FilterRule::new(&[])
}

/// The silent filter: its empty prefix skips every output.
pub fn silent_filter() -> (r: FilterRule)
    ensures
        r.skip_prefixes@.len() == 1,
        r.skip_prefixes@[0]@ == ""@,
{
    FilterRule::new(&[""])
}

/// `s` without its leading repetitions of the non-empty `p` (unchanged for an
/// empty `p`), as `str::trim_start_matches` returns.
pub open spec fn trim_start_repeats(s: Seq<char>, p: Seq<char>) -> Seq<char>
    decreases s.len(),
{
    if p.len() > 0 && has_prefix(s, p) {
        trim_start_repeats(s.subrange(p.len() as int, s.len() as int), p)
    } else {
        s
    }
}

fn trim_start_str(v: &[char], p: &[char]) -> (r: Vec<char>)
    ensures
        r@ == trim_start_repeats(v@, p@),
{
    let n = v.len();
    let mut i: usize = 0;
    assert(v@.subrange(0, n as int) =~= v@);
    if p.len() == 0 {
        return slice_vec(v, 0, n);
    }
    while i <= n && crate::utils::text::matches_at(v, p, i)
        invariant
            i <= n == v@.len(),
            p@.len() > 0,
            trim_start_repeats(v@, p@) == trim_start_repeats(v@.subrange(i as int, n as int), p@),
        decreases n - i,
    {
        proof {
            let sub = v@.subrange(i as int, n as int);
            assert(sub.subrange(0, p@.len() as int) =~= v@.subrange(i as int, i + p@.len()));
            assert(sub.subrange(p@.len() as int, sub.len() as int) =~= v@.subrange(i + p@.len(), n as int));
        }
        i = i + p.len();
    }
    proof {
        let sub = v@.subrange(i as int, n as int);
        if has_prefix(sub, p@) {
            assert(sub.subrange(0, p@.len() as int) =~= v@.subrange(i as int, i + p@.len()));
        }
    }
    slice_vec(v, i, n)
}

fn trim_start_ws(v: &[char]) -> (r: Vec<char>)
    ensures
        r@ == trim_start(v@),
{
    let n = v.len();
    let mut i: usize = 0;
    assert(v@.subrange(0, n as int) =~= v@);
    while i < n && crate::utils::text::is_whitespace(v[i])
        invariant
            i <= n == v@.len(),
            trim_start(v@) == trim_start(v@.subrange(i as int, n as int)),
        decreases n - i,
    {
        assert(v@.subrange(i as int, n as int).drop_first() =~= v@.subrange(i + 1, n as int));
        i = i + 1;
    }
    proof {
        if i < n {
            assert(v@.subrange(i as int, n as int)[0] == v@[i as int]);
        }
    }
    slice_vec(v, i, n)
}

/// The error text of a failed command: its trimmed standard error with each
/// skip prefix in turn (and the whitespace after it) removed from the front.
pub open spec fn error_text(stderr: Seq<char>, prefixes: Seq<String>, k: int) -> Seq<char>
    decreases k,
{
    if k <= 0 {
        trim(stderr)
    } else {
        trim_start(trim_start_repeats(error_text(stderr, prefixes, k - 1), prefixes[k - 1]@))
    }
}

/// The report of a failed command.
pub open spec fn error_report(name: Seq<char>, status: Seq<char>, stderr: Seq<char>, stdout: Seq<char>,
    prefixes: Seq<String>) -> Seq<char>
{
    let head = "Command `"@ + name + "` failed with "@ + status + "\n"@;
    let err = error_text(stderr, prefixes, prefixes.len() as int);
    let out = trim(stdout);
    let stdout_skipped = out.len() == 0 || has_prefix(out, "<!DOCTYPE"@) || has_prefix(out, "{"@);
    head + err + if !stdout_skipped { "\nStdout:\n"@ + out } else { seq![] }
}

/// Formats the error message of a failed command from its name, its exit
/// status text and its outputs, leaving out known noise.
pub fn format_error(name: &str, status: &str, stderr: &str, stdout: &str, filter: &FilterRule) -> (r: String)
    ensures
        r@ == error_report(name@, status@, stderr@, stdout@, filter.skip_prefixes@),
{
    let mut err = trim_chars(&to_chars(stderr));
    let mut k: usize = 0;
    while k < filter.skip_prefixes.len()
        invariant
            k <= filter.skip_prefixes@.len(),
            err@ == error_text(stderr@, filter.skip_prefixes@, k as int),
        decreases filter.skip_prefixes.len() - k,
    {
        let p = to_chars(filter.skip_prefixes[k].as_str());
        let t = trim_start_str(&err, &p);
        err = trim_start_ws(&t);
        k = k + 1;
    }
    let mut msg = to_chars("Command `");
    push_all(&mut msg, &to_chars(name));
    push_all(&mut msg, &to_chars("` failed with "));
    push_all(&mut msg, &to_chars(status));
    push_all(&mut msg, &to_chars("\n"));
    push_all(&mut msg, &err);
    let out = trim_chars(&to_chars(stdout));
    let out_s = from_chars(&out);
    let sf = stdout_filter();
    if out.len() > 0 && !sf.should_skip(out_s.as_str()) {
        push_all(&mut msg, &to_chars("\nStdout:\n"));
        push_all(&mut msg, &out);
        proof {
            assert(!skipped(sf.skip_prefixes@, out@));
            assert(!has_prefix(out@, sf.skip_prefixes@[0]@));
            assert(!has_prefix(out@, sf.skip_prefixes@[1]@));
        }
    } else {
        proof {
            if out@.len() > 0 {
                let j = choose|j: int| 0 <= j < sf.skip_prefixes@.len() && has_prefix(out@, (#[trigger] sf.skip_prefixes@[j])@);
                assert(j == 0 || j == 1);
            }
        }
    }
    from_chars(&msg)
}


/// The arguments that are not empty, in their order.
pub open spec fn nonempty_args(s: Seq<Seq<char>>) -> Seq<Seq<char>>
    decreases s.len(),
{
    if s.len() == 0 {
        s
    } else if s.last().len() > 0 {
        nonempty_args(s.drop_last()).push(s.last())
    } else {
        nonempty_args(s.drop_last())
    }
}

/// The views of a list of strings.
pub open spec fn strings_view(s: Seq<String>) -> Seq<Seq<char>> {
    s.map_values(|a: String| a@)
}

/// The arguments of a command without the empty ones, which optional
/// arguments leave behind.
pub fn filter_args(args: &[String]) -> (r: Vec<String>)
    ensures
        strings_view(r@) == nonempty_args(strings_view(args@)),
{
    let mut out: Vec<String> = Vec::new();
    let mut i: usize = 0;
    while i < args.len()
        invariant
            i <= args@.len(),
            strings_view(out@) == nonempty_args(strings_view(args@.subrange(0, i as int))),
        decreases args@.len() - i,
    {
        proof {
            let pre = strings_view(args@.subrange(0, i + 1));
            assert(pre.drop_last() =~= strings_view(args@.subrange(0, i as int)));
            assert(pre.last() == args@[i as int]@);
        }
        if to_chars(args[i].as_str()).len() > 0 {
            let a = args[i].as_str().to_owned();
            out.push(a);
            assert(strings_view(out@) =~= strings_view(out@.drop_last()).push(a@));
        }
        i = i + 1;
    }
    assert(args@.subrange(0, i as int) =~= args@);
    out
}

} // verus!
