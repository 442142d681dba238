//! The `grep` builtin: argument parsing, regex matching through the `regex`
//! crate, whole-word filtering, and trailing-context output.

use vstd::prelude::*;
use vstd::string::*;

use crate::parser::{find_char_from, lemma_find_char_from_bounds, lemma_find_char_from_is};
use crate::text::{
    char_is_alphanumeric, parse_usize, parse_usize_spec, push_char, str_eq, unicode_alphanumeric,
};
use crate::types::{BuiltinOutput, ShellControl};

verus! {

// ---------------------------------------------------------------------------
// The trusted regex layer
// ---------------------------------------------------------------------------
#[verifier::external_type_specification]
#[verifier::external_body]
pub struct ExRegex(regex::Regex);

/// A compiled pattern together with the text it was compiled from.
pub struct Matcher {
    re: regex::Regex,
    pattern: String,
    ignore_case: bool,
}

impl Matcher {
    /// The pattern text this matcher was compiled from.
    pub closed spec fn pat(&self) -> Seq<char> {
        self.pattern@
    }

    /// Whether it was compiled case-insensitively.
    pub closed spec fn ci(&self) -> bool {
        self.ignore_case
    }
}

/// Whether the `regex` crate accepts the pattern (with the given
/// case-insensitivity flag).
pub uninterp spec fn regex_accepts(pat: Seq<char>, ci: bool) -> bool;

/// The error text `regex` reports for a pattern it rejects.
pub uninterp spec fn regex_error_text(pat: Seq<char>, ci: bool) -> Seq<char>;

/// Relies on `regex::RegexBuilder::build` (after `case_insensitive`):
/// whether a pattern compiles, and the error text when it does not, depend
/// on the pattern and the flag alone.
#[verifier::external_body]
fn compile_matcher(pattern: &str, ignore_case: bool) -> (r: Result<Matcher, String>)
    ensures
        match r {
            Ok(m) => regex_accepts(pattern@, ignore_case) && m.pat() == pattern@ && m.ci()
                == ignore_case,
            Err(e) => !regex_accepts(pattern@, ignore_case) && e@ == regex_error_text(
                pattern@,
                ignore_case,
            ),
        },
{
    match regex::RegexBuilder::new(pattern).case_insensitive(ignore_case).build() {
        Ok(re) => Ok(Matcher { re, pattern: pattern.to_owned(), ignore_case }),
        Err(e) => Err(e.to_string()),
    }
}

/// Whether the pattern matches anywhere in the line.
pub uninterp spec fn regex_match(pat: Seq<char>, ci: bool, line: Seq<char>) -> bool;

/// Relies on `regex::Regex::is_match`: the answer depends on the pattern,
/// the flag and the line alone.
#[verifier::external_body]
fn matcher_is_match(m: &Matcher, line: &str) -> (r: bool)
    ensures
        r == regex_match(m.pat(), m.ci(), line@),
{
    m.re.is_match(line)
}

/// The successive non-overlapping matches of the pattern in the line, each
/// as its byte span and the characters just before and after it.
pub uninterp spec fn regex_match_info(pat: Seq<char>, ci: bool, line: Seq<char>) -> Seq<
    (usize, usize, Option<char>, Option<char>),
>;

/// Relies on `regex::Regex::find_iter`: the matches, their byte spans and
/// their neighbouring characters depend on the pattern, the flag and the
/// line alone.
#[verifier::external_body]
fn matcher_find_info(m: &Matcher, line: &str) -> (r: Vec<(usize, usize, Option<char>, Option<char>)>)
    ensures
        r@ == regex_match_info(m.pat(), m.ci(), line@),
{
    m.re.find_iter(line).map(
        |mm: regex::Match<'_>| (
            mm.start(),
            mm.end(),
            line[..mm.start()].chars().next_back(),
            line[mm.end()..].chars().next(),
        ),
    ).collect()
}

// ---------------------------------------------------------------------------
// Whole-word matching
// ---------------------------------------------------------------------------
/// A word-constituent character: Unicode alphanumeric or the underscore.
pub open spec fn word_constituent(c: char) -> bool {
    unicode_alphanumeric(c) || c == '_'
}

/// Whether the character is part of a word for `-w`.
pub fn is_word_constituent(c: char) -> (r: bool)
    ensures
        r == word_constituent(c),
{
    char_is_alphanumeric(c) || c == '_'
}

/// Whether one reported match counts as a whole word: not zero-width, and
/// not adjacent to a word-constituent character on either side.
pub open spec fn info_whole_word(mi: (usize, usize, Option<char>, Option<char>)) -> bool {
    &&& mi.0 != mi.1
    &&& (match mi.2 {
        Some(c) => !word_constituent(c),
        None => true,
    })
    &&& (match mi.3 {
        Some(c) => !word_constituent(c),
        None => true,
    })
}

/// Whether any reported match counts as a whole word.
pub open spec fn any_whole_word(infos: Seq<(usize, usize, Option<char>, Option<char>)>) -> bool {
    exists|i: int| 0 <= i < infos.len() && info_whole_word(#[trigger] infos[i])
}

/// Whether the line has a whole-word match of the pattern.
pub open spec fn whole_word_match(pat: Seq<char>, ci: bool, line: Seq<char>) -> bool {
    any_whole_word(regex_match_info(pat, ci, line))
}

/// Decides whole-word matching for one line: some match must be non-empty
/// and bounded by non-word characters (or the ends of the line).
pub fn line_has_whole_word_match(m: &Matcher, line: &str) -> (r: bool)
    ensures
        r == whole_word_match(m.pat(), m.ci(), line@),
{
    let infos = matcher_find_info(m, line);
    let n = infos.len();
    let mut i: usize = 0;
    while i < n
        invariant
            0 <= i <= n,
            n == infos@.len(),
            infos@ == regex_match_info(m.pat(), m.ci(), line@),
            forall|k: int| 0 <= k < i ==> !info_whole_word(#[trigger] infos@[k]),
        decreases n - i,
    {
        let (start, end, before, after) = infos[i];
        if start != end {
            let ok_before = match before {
                Some(c) => !is_word_constituent(c),
                None => true,
            };
            let ok_after = match after {
                Some(c) => !is_word_constituent(c),
                None => true,
            };
            if ok_before && ok_after {
                proof {
                    assert(info_whole_word(infos@[i as int]));
                }
                return true;
            }
        }
        i = i + 1;
    }
    false
}

/// Whether the line matches for `grep`: plainly, or as a whole word under
/// `-w`.
pub open spec fn grep_line_match(pat: Seq<char>, ci: bool, word: bool, line: Seq<char>) -> bool {
    if word {
        whole_word_match(pat, ci, line)
    } else {
        regex_match(pat, ci, line)
    }
}

fn line_matches(m: &Matcher, word: bool, line: &str) -> (r: bool)
    ensures
        r == grep_line_match(m.pat(), m.ci(), word, line@),
{
    if word {
        line_has_whole_word_match(m, line)
    } else {
        matcher_is_match(m, line)
    }
}

// ---------------------------------------------------------------------------
// Splitting a text into lines
// ---------------------------------------------------------------------------
/// The lines of a text from position `i` on, as `str::lines` yields them:
/// split at `\n`, a `\r` just before the `\n` dropped, a final line without
/// a terminator kept, and no empty line after a final terminator.
pub open spec fn split_lines_from(s: Seq<char>, i: int) -> Seq<Seq<char>>
    decreases s.len() - i,
    when 0 <= i <= s.len()
    via split_lines_from_decreases
{
    if i >= s.len() {
        Seq::empty()
    } else {
        let e = find_char_from(s, '\n', i);
        if e == s.len() {
            seq![s.subrange(i, e)]
        } else {
            let line = s.subrange(i, e);
            let stripped = if line.len() > 0 && line.last() == '\r' {
                line.drop_last()
            } else {
                line
            };
            seq![stripped] + split_lines_from(s, e + 1)
        }
    }
}

#[via_fn]
proof fn split_lines_from_decreases(s: Seq<char>, i: int) {
    if 0 <= i < s.len() {
        lemma_find_char_from_bounds(s, '\n', i);
    }
}

/// The lines of a whole text.
pub open spec fn split_lines_spec(s: Seq<char>) -> Seq<Seq<char>> {
    split_lines_from(s, 0)
}

/// Splits a text into lines, as `str::lines` does.
pub fn split_lines(text: &str) -> (r: Vec<String>)
    ensures
        r.deep_view() == split_lines_spec(text@),
{
    let n = text.unicode_len();
    let mut out: Vec<String> = Vec::new();
    let mut i: usize = 0;
    proof {
        assert(out.deep_view() =~= Seq::<Seq<char>>::empty());
        assert(out.deep_view() + split_lines_from(text@, 0) =~= split_lines_from(text@, 0));
    }
    while i < n
        invariant
            0 <= i <= n,
            n == text@.len(),
            split_lines_spec(text@) == out.deep_view() + split_lines_from(text@, i as int),
        decreases n - i,
    {
        let mut e: usize = i;
        while e < n && text.get_char(e) != '\n'
            invariant
                i <= e <= n,
                n == text@.len(),
                forall|k: int| i <= k < e ==> text@[k] != '\n',
            decreases n - e,
        {
            e = e + 1;
        }
        proof {
            lemma_find_char_from_is(text@, '\n', i as int, e as int);
        }
        let ghost o0 = out.deep_view();
        if e == n {
            let line = text.substring_char(i, e);
            out.push(String::from_str(line));
            proof {
                assert(out.deep_view() =~= o0.push(text@.subrange(i as int, e as int)));
                assert(out.deep_view() =~= o0 + seq![text@.subrange(i as int, e as int)]);
            }
            i = e;
            proof {
                assert(split_lines_from(text@, i as int) =~= Seq::<Seq<char>>::empty());
                assert(out.deep_view() + split_lines_from(text@, i as int) =~= out.deep_view());
            }
            return out;
        }
        let end = if e > i && text.get_char(e - 1) == '\r' {
            e - 1
        } else {
            e
        };
        let line = text.substring_char(i, end);
        out.push(String::from_str(line));
        proof {
            let lv = text@.subrange(i as int, e as int);
            let stripped = if lv.len() > 0 && lv.last() == '\r' {
                lv.drop_last()
            } else {
                lv
            };
            assert(stripped =~= text@.subrange(i as int, end as int));
            assert(out.deep_view() =~= o0.push(stripped));
            assert(o0 + (seq![stripped] + split_lines_from(text@, e as int + 1)) =~= o0.push(
                stripped,
            ) + split_lines_from(text@, e as int + 1));
        }
        i = e + 1;
    }
    proof {
        assert(split_lines_from(text@, n as int) =~= Seq::<Seq<char>>::empty());
        assert(out.deep_view() + split_lines_from(text@, n as int) =~= out.deep_view());
    }
    out
}

// ---------------------------------------------------------------------------
// Argument parsing
// ---------------------------------------------------------------------------
/// The options and operands of a `grep` invocation.
#[derive(Debug)]
pub struct GrepArgs {
    pub word: bool,
    pub ignore_case: bool,
    pub after: usize,
    pub pattern: String,
    pub files: Vec<String>,
}

/// The parsed invocation as mathematics.
pub ghost struct GrepArgsV {
    pub word: bool,
    pub ignore_case: bool,
    pub after: nat,
    pub pattern: Seq<char>,
    pub files: Seq<Seq<char>>,
}

impl View for GrepArgs {
    type V = GrepArgsV;

    open spec fn view(&self) -> GrepArgsV {
        GrepArgsV {
            word: self.word,
            ignore_case: self.ignore_case,
            after: self.after as nat,
            pattern: self.pattern@,
            files: self.files.deep_view(),
        }
    }
}

/// How the argument list reads as options and operands: leading `-w`, `-i`
/// and `-A N` options, then the pattern, then the files.  The error is the
/// message text for a bad invocation.
pub open spec fn parse_grep_opts(
    args: Seq<Seq<char>>,
    i: int,
    word: bool,
    ci: bool,
    after: nat,
) -> Result<GrepArgsV, Seq<char>>
    decreases args.len() - i,
    when 0 <= i <= args.len()
{
    if i >= args.len() {
        Err("missing pattern"@)
    } else if args[i] == "-w"@ {
        parse_grep_opts(args, i + 1, true, ci, after)
    } else if args[i] == "-i"@ {
        parse_grep_opts(args, i + 1, word, true, after)
    } else if args[i] == "-A"@ {
        if i + 1 >= args.len() {
            Err("missing value for -A"@)
        } else {
            match parse_usize_spec(args[i + 1]) {
                Some(v) => parse_grep_opts(args, i + 2, word, ci, v as nat),
                None => Err("invalid value for -A"@),
            }
        }
    } else if args[i].len() > 1 && args[i][0] == '-' {
        Err("unrecognized option: "@ + args[i])
    } else {
        Ok(
            GrepArgsV {
                word,
                ignore_case: ci,
                after,
                pattern: args[i],
                files: args.skip(i + 1),
            },
        )
    }
}

/// The whole invocation parsed.
pub open spec fn parse_grep_args_spec(args: Seq<Seq<char>>) -> Result<GrepArgsV, Seq<char>> {
    parse_grep_opts(args, 0, false, false, 0)
}

/// Parses a `grep` invocation: `[-w] [-i] [-A N] PATTERN [FILE...]`.
pub fn parse_grep_args(args: &Vec<String>) -> (r: Result<GrepArgs, String>)
    ensures
        match r {
            Ok(g) => parse_grep_args_spec(args.deep_view()) == Ok::<GrepArgsV, Seq<char>>(g@),
            Err(e) => parse_grep_args_spec(args.deep_view()) == Err::<GrepArgsV, Seq<char>>(e@),
        },
{
    let n = args.len();
    let ghost av = args.deep_view();
    let mut word = false;
    let mut ci = false;
    let mut after: usize = 0;
    let mut i: usize = 0;
    while i < n
        invariant
            0 <= i <= n,
            n == args@.len(),
            av == args.deep_view(),
            av.len() == n,
            parse_grep_args_spec(av) == parse_grep_opts(av, i as int, word, ci, after as nat),
        decreases n - i,
    {
        if str_eq(args[i].as_str(), "-w") {
            word = true;
            i = i + 1;
        } else if str_eq(args[i].as_str(), "-i") {
            ci = true;
            i = i + 1;
        } else if str_eq(args[i].as_str(), "-A") {
            if i + 1 >= n {
                return Err(String::from_str("missing value for -A"));
            }
            match parse_usize(args[i + 1].as_str()) {
                Some(v) => {
                    after = v;
                    i = i + 2;
                },
                None => {
                    return Err(String::from_str("invalid value for -A"));
                },
            }
        } else {
            let a = &args[i];
            if a.as_str().unicode_len() > 1 && a.as_str().get_char(0) == '-' {
                let mut msg = String::from_str("unrecognized option: ");
                msg.append(a.as_str());
                return Err(msg);
            }
            let pattern = a.clone();
            let mut files: Vec<String> = Vec::new();
            let mut j: usize = i + 1;
            proof {
                assert(files.deep_view() =~= av.subrange(i as int + 1, i as int + 1));
            }
            while j < n
                invariant
                    i + 1 <= j <= n,
                    n == args@.len(),
                    av == args.deep_view(),
                    av.len() == n,
                    files.deep_view() =~= av.subrange(i as int + 1, j as int),
                decreases n - j,
            {
                let ghost f0 = files.deep_view();
                files.push(args[j].clone());
                proof {
                    assert(files.deep_view() =~= f0.push(av[j as int]));
                    assert(files.deep_view() =~= av.subrange(i as int + 1, j as int + 1));
                }
                j = j + 1;
            }
            proof {
                assert(av.subrange(i as int + 1, n as int) =~= av.skip(i as int + 1));
            }
            return Ok(GrepArgs { word, ignore_case: ci, after, pattern, files });
        }
    }
    Err(String::from_str("missing pattern"))
}

// ---------------------------------------------------------------------------
// Rendering with trailing context
// ---------------------------------------------------------------------------
/// The match flags of the lines under the given pattern and mode.
pub open spec fn line_match_flags(
    pat: Seq<char>,
    ci: bool,
    word: bool,
    lines: Seq<Seq<char>>,
) -> Seq<bool> {
    lines.map_values(|l: Seq<char>| grep_line_match(pat, ci, word, l))
}

/// Whether line `idx` is printed under `-A after`: some line at or before
/// it, and within `after` lines of it, matches.
pub open spec fn grep_emits(matches: Seq<bool>, after: nat, idx: int) -> bool {
    exists|j: int| 0 <= j <= idx && #[trigger] matches[j] && idx - j <= after
}

/// One printed line, with the `<path>:` prefix in multi-file searches.
pub open spec fn render_line(prefix: Option<Seq<char>>, line: Seq<char>) -> Seq<char> {
    match prefix {
        Some(p) => p + seq![':'] + line + seq!['\n'],
        None => line + seq!['\n'],
    }
}

/// Everything printed for the lines from `i` on: each line whose index is
/// still covered by a match's trailing context, exactly once, in order.
pub open spec fn grep_render_from(
    lines: Seq<Seq<char>>,
    matches: Seq<bool>,
    after: nat,
    prefix: Option<Seq<char>>,
    i: int,
) -> Seq<char>
    decreases lines.len() - i,
    when 0 <= i <= lines.len()
{
    if i >= lines.len() {
        Seq::empty()
    } else {
        (if grep_emits(matches, after, i) {
            render_line(prefix, lines[i])
        } else {
            Seq::empty()
        }) + grep_render_from(lines, matches, after, prefix, i + 1)
    }
}

/// Whether any flag is set.
pub open spec fn any_true(flags: Seq<bool>) -> bool {
    exists|j: int| 0 <= j < flags.len() && #[trigger] flags[j]
}

/// Saturating addition on machine-sized naturals.
pub open spec fn sat_add(j: nat, a: nat) -> nat {
    if j + a > usize::MAX {
        usize::MAX as nat
    } else {
        j + a
    }
}

/// The view of the optional file prefix.
pub open spec fn prefix_view(prefix: Option<&String>) -> Option<Seq<char>> {
    match prefix {
        Some(p) => Some(p@),
        None => None,
    }
}

/// Searches one buffer and appends the printed lines to `out`: a matching
/// line, and the `after` lines behind it, are printed; overlapping contexts
/// never print a line twice.  Returns whether anything matched.
fn grep_buffer(
    m: &Matcher,
    word: bool,
    after: usize,
    prefix: Option<&String>,
    bytes: &Vec<u8>,
    out: &mut String,
) -> (found: bool)
    ensures
        ({
            let lines = split_lines_spec(crate::text::lossy_decode(bytes@));
            let flags = line_match_flags(m.pat(), m.ci(), word, lines);
            &&& final(out)@ == old(out)@ + grep_render_from(
                lines,
                flags,
                after as nat,
                prefix_view(prefix),
                0,
            )
            &&& found == any_true(flags)
        }),
{
    let text = crate::text::utf8_lossy(bytes);
    let lines = split_lines(text.as_str());
    let n = lines.len();
    let ghost lv = lines.deep_view();
    let ghost fv = line_match_flags(m.pat(), m.ci(), word, lv);
    let mut flags: Vec<bool> = Vec::new();
    let mut found = false;
    let mut k: usize = 0;
    proof {
        assert(flags@ =~= fv.take(0));
    }
    while k < n
        invariant
            0 <= k <= n,
            n == lines@.len(),
            lv == lines.deep_view(),
            fv == line_match_flags(m.pat(), m.ci(), word, lv),
            lv.len() == n,
            fv.len() == n,
            flags@ =~= fv.take(k as int),
            found == any_true(fv.take(k as int)),
        decreases n - k,
    {
        let f = line_matches(m, word, lines[k].as_str());
        proof {
            assert(lv[k as int] == lines@[k as int]@);
            assert(fv[k as int] == grep_line_match(m.pat(), m.ci(), word, lv[k as int]));
        }
        flags.push(f);
        if f {
            found = true;
        }
        proof {
            assert(flags@ =~= fv.take(k as int + 1));
            if found {
                if f {
                    assert(fv.take(k as int + 1)[k as int]);
                    assert(any_true(fv.take(k as int + 1)));
                } else {
                    let j = choose|j: int| 0 <= j < fv.take(k as int).len() && fv.take(k as int)[j];
                    assert(fv.take(k as int + 1)[j]);
                }
            } else {
                assert forall|j: int| 0 <= j < k + 1 implies !(#[trigger] fv.take(k as int + 1)[j])
                    by {
                    if j < k {
                        assert(!fv.take(k as int)[j]);
                    }
                }
            }
        }
        k = k + 1;
    }
    proof {
        assert(fv.take(n as int) =~= fv);
    }
    let ghost pv = prefix_view(prefix);
    let mut until: Option<usize> = None;
    let mut i: usize = 0;
    while i < n
        invariant
            0 <= i <= n,
            n == lines@.len(),
            lv == lines.deep_view(),
            fv == line_match_flags(m.pat(), m.ci(), word, lv),
            lv.len() == n,
            fv.len() == n,
            flags@ =~= fv,
            pv == prefix_view(prefix),
            old(out)@ + grep_render_from(lv, fv, after as nat, pv, 0) == out@ + grep_render_from(
                lv,
                fv,
                after as nat,
                pv,
                i as int,
            ),
            match until {
                None => forall|j: int| 0 <= j < i ==> !fv[j],
                Some(u) => (exists|j: int|
                    0 <= j < i && #[trigger] fv[j] && u == sat_add(j as nat, after as nat)) && (
                forall|j: int|
                    0 <= j < i && #[trigger] fv[j] ==> sat_add(j as nat, after as nat) <= u),
            },
        decreases n - i,
    {
        if flags[i] {
            let cand = i.saturating_add(after);
            until = match until {
                None => Some(cand),
                Some(u) => Some(
                    if cand > u {
                        cand
                    } else {
                        u
                    },
                ),
            };
        }
        let emit = match until {
            Some(u) => i <= u,
            None => false,
        };
        proof {
            if emit {
                let u = until->Some_0;
                let j = choose|j: int|
                    0 <= j < i + 1 && #[trigger] fv[j] && u == sat_add(j as nat, after as nat);
                assert(i - j <= after);
                assert(grep_emits(fv, after as nat, i as int));
            } else {
                if grep_emits(fv, after as nat, i as int) {
                    let j = choose|j: int| 0 <= j <= i && #[trigger] fv[j] && i - j <= after;
                    assert(sat_add(j as nat, after as nat) >= i);
                    assert(false);
                }
            }
        }
        let ghost out0 = out@;
        if emit {
            match prefix {
                Some(p) => {
                    out.append(p.as_str());
                    push_char(out, ':');
                },
                None => {},
            }
            out.append(lines[i].as_str());
            push_char(out, '\n');
            proof {
                assert(out@ =~= out0 + render_line(pv, lv[i as int]));
            }
        }
        proof {
            let step = if grep_emits(fv, after as nat, i as int) {
                render_line(pv, lv[i as int])
            } else {
                Seq::<char>::empty()
            };
            assert(out@ =~= out0 + step);
            assert((out0 + step) + grep_render_from(lv, fv, after as nat, pv, i as int + 1) =~= out0
                + (step + grep_render_from(lv, fv, after as nat, pv, i as int + 1)));
        }
        i = i + 1;
    }
    proof {
        assert(grep_render_from(lv, fv, after as nat, pv, n as int) =~= Seq::<char>::empty());
        assert(out@ + grep_render_from(lv, fv, after as nat, pv, n as int) =~= out@);
    }
    found
}

// ---------------------------------------------------------------------------
// The whole command
// ---------------------------------------------------------------------------
/// The file paths `grep` will read: its file operands, when the invocation
/// parses; a bad invocation reads nothing.
pub open spec fn grep_operands_spec(args: Seq<Seq<char>>) -> Seq<Seq<char>> {
    match parse_grep_args_spec(args) {
        Ok(g) => g.files,
        Err(_) => Seq::empty(),
    }
}

/// What searching one file renders: nothing for an unreadable file.
pub open spec fn grep_file_render(g: GrepArgsV, file_bytes: Seq<u8>, i: int) -> Seq<char> {
    let lines = split_lines_spec(crate::text::lossy_decode(file_bytes));
    let flags = line_match_flags(g.pattern, g.ignore_case, g.word, lines);
    grep_render_from(
        lines,
        flags,
        g.after,
        if g.files.len() > 1 {
            Some(g.files[i])
        } else {
            None
        },
        0,
    )
}

/// Everything the searched files from `i` on print to stdout, in order.
pub open spec fn grep_files_render(
    g: GrepArgsV,
    rs: Seq<Result<Seq<u8>, Seq<char>>>,
    i: int,
) -> Seq<char>
    decreases rs.len() - i,
    when 0 <= i <= rs.len()
{
    if i >= rs.len() {
        Seq::empty()
    } else {
        (match rs[i] {
            Ok(b) => grep_file_render(g, b, i),
            Err(_) => Seq::<char>::empty(),
        }) + grep_files_render(g, rs, i + 1)
    }
}

/// The error lines for the unreadable files from `i` on, in order.
pub open spec fn grep_files_err(
    g: GrepArgsV,
    rs: Seq<Result<Seq<u8>, Seq<char>>>,
    i: int,
) -> Seq<char>
    decreases rs.len() - i,
    when 0 <= i <= rs.len()
{
    if i >= rs.len() {
        Seq::empty()
    } else {
        (match rs[i] {
            Ok(_) => Seq::<char>::empty(),
            Err(e) => "grep: "@ + g.files[i] + ": "@ + crate::builtins::io_error_message_spec(e)
                + "\n"@,
        }) + grep_files_err(g, rs, i + 1)
    }
}

/// Whether any searched file from `i` on holds a match.
pub open spec fn grep_files_found(
    g: GrepArgsV,
    rs: Seq<Result<Seq<u8>, Seq<char>>>,
    i: int,
) -> bool
    decreases rs.len() - i,
    when 0 <= i <= rs.len()
{
    if i >= rs.len() {
        false
    } else {
        (match rs[i] {
            Ok(b) => any_true(
                line_match_flags(
                    g.pattern,
                    g.ignore_case,
                    g.word,
                    split_lines_spec(crate::text::lossy_decode(b)),
                ),
            ),
            Err(_) => false,
        }) || grep_files_found(g, rs, i + 1)
    }
}

/// Everything `grep` guarantees, over the argument views, the stdin bytes
/// and the file-read outcomes.
pub open spec fn grep_post(
    av: Seq<Seq<char>>,
    stdin: Option<Seq<u8>>,
    rs: Seq<Result<Seq<u8>, Seq<char>>>,
    r: BuiltinOutput,
) -> bool {
    match parse_grep_args_spec(av) {
                Err(e) => r.control == ShellControl::Continue(2) && r.stdout@ == Seq::<u8>::empty()
                    && r.stderr@ == vstd::utf8::encode_utf8("grep: "@ + e + "\n"@),
                Ok(g) => {
                    if !regex_accepts(g.pattern, g.ignore_case) {
                        r.control == ShellControl::Continue(2) && r.stdout@ == Seq::<u8>::empty()
                            && r.stderr@ == vstd::utf8::encode_utf8(
                            "grep: invalid regex: "@ + regex_error_text(g.pattern, g.ignore_case)
                                + "\n"@,
                        )
                    } else if g.files.len() == 0 {
                        match stdin {
                            None => r.control == ShellControl::Continue(2) && r.stdout@ == Seq::<
                                u8,
                            >::empty() && r.stderr@ == vstd::utf8::encode_utf8(
                                "grep: missing file operand\n"@,
                            ),
                            Some(b) => {
                                let lines = split_lines_spec(crate::text::lossy_decode(b));
                                let flags = line_match_flags(
                                    g.pattern,
                                    g.ignore_case,
                                    g.word,
                                    lines,
                                );
                                &&& r.control == ShellControl::Continue(
                                    if any_true(flags) {
                                        0int
                                    } else {
                                        1int
                                    } as i32,
                                )
                                &&& r.stdout@ == vstd::utf8::encode_utf8(
                                    grep_render_from(lines, flags, g.after, None, 0),
                                )
                                &&& r.stderr@ == Seq::<u8>::empty()
                            },
                        }
                    } else {
                        &&& r.control == ShellControl::Continue(
                            if crate::builtins::any_read_err(rs) {
                                2int
                            } else if grep_files_found(g, rs, 0) {
                                0int
                            } else {
                                1int
                            } as i32,
                        )
                        &&& r.stdout@ == vstd::utf8::encode_utf8(grep_files_render(g, rs, 0))
                        &&& r.stderr@ == vstd::utf8::encode_utf8(grep_files_err(g, rs, 0))
                    }
                },
            }
}

/// `grep [-w] [-i] [-A N] PATTERN [FILE...]`: prints the matching lines of
/// its files, or of stdin; exits 0 when something matched, 1 when nothing
/// did, and 2 on a bad invocation, a bad pattern, or an unreadable file.
pub fn run_grep(args: &Vec<String>, stdin: Option<&Vec<u8>>, reads: &Vec<Result<Vec<u8>, String>>)
    -> (r: BuiltinOutput)
    requires
        reads@.len() == grep_operands_spec(args.deep_view()).len(),
    ensures
        grep_post(
            args.deep_view(),
            crate::builtins::opt_bytes_view(stdin),
            crate::builtins::reads_view(reads@),
            r,
        ),
{
    let parsed = match parse_grep_args(args) {
        Ok(g) => g,
        Err(e) => {
            let mut msg = String::from_str("grep: ");
            msg.append(e.as_str());
            msg.append("\n");
            return BuiltinOutput {
                control: ShellControl::Continue(2),
                stdout: Vec::new(),
                stderr: crate::builtins::string_bytes(&msg),
            };
        },
    };
    let m = match compile_matcher(parsed.pattern.as_str(), parsed.ignore_case) {
        Ok(m) => m,
        Err(e) => {
            let mut msg = String::from_str("grep: invalid regex: ");
            msg.append(e.as_str());
            msg.append("\n");
            return BuiltinOutput {
                control: ShellControl::Continue(2),
                stdout: Vec::new(),
                stderr: crate::builtins::string_bytes(&msg),
            };
        },
    };
    if parsed.files.len() == 0 {
        match stdin {
            None => {
                let msg = String::from_str("grep: missing file operand\n");
                return BuiltinOutput {
                    control: ShellControl::Continue(2),
                    stdout: Vec::new(),
                    stderr: crate::builtins::string_bytes(&msg),
                };
            },
            Some(input) => {
                let mut out = String::new();
                let found = grep_buffer(&m, parsed.word, parsed.after, None, input, &mut out);
                let code: i32 = if found {
                    0
                } else {
                    1
                };
                return BuiltinOutput {
                    control: ShellControl::Continue(code),
                    stdout: crate::builtins::string_bytes(&out),
                    stderr: Vec::new(),
                };
            },
        }
    }
    let ghost gv = parsed@;
    let ghost rs = crate::builtins::reads_view(reads@);
    let multi = parsed.files.len() > 1;
    let n = parsed.files.len();
    let mut out = String::new();
    let mut err = String::new();
    let mut found = false;
    let mut had_err = false;
    let mut i: usize = 0;
    proof {
        assert(rs.take(0) =~= Seq::<Result<Seq<u8>, Seq<char>>>::empty());
    }
    while i < n
        invariant
            0 <= i <= n,
            n == parsed.files@.len(),
            reads@.len() == n,
            gv == parsed@,
            rs == crate::builtins::reads_view(reads@),
            gv.files.len() == n,
            rs.len() == n,
            multi == (n > 1),
            m.pat() == gv.pattern,
            m.ci() == gv.ignore_case,
            parsed.word == gv.word,
            parsed.after as nat == gv.after,
            grep_files_render(gv, rs, 0) == out@ + grep_files_render(gv, rs, i as int),
            grep_files_err(gv, rs, 0) == err@ + grep_files_err(gv, rs, i as int),
            grep_files_found(gv, rs, 0) == (found || grep_files_found(gv, rs, i as int)),
            had_err == crate::builtins::any_read_err(rs.take(i as int)),
        decreases n - i,
    {
        let ghost out0 = out@;
        let ghost err0 = err@;
        proof {
            assert(rs[i as int] == crate::builtins::reads_view(reads@)[i as int]);
            assert(rs.take(i as int + 1).drop_last() =~= rs.take(i as int));
            assert(rs.take(i as int + 1).last() == rs[i as int]);
        }
        match &reads[i] {
            Ok(bytes) => {
                let pfx: Option<&String> = if multi {
                    Some(&parsed.files[i])
                } else {
                    None
                };
                proof {
                    assert(prefix_view(pfx) == (if gv.files.len() > 1 {
                        Some(gv.files[i as int])
                    } else {
                        None::<Seq<char>>
                    }));
                }
                let f = grep_buffer(&m, parsed.word, parsed.after, pfx, bytes, &mut out);
                if f {
                    found = true;
                }
                proof {
                    assert(out@ =~= out0 + grep_file_render(gv, bytes@, i as int));
                    assert((out0 + grep_file_render(gv, bytes@, i as int)) + grep_files_render(
                        gv,
                        rs,
                        i as int + 1,
                    ) =~= out0 + (grep_file_render(gv, bytes@, i as int) + grep_files_render(
                        gv,
                        rs,
                        i as int + 1,
                    )));
                    assert(err@ + grep_files_err(gv, rs, i as int + 1) =~= err0 + (Seq::<
                        char,
                    >::empty() + grep_files_err(gv, rs, i as int + 1)));
                }
            },
            Err(e) => {
                let msg = crate::builtins::io_error_message(e.as_str());
                err.append("grep: ");
                err.append(parsed.files[i].as_str());
                err.append(": ");
                err.append(msg.as_str());
                err.append("\n");
                had_err = true;
                proof {
                    let line = "grep: "@ + gv.files[i as int] + ": "@
                        + crate::builtins::io_error_message_spec(e@) + "\n"@;
                    assert(err@ =~= err0 + line);
                    assert((err0 + line) + grep_files_err(gv, rs, i as int + 1) =~= err0 + (line
                        + grep_files_err(gv, rs, i as int + 1)));
                    assert(out@ + grep_files_render(gv, rs, i as int + 1) =~= out0 + (Seq::<
                        char,
                    >::empty() + grep_files_render(gv, rs, i as int + 1)));
                }
            },
        }
        i = i + 1;
    }
    proof {
        assert(rs.take(n as int) =~= rs);
        assert(grep_files_render(gv, rs, n as int) =~= Seq::<char>::empty());
        assert(out@ + grep_files_render(gv, rs, n as int) =~= out@);
        assert(grep_files_err(gv, rs, n as int) =~= Seq::<char>::empty());
        assert(err@ + grep_files_err(gv, rs, n as int) =~= err@);
    }
    let code: i32 = if had_err {
        2
    } else if found {
        0
    } else {
        1
    };
    BuiltinOutput {
        control: ShellControl::Continue(code),
        stdout: crate::builtins::string_bytes(&out),
        stderr: crate::builtins::string_bytes(&err),
    }
}


// ---------------------------------------------------------------------------
// Laws
// ---------------------------------------------------------------------------
/// The indices of the lines printed for one buffer, in print order.
pub open spec fn emitted_indices(matches: Seq<bool>, after: nat, i: int) -> Seq<int>
    decreases matches.len() - i,
    when 0 <= i <= matches.len()
{
    if i >= matches.len() {
        Seq::empty()
    } else {
        (if grep_emits(matches, after, i) {
            seq![i]
        } else {
            Seq::<int>::empty()
        }) + emitted_indices(matches, after, i + 1)
    }
}

proof fn lemma_emitted_indices_increasing(matches: Seq<bool>, after: nat, i: int)
    requires
        0 <= i <= matches.len(),
    ensures
        forall|k: int|
            0 <= k < emitted_indices(matches, after, i).len() ==> i <= #[trigger] emitted_indices(
                matches,
                after,
                i,
            )[k] < matches.len(),
        forall|a: int, b: int|
            0 <= a < b < emitted_indices(matches, after, i).len() ==> emitted_indices(
                matches,
                after,
                i,
            )[a] < emitted_indices(matches, after, i)[b],
    decreases matches.len() - i,
{
    if i < matches.len() {
        lemma_emitted_indices_increasing(matches, after, i + 1);
        let e = emitted_indices(matches, after, i);
        let tail = emitted_indices(matches, after, i + 1);
        if grep_emits(matches, after, i) {
            assert(e =~= seq![i] + tail);
            assert forall|k: int| 0 <= k < e.len() implies i <= #[trigger] e[k] < matches.len() by {
                if k > 0 {
                    assert(e[k] == tail[k - 1]);
                }
            }
            assert forall|a: int, b: int| 0 <= a < b < e.len() implies e[a] < e[b] by {
                if a > 0 {
                    assert(e[a] == tail[a - 1]);
                    assert(e[b] == tail[b - 1]);
                } else {
                    assert(e[b] == tail[b - 1]);
                }
            }
        } else {
            assert(e =~= tail);
        }
    }
}

/// `grep -A N` never prints any source line more than once: the indices of
/// the printed lines strictly increase with the print order, so no index —
/// and hence no source line — appears twice.
pub proof fn lemma_grep_prints_each_line_once(matches: Seq<bool>, after: nat)
    ensures
        forall|a: int, b: int|
            0 <= a < b < emitted_indices(matches, after, 0).len() ==> emitted_indices(
                matches,
                after,
                0,
            )[a] < emitted_indices(matches, after, 0)[b],
{
    lemma_emitted_indices_increasing(matches, after, 0);
}

/// The lines rendered for a list of source-line indices, in order.
pub open spec fn render_indices(
    lines: Seq<Seq<char>>,
    prefix: Option<Seq<char>>,
    idxs: Seq<int>,
) -> Seq<char>
    decreases idxs.len(),
{
    if idxs.len() == 0 {
        Seq::empty()
    } else {
        render_line(prefix, lines[idxs[0]]) + render_indices(lines, prefix, idxs.drop_first())
    }
}

/// What `grep` prints for one buffer is exactly one rendered line per
/// emitted index, in index order.
pub proof fn lemma_grep_render_is_emitted_lines(
    lines: Seq<Seq<char>>,
    matches: Seq<bool>,
    after: nat,
    prefix: Option<Seq<char>>,
    i: int,
)
    requires
        matches.len() == lines.len(),
        0 <= i <= lines.len(),
    ensures
        grep_render_from(lines, matches, after, prefix, i) == render_indices(
            lines,
            prefix,
            emitted_indices(matches, after, i),
        ),
    decreases lines.len() - i,
{
    if i < lines.len() {
        lemma_grep_render_is_emitted_lines(lines, matches, after, prefix, i + 1);
        let e = emitted_indices(matches, after, i);
        let tail = emitted_indices(matches, after, i + 1);
        if grep_emits(matches, after, i) {
            assert(e =~= seq![i] + tail);
            assert(e[0] == i);
            assert(e.drop_first() =~= tail);
        } else {
            assert(e =~= tail);
        }
    }
}

} // verus!
