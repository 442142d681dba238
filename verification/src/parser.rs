//! Parsing of one command line: variable expansion, tokenization with
//! quote removal, the assignment prefix, and pipeline segmentation.

use vstd::prelude::*;
use vstd::string::*;

use crate::env::ShellEnv;
use crate::text::push_char;
use crate::types::{CmdV, CommandSpec, Pipeline};

verus! {

/// A parse failure of one input line.
#[derive(Debug, Clone, Copy, PartialEq, Eq, Structural)]
pub enum ParseError {
    /// The line ends inside a quoted region opened by the given character.
    UnclosedQuote(char),
    /// A pipe with no command on one of its sides.
    EmptyPipelineSegment,
}

impl ParseError {
    /// The message the interpreter prints for this error.
    pub open spec fn message_spec(&self) -> Seq<char> {
        match *self {
            ParseError::UnclosedQuote(q) => "unclosed quote: "@.push(q),
            ParseError::EmptyPipelineSegment => "empty pipeline segment"@,
        }
    }

    /// Renders the message exactly as `message_spec` says.
    pub fn message(&self) -> (s: String)
        ensures
            s@ == self.message_spec(),
    {
        match self {
            ParseError::UnclosedQuote(q) => {
                let mut s = String::from_str("unclosed quote: ");
                push_char(&mut s, *q);
                s
            },
            ParseError::EmptyPipelineSegment => String::from_str("empty pipeline segment"),
        }
    }
}

// ---------------------------------------------------------------------------
// Variable names and assignment words
// ---------------------------------------------------------------------------
/// First character of a variable name: a letter or an underscore.
pub open spec fn is_name_start_char(c: char) -> bool {
    c == '_' || ('a' <= c && c <= 'z') || ('A' <= c && c <= 'Z')
}

/// Later character of a variable name: a letter, a digit or an underscore.
pub open spec fn is_name_char(c: char) -> bool {
    is_name_start_char(c) || ('0' <= c && c <= '9')
}

/// A valid variable name: `[A-Za-z_][A-Za-z0-9_]*`.
pub open spec fn valid_name(s: Seq<char>) -> bool {
    &&& s.len() > 0
    &&& is_name_start_char(s[0])
    &&& forall|i: int| 0 <= i < s.len() ==> is_name_char(#[trigger] s[i])
}

fn is_name_start_char_exec(c: char) -> (r: bool)
    ensures
        r == is_name_start_char(c),
{
    c == '_' || ('a' <= c && c <= 'z') || ('A' <= c && c <= 'Z')
}

fn is_name_char_exec(c: char) -> (r: bool)
    ensures
        r == is_name_char(c),
{
    is_name_start_char_exec(c) || ('0' <= c && c <= '9')
}

/// Length of the longest run of name characters starting at `j`.
pub open spec fn name_run_len(s: Seq<char>, j: int) -> nat
    decreases s.len() - j,
    when 0 <= j <= s.len()
{
    if j < s.len() && is_name_char(s[j]) {
        1 + name_run_len(s, j + 1)
    } else {
        0
    }
}

proof fn lemma_name_run_len_bound(s: Seq<char>, j: int)
    requires
        0 <= j <= s.len(),
    ensures
        j + name_run_len(s, j) <= s.len(),
    decreases s.len() - j,
{
    if j < s.len() && is_name_char(s[j]) {
        lemma_name_run_len_bound(s, j + 1);
    }
}

proof fn lemma_name_run_len_is(s: Seq<char>, j: int, e: int)
    requires
        0 <= j <= e <= s.len(),
        forall|k: int| j <= k < e ==> is_name_char(#[trigger] s[k]),
        e == s.len() || !is_name_char(s[e]),
    ensures
        name_run_len(s, j) == e - j,
    decreases e - j,
{
    if j < e {
        lemma_name_run_len_is(s, j + 1, e);
    }
}

/// The variable name read at position `j` (just after a `$`): the longest
/// match of the name grammar, or nothing if no valid name starts there.
pub open spec fn var_name_at(s: Seq<char>, j: int) -> Option<Seq<char>> {
    if 0 <= j < s.len() && is_name_start_char(s[j]) {
        Some(s.subrange(j, j + name_run_len(s, j)))
    } else {
        None
    }
}

/// Reads the longest variable name starting at character position `start`
/// of `s` (the caller has already consumed the `$`).
pub fn try_read_var_name(s: &str, start: usize) -> (r: Option<String>)
    ensures
        match r {
            Some(name) => var_name_at(s@, start as int) == Some(name@),
            None => var_name_at(s@, start as int) is None,
        },
{
    let n = s.unicode_len();
    if start >= n {
        return None;
    }
    let c0 = s.get_char(start);
    if !is_name_start_char_exec(c0) {
        return None;
    }
    let mut name = String::new();
    push_char(&mut name, c0);
    let mut j: usize = start + 1;
    while j < n && is_name_char_exec(s.get_char(j))
        invariant
            start < j <= n,
            n == s@.len(),
            is_name_start_char(s@[start as int]),
            name@ =~= s@.subrange(start as int, j as int),
            forall|k: int| start <= k < j ==> is_name_char(#[trigger] s@[k]),
        decreases n - j,
    {
        push_char(&mut name, s.get_char(j));
        proof {
            assert(name@ =~= s@.subrange(start as int, j + 1));
        }
        j = j + 1;
    }
    proof {
        lemma_name_run_len_is(s@, start as int, j as int);
    }
    Some(name)
}

/// Index of the first occurrence of `c` in `s` at or after `j`, or `s.len()`
/// if there is none.
pub open spec fn find_char_from(s: Seq<char>, c: char, j: int) -> int
    decreases s.len() - j,
    when 0 <= j <= s.len()
{
    if j >= s.len() {
        s.len() as int
    } else if s[j] == c {
        j
    } else {
        find_char_from(s, c, j + 1)
    }
}

pub proof fn lemma_find_char_from_bounds(s: Seq<char>, c: char, j: int)
    requires
        0 <= j <= s.len(),
    ensures
        j <= find_char_from(s, c, j) <= s.len(),
        find_char_from(s, c, j) < s.len() ==> s[find_char_from(s, c, j)] == c,
    decreases s.len() - j,
{
    if j < s.len() && s[j] != c {
        lemma_find_char_from_bounds(s, c, j + 1);
    }
}

pub proof fn lemma_find_char_from_is(s: Seq<char>, c: char, j: int, e: int)
    requires
        0 <= j <= e <= s.len(),
        forall|k: int| j <= k < e ==> s[k] != c,
        e == s.len() || s[e] == c,
    ensures
        find_char_from(s, c, j) == e,
    decreases e - j,
{
    if j < e {
        lemma_find_char_from_is(s, c, j + 1, e);
    }
}

/// How a word is read as an environment assignment: split at the first `=`;
/// the part before it must be a valid name, the rest is the value.
pub open spec fn parse_assignment_spec(w: Seq<char>) -> Option<(Seq<char>, Seq<char>)> {
    let e = find_char_from(w, '=', 0);
    if e == w.len() {
        None
    } else if valid_name(w.take(e)) {
        Some((w.take(e), w.skip(e + 1)))
    } else {
        None
    }
}

/// Tries to read a token as an environment assignment `NAME=value`.
///
/// Returns `None` when the token has no `=` or the part before the first `=`
/// is not a valid variable name.
pub fn parse_assignment(token: &str) -> (r: Option<(String, String)>)
    ensures
        match r {
            Some(p) => parse_assignment_spec(token@) == Some((p.0@, p.1@)),
            None => parse_assignment_spec(token@) is None,
        },
{
    let n = token.unicode_len();
    let mut e: usize = 0;
    while e < n && token.get_char(e) != '='
        invariant
            0 <= e <= n,
            n == token@.len(),
            forall|k: int| 0 <= k < e ==> token@[k] != '=',
        decreases n - e,
    {
        e = e + 1;
    }
    proof {
        lemma_find_char_from_is(token@, '=', 0, e as int);
    }
    if e == n {
        return None;
    }
    if e == 0 {
        return None;
    }
    if !is_name_start_char_exec(token.get_char(0)) {
        return None;
    }
    let mut k: usize = 1;
    while k < e
        invariant
            1 <= k <= e,
            e < n,
            n == token@.len(),
            find_char_from(token@, '=', 0) == e as int,
            forall|j: int| 0 <= j < k ==> is_name_char(#[trigger] token@[j]),
            is_name_start_char(token@[0]),
        decreases e - k,
    {
        if !is_name_char_exec(token.get_char(k)) {
            proof {
                assert(token@.take(e as int)[k as int] == token@[k as int]);
                assert(!is_name_char(token@.take(e as int)[k as int]));
                assert(!valid_name(token@.take(e as int)));
            }
            return None;
        }
        k = k + 1;
    }
    let name = token.substring_char(0, e);
    let value = token.substring_char(e + 1, n);
    proof {
        assert(token@.take(e as int) =~= token@.subrange(0, e as int));
        assert(token@.skip(e as int + 1) =~= token@.subrange(e as int + 1, n as int));
        assert(valid_name(token@.take(e as int)));
    }
    Some((String::from_str(name), String::from_str(value)))
}

// ---------------------------------------------------------------------------
// Pass A: variable expansion with quote-aware scanning
// ---------------------------------------------------------------------------
/// Scanner mode of the two quote-aware passes.
#[derive(Debug, Clone, Copy, PartialEq, Eq, Structural)]
pub enum QuoteMode {
    Normal,
    InSingleQuote,
    InDoubleQuote,
}

/// State of the expansion scan: the output written so far, the working
/// environment (the caller's environment plus the assignments already
/// committed on this line), whether the scan is still inside the
/// assignment prefix, and the current quote-stripped word.
pub ghost struct ExpState {
    pub out: Seq<char>,
    pub env: Map<Seq<char>, Seq<char>>,
    pub prefix: bool,
    pub word: Seq<char>,
    pub started: bool,
    pub mode: QuoteMode,
}

/// The working environment after a word boundary: if the word is still in
/// the assignment prefix and reads as `NAME=value`, the binding is added.
pub open spec fn committed_env(
    env: Map<Seq<char>, Seq<char>>,
    prefix: bool,
    word: Seq<char>,
    started: bool,
) -> Map<Seq<char>, Seq<char>> {
    if started && prefix {
        match parse_assignment_spec(word) {
            Some(kv) => env.insert(kv.0, kv.1),
            None => env,
        }
    } else {
        env
    }
}

/// Whether the scan is still in the assignment prefix after a word boundary:
/// the first word that does not read as an assignment clears the flag for
/// the rest of the line.
pub open spec fn committed_prefix(prefix: bool, word: Seq<char>, started: bool) -> bool {
    if started && prefix {
        parse_assignment_spec(word) is Some
    } else {
        prefix
    }
}

/// The state after a word boundary (whitespace, a pipe, or end of input, in
/// normal mode).
pub open spec fn finish_word(st: ExpState) -> ExpState {
    ExpState {
        env: committed_env(st.env, st.prefix, st.word, st.started),
        prefix: committed_prefix(st.prefix, st.word, st.started),
        word: if st.started {
            Seq::empty()
        } else {
            st.word
        },
        started: false,
        ..st
    }
}

/// The value a variable reference expands to: the binding in the working
/// environment, or the empty string for an unknown name.
pub open spec fn env_value(m: Map<Seq<char>, Seq<char>>, name: Seq<char>) -> Seq<char> {
    if m.contains_key(name) {
        m[name]
    } else {
        Seq::empty()
    }
}

/// One left-to-right scan of `s` from position `i` in state `st`:
/// quotes are kept in the output (they fall away in pass B), `$NAME` is
/// replaced by its value outside single quotes, and words of the assignment
/// prefix update the working environment as they are finished.
pub open spec fn expand_from(s: Seq<char>, i: int, st: ExpState) -> Result<Seq<char>, ParseError>
    decreases s.len() - i,
    when 0 <= i <= s.len()
    via expand_from_decreases
{
    if i >= s.len() {
        match st.mode {
            QuoteMode::Normal => Ok(finish_word(st).out),
            QuoteMode::InSingleQuote => Err(ParseError::UnclosedQuote('\'')),
            QuoteMode::InDoubleQuote => Err(ParseError::UnclosedQuote('"')),
        }
    } else {
        let c = s[i];
        match st.mode {
            QuoteMode::Normal => {
                if c == ' ' || c == '\t' {
                    let st1 = finish_word(st);
                    expand_from(s, i + 1, ExpState { out: st1.out.push(c), ..st1 })
                } else if c == '|' {
                    let st1 = finish_word(st);
                    expand_from(
                        s,
                        i + 1,
                        ExpState { out: st1.out.push('|'), prefix: false, ..st1 },
                    )
                } else if c == '\'' {
                    expand_from(
                        s,
                        i + 1,
                        ExpState {
                            out: st.out.push('\''),
                            mode: QuoteMode::InSingleQuote,
                            started: true,
                            ..st
                        },
                    )
                } else if c == '"' {
                    expand_from(
                        s,
                        i + 1,
                        ExpState {
                            out: st.out.push('"'),
                            mode: QuoteMode::InDoubleQuote,
                            started: true,
                            ..st
                        },
                    )
                } else if c == '$' {
                    match var_name_at(s, i + 1) {
                        Some(name) => expand_from(
                            s,
                            i + 1 + name.len(),
                            ExpState {
                                out: st.out + env_value(st.env, name),
                                word: st.word + env_value(st.env, name),
                                started: true,
                                ..st
                            },
                        ),
                        None => expand_from(
                            s,
                            i + 1,
                            ExpState {
                                out: st.out.push('$'),
                                word: st.word.push('$'),
                                started: true,
                                ..st
                            },
                        ),
                    }
                } else {
                    expand_from(
                        s,
                        i + 1,
                        ExpState {
                            out: st.out.push(c),
                            word: st.word.push(c),
                            started: true,
                            ..st
                        },
                    )
                }
            },
            QuoteMode::InSingleQuote => {
                if c == '\'' {
                    expand_from(
                        s,
                        i + 1,
                        ExpState { out: st.out.push('\''), mode: QuoteMode::Normal, ..st },
                    )
                } else {
                    expand_from(
                        s,
                        i + 1,
                        ExpState {
                            out: st.out.push(c),
                            word: st.word.push(c),
                            started: true,
                            ..st
                        },
                    )
                }
            },
            QuoteMode::InDoubleQuote => {
                if c == '"' {
                    expand_from(
                        s,
                        i + 1,
                        ExpState { out: st.out.push('"'), mode: QuoteMode::Normal, ..st },
                    )
                } else if c == '$' {
                    match var_name_at(s, i + 1) {
                        Some(name) => expand_from(
                            s,
                            i + 1 + name.len(),
                            ExpState {
                                out: st.out + env_value(st.env, name),
                                word: st.word + env_value(st.env, name),
                                started: true,
                                ..st
                            },
                        ),
                        None => expand_from(
                            s,
                            i + 1,
                            ExpState {
                                out: st.out.push('$'),
                                word: st.word.push('$'),
                                started: true,
                                ..st
                            },
                        ),
                    }
                } else {
                    expand_from(
                        s,
                        i + 1,
                        ExpState {
                            out: st.out.push(c),
                            word: st.word.push(c),
                            started: true,
                            ..st
                        },
                    )
                }
            },
        }
    }
}

#[via_fn]
proof fn expand_from_decreases(s: Seq<char>, i: int, st: ExpState) {
    if 0 <= i && i + 1 <= s.len() {
        lemma_name_run_len_bound(s, i + 1);
    }
}

/// The expansion of a whole line against a caller environment.
pub open spec fn expand_line_spec(s: Seq<char>, env: Map<Seq<char>, Seq<char>>) -> Result<
    Seq<char>,
    ParseError,
> {
    expand_from(
        s,
        0,
        ExpState {
            out: Seq::empty(),
            env,
            prefix: true,
            word: Seq::empty(),
            started: false,
            mode: QuoteMode::Normal,
        },
    )
}

/// Commits the current word at a word boundary: in the assignment prefix an
/// assignment word updates the working environment, any other word clears
/// the prefix flag for good.
fn finish_word_exec(env: &mut ShellEnv, prefix: &mut bool, word: &mut String, started: &mut bool)
    requires
        old(env).wf(),
    ensures
        final(env).wf(),
        final(env).as_map() == committed_env(
            old(env).as_map(),
            *old(prefix),
            old(word)@,
            *old(started),
        ),
        *final(prefix) == committed_prefix(*old(prefix), old(word)@, *old(started)),
        final(word)@ == (if *old(started) {
            Seq::<char>::empty()
        } else {
            old(word)@
        }),
        *final(started) == false,
{
    if !*started {
        return ;
    }
    *started = false;
    if *prefix {
        match parse_assignment(word.as_str()) {
            Some(kv) => {
                env.set(kv.0, kv.1);
            },
            None => {
                *prefix = false;
            },
        }
    }
    *word = String::new();
}

/// Expands one `$NAME` reference (the character at `i` is the `$`): appends
/// the variable's value, or a literal `$` when no valid name follows.
/// Returns the position of the first character after the reference.
fn expand_dollar_exec(
    input: &str,
    i: usize,
    n: usize,
    env: &ShellEnv,
    out: &mut String,
    word: &mut String,
    started: &mut bool,
) -> (ni: usize)
    requires
        env.wf(),
        n == input@.len(),
        i < n,
    ensures
        match var_name_at(input@, i as int + 1) {
            Some(name) => {
                &&& ni == i + 1 + name.len()
                &&& final(out)@ == old(out)@ + env_value(env.as_map(), name)
                &&& final(word)@ == old(word)@ + env_value(env.as_map(), name)
            },
            None => {
                &&& ni == i + 1
                &&& final(out)@ == old(out)@.push('$')
                &&& final(word)@ == old(word)@.push('$')
            },
        },
        *final(started) == true,
        i < ni <= n,
{
    match try_read_var_name(input, i + 1) {
        Some(name) => {
            proof {
                lemma_name_run_len_bound(input@, i as int + 1);
            }
            let val = match env.get(name.as_str()) {
                Some(v) => v,
                None => String::new(),
            };
            out.append(val.as_str());
            word.append(val.as_str());
            *started = true;
            i + 1 + name.unicode_len()
        },
        None => {
            push_char(out, '$');
            push_char(word, '$');
            *started = true;
            i + 1
        },
    }
}

/// Performs `$NAME` substitution over one line, keeping quotes verbatim.
///
/// Substitution happens in normal mode and inside double quotes, not inside
/// single quotes.  Assignment words at the start of the line take effect for
/// references further right on the same line.  A line that ends inside a
/// quoted region is rejected.
pub fn expand_line(input: &str, base_env: &ShellEnv) -> (r: Result<String, ParseError>)
    requires
        base_env.wf(),
    ensures
        match r {
            Ok(out) => expand_line_spec(input@, base_env.as_map()) == Ok::<Seq<char>, ParseError>(
                out@,
            ),
            Err(e) => expand_line_spec(input@, base_env.as_map()) == Err::<Seq<char>, ParseError>(
                e,
            ),
        },
{
    let n = input.unicode_len();
    let mut out = String::new();
    let mut env = base_env.duplicate();
    let mut prefix = true;
    let mut word = String::new();
    let mut started = false;
    let mut mode = QuoteMode::Normal;
    let mut i: usize = 0;
    while i < n
        invariant
            0 <= i <= n,
            n == input@.len(),
            env.wf(),
            expand_from(
                input@,
                i as int,
                (ExpState { out: out@, env: env.as_map(), prefix, word: word@, started, mode }),
            ) == expand_line_spec(input@, base_env.as_map()),
        decreases n - i,
    {
        let ghost st0 = ExpState {
            out: out@,
            env: env.as_map(),
            prefix,
            word: word@,
            started,
            mode,
        };
        let c = input.get_char(i);
        match mode {
            QuoteMode::Normal => {
                if c == ' ' || c == '\t' {
                    finish_word_exec(&mut env, &mut prefix, &mut word, &mut started);
                    push_char(&mut out, c);
                    i = i + 1;
                } else if c == '|' {
                    finish_word_exec(&mut env, &mut prefix, &mut word, &mut started);
                    prefix = false;
                    push_char(&mut out, '|');
                    i = i + 1;
                } else if c == '\'' {
                    mode = QuoteMode::InSingleQuote;
                    push_char(&mut out, '\'');
                    started = true;
                    i = i + 1;
                } else if c == '"' {
                    mode = QuoteMode::InDoubleQuote;
                    push_char(&mut out, '"');
                    started = true;
                    i = i + 1;
                } else if c == '$' {
                    i = expand_dollar_exec(input, i, n, &env, &mut out, &mut word, &mut started);
                } else {
                    push_char(&mut out, c);
                    push_char(&mut word, c);
                    started = true;
                    i = i + 1;
                }
            },
            QuoteMode::InSingleQuote => {
                if c == '\'' {
                    mode = QuoteMode::Normal;
                    push_char(&mut out, '\'');
                } else {
                    push_char(&mut out, c);
                    push_char(&mut word, c);
                    started = true;
                }
                i = i + 1;
            },
            QuoteMode::InDoubleQuote => {
                if c == '"' {
                    mode = QuoteMode::Normal;
                    push_char(&mut out, '"');
                    i = i + 1;
                } else if c == '$' {
                    i = expand_dollar_exec(input, i, n, &env, &mut out, &mut word, &mut started);
                } else {
                    push_char(&mut out, c);
                    push_char(&mut word, c);
                    started = true;
                    i = i + 1;
                }
            },
        }
        proof {
            let st1 = ExpState {
                out: out@,
                env: env.as_map(),
                prefix,
                word: word@,
                started,
                mode,
            };
            assert(expand_from(input@, i as int, st1) == expand_line_spec(
                input@,
                base_env.as_map(),
            ));
        }
    }
    match mode {
        QuoteMode::Normal => {
            finish_word_exec(&mut env, &mut prefix, &mut word, &mut started);
            Ok(out)
        },
        QuoteMode::InSingleQuote => Err(ParseError::UnclosedQuote('\'')),
        QuoteMode::InDoubleQuote => Err(ParseError::UnclosedQuote('"')),
    }
}

// ---------------------------------------------------------------------------
// Pass B: tokenization with quote removal
// ---------------------------------------------------------------------------
/// A token of the expanded line: a word or a pipe.
#[derive(Debug)]
pub enum Token {
    Word(String),
    Pipe,
}

/// A token as mathematics.
pub ghost enum TokenV {
    Word(Seq<char>),
    Pipe,
}

impl View for Token {
    type V = TokenV;

    open spec fn view(&self) -> TokenV {
        match self {
            Token::Word(w) => TokenV::Word(w@),
            Token::Pipe => TokenV::Pipe,
        }
    }
}

/// The views of a sequence of tokens.
pub open spec fn tokens_view(ts: Seq<Token>) -> Seq<TokenV> {
    ts.map_values(|t: Token| t@)
}

/// State of the tokenizing scan.
pub ghost struct TokState {
    pub toks: Seq<TokenV>,
    pub cur: Seq<char>,
    pub started: bool,
    pub mode: QuoteMode,
}

/// The state after a token boundary: a started token is emitted, even an
/// empty one (from `""` or `''`).
pub open spec fn tok_finish(st: TokState) -> TokState {
    if st.started {
        TokState { toks: st.toks.push(TokenV::Word(st.cur)), cur: Seq::empty(), started: false, ..st }
    } else {
        st
    }
}

/// One left-to-right scan of the expanded line from position `i` in state
/// `st`: whitespace outside quotes separates tokens, `|` outside quotes is a
/// token of its own, quote characters change mode and are dropped.
pub open spec fn tokenize_from(s: Seq<char>, i: int, st: TokState) -> Result<
    Seq<TokenV>,
    ParseError,
>
    decreases s.len() - i,
    when 0 <= i <= s.len()
{
    if i >= s.len() {
        match st.mode {
            QuoteMode::Normal => Ok(tok_finish(st).toks),
            QuoteMode::InSingleQuote => Err(ParseError::UnclosedQuote('\'')),
            QuoteMode::InDoubleQuote => Err(ParseError::UnclosedQuote('"')),
        }
    } else {
        let c = s[i];
        match st.mode {
            QuoteMode::Normal => {
                if c == ' ' || c == '\t' {
                    tokenize_from(s, i + 1, tok_finish(st))
                } else if c == '|' {
                    let st1 = tok_finish(st);
                    tokenize_from(s, i + 1, TokState { toks: st1.toks.push(TokenV::Pipe), ..st1 })
                } else if c == '\'' {
                    tokenize_from(
                        s,
                        i + 1,
                        TokState { started: true, mode: QuoteMode::InSingleQuote, ..st },
                    )
                } else if c == '"' {
                    tokenize_from(
                        s,
                        i + 1,
                        TokState { started: true, mode: QuoteMode::InDoubleQuote, ..st },
                    )
                } else {
                    tokenize_from(s, i + 1, TokState { cur: st.cur.push(c), started: true, ..st })
                }
            },
            QuoteMode::InSingleQuote => {
                if c == '\'' {
                    tokenize_from(s, i + 1, TokState { mode: QuoteMode::Normal, ..st })
                } else {
                    tokenize_from(s, i + 1, TokState { cur: st.cur.push(c), started: true, ..st })
                }
            },
            QuoteMode::InDoubleQuote => {
                if c == '"' {
                    tokenize_from(s, i + 1, TokState { mode: QuoteMode::Normal, ..st })
                } else {
                    tokenize_from(s, i + 1, TokState { cur: st.cur.push(c), started: true, ..st })
                }
            },
        }
    }
}

/// Tokenization of a whole (already expanded) line.
pub open spec fn tokenize_spec(s: Seq<char>) -> Result<Seq<TokenV>, ParseError> {
    tokenize_from(
        s,
        0,
        TokState { toks: Seq::empty(), cur: Seq::empty(), started: false, mode: QuoteMode::Normal },
    )
}

/// Splits the expanded line into `Word` and `Pipe` tokens, removing quotes.
///
/// Whitespace outside quotes separates tokens; an empty quoted region still
/// yields an (empty) token; a line that ends inside a quoted region is
/// rejected.
pub fn tokenize_with_pipes_and_quotes(input: &str) -> (r: Result<Vec<Token>, ParseError>)
    ensures
        match r {
            Ok(ts) => tokenize_spec(input@) == Ok::<Seq<TokenV>, ParseError>(tokens_view(ts@)),
            Err(e) => tokenize_spec(input@) == Err::<Seq<TokenV>, ParseError>(e),
        },
{
    let n = input.unicode_len();
    let mut tokens: Vec<Token> = Vec::new();
    let mut current = String::new();
    let mut token_started = false;
    let mut mode = QuoteMode::Normal;
    let mut i: usize = 0;
    proof {
        assert(tokens_view(tokens@) =~= Seq::<TokenV>::empty());
    }
    while i < n
        invariant
            0 <= i <= n,
            n == input@.len(),
            tokenize_from(
                input@,
                i as int,
                (TokState {
                    toks: tokens_view(tokens@),
                    cur: current@,
                    started: token_started,
                    mode,
                }),
            ) == tokenize_spec(input@),
        decreases n - i,
    {
        let ghost st0 = TokState {
            toks: tokens_view(tokens@),
            cur: current@,
            started: token_started,
            mode,
        };
        let c = input.get_char(i);
        match mode {
            QuoteMode::Normal => {
                if c == ' ' || c == '\t' {
                    if token_started {
                        tokens.push(Token::Word(current));
                        current = String::new();
                        token_started = false;
                    }
                } else if c == '|' {
                    if token_started {
                        tokens.push(Token::Word(current));
                        current = String::new();
                        token_started = false;
                    }
                    tokens.push(Token::Pipe);
                } else if c == '\'' {
                    mode = QuoteMode::InSingleQuote;
                    token_started = true;
                } else if c == '"' {
                    mode = QuoteMode::InDoubleQuote;
                    token_started = true;
                } else {
                    push_char(&mut current, c);
                    token_started = true;
                }
            },
            QuoteMode::InSingleQuote => {
                if c == '\'' {
                    mode = QuoteMode::Normal;
                } else {
                    push_char(&mut current, c);
                    token_started = true;
                }
            },
            QuoteMode::InDoubleQuote => {
                if c == '"' {
                    mode = QuoteMode::Normal;
                } else {
                    push_char(&mut current, c);
                    token_started = true;
                }
            },
        }
        proof {
            assert forall|ts: Seq<Token>, t: Token| #[trigger]
                tokens_view(ts.push(t)) =~= tokens_view(ts).push(t@) by {
                assert(ts.push(t).map_values(|x: Token| x@) =~= ts.map_values(|x: Token| x@).push(
                    t@,
                ));
            }
            let st1 = TokState {
                toks: tokens_view(tokens@),
                cur: current@,
                started: token_started,
                mode,
            };
            assert(tokenize_from(input@, i + 1, st1) == tokenize_spec(input@));
        }
        i = i + 1;
    }
    match mode {
        QuoteMode::Normal => {
            if token_started {
                let ghost before = tokens@;
                let ghost cur = current@;
                tokens.push(Token::Word(current));
                proof {
                    assert(tokens_view(tokens@) =~= tokens_view(before).push(TokenV::Word(cur)));
                }
            }
            Ok(tokens)
        },
        QuoteMode::InSingleQuote => Err(ParseError::UnclosedQuote('\'')),
        QuoteMode::InDoubleQuote => Err(ParseError::UnclosedQuote('"')),
    }
}

// ---------------------------------------------------------------------------
// Assignment prefix and pipeline segmentation
// ---------------------------------------------------------------------------
/// The split of a token sequence into its maximal leading run of assignment
/// words and the remaining tokens.
pub open spec fn split_prefix_spec(ts: Seq<TokenV>) -> (Seq<(Seq<char>, Seq<char>)>, Seq<TokenV>)
    decreases ts.len(),
{
    if ts.len() > 0 {
        match ts[0] {
            TokenV::Word(w) => match parse_assignment_spec(w) {
                Some(kv) => {
                    let r = split_prefix_spec(ts.drop_first());
                    (seq![kv] + r.0, r.1)
                },
                None => (Seq::empty(), ts),
            },
            TokenV::Pipe => (Seq::empty(), ts),
        }
    } else {
        (Seq::empty(), ts)
    }
}

/// Moves the maximal leading run of `NAME=value` words into the assignment
/// list; the remaining tokens are returned for the pipeline parse.
pub fn split_assignments_prefix(tokens: Vec<Token>) -> (r: (Vec<(String, String)>, Vec<Token>))
    ensures
        ({
            let s = split_prefix_spec(tokens_view(tokens@));
            r.0.deep_view() == s.0 && tokens_view(r.1@) == s.1
        }),
{
    let ghost tv = tokens_view(tokens@);
    let n = tokens.len();
    let mut assignments: Vec<(String, String)> = Vec::new();
    let mut idx: usize = 0;
    let mut more = true;
    proof {
        assert(assignments.deep_view() =~= Seq::<(Seq<char>, Seq<char>)>::empty());
        assert(tv.skip(0) =~= tv);
    }
    while more && idx < n
        invariant
            0 <= idx <= n,
            n == tokens@.len(),
            tv == tokens_view(tokens@),
            tv.len() == n,
            more ==> split_prefix_spec(tv).0 == assignments.deep_view() + split_prefix_spec(
                tv.skip(idx as int),
            ).0 && split_prefix_spec(tv).1 == split_prefix_spec(tv.skip(idx as int)).1,
            !more ==> split_prefix_spec(tv).0 == assignments.deep_view() && split_prefix_spec(
                tv,
            ).1 == tv.skip(idx as int),
        decreases (if more {
            1int
        } else {
            0int
        }), n - idx,
    {
        let ghost suffix = tv.skip(idx as int);
        proof {
            assert(suffix[0] == tv[idx as int]);
            assert(suffix.drop_first() =~= tv.skip(idx as int + 1));
        }
        match &tokens[idx] {
            Token::Word(w) => {
                match parse_assignment(w.as_str()) {
                    Some(kv) => {
                        let ghost a0 = assignments.deep_view();
                        let ghost kvv = (kv.0@, kv.1@);
                        assignments.push(kv);
                        proof {
                            assert(assignments.deep_view() =~= a0.push(kvv));
                            assert(a0 + (seq![kvv] + split_prefix_spec(suffix.drop_first()).0)
                                =~= a0.push(kvv) + split_prefix_spec(suffix.drop_first()).0);
                        }
                        idx = idx + 1;
                    },
                    None => {
                        more = false;
                        proof {
                            assert(assignments.deep_view() + split_prefix_spec(suffix).0
                                =~= assignments.deep_view());
                        }
                    },
                }
            },
            Token::Pipe => {
                more = false;
                proof {
                    assert(assignments.deep_view() + split_prefix_spec(suffix).0
                        =~= assignments.deep_view());
                }
            },
        }
    }
    proof {
        if more {
            assert(tv.skip(idx as int) =~= Seq::<TokenV>::empty());
            assert(assignments.deep_view() + split_prefix_spec(tv.skip(idx as int)).0
                =~= assignments.deep_view());
        }
    }
    let mut rest: Vec<Token> = Vec::new();
    let mut j: usize = idx;
    proof {
        assert(tokens_view(rest@) =~= tv.subrange(idx as int, idx as int));
    }
    while j < n
        invariant
            idx <= j <= n,
            n == tokens@.len(),
            tv == tokens_view(tokens@),
            tv.len() == n,
            tokens_view(rest@) =~= tv.subrange(idx as int, j as int),
        decreases n - j,
    {
        let ghost r0 = tokens_view(rest@);
        match &tokens[j] {
            Token::Word(w) => {
                rest.push(Token::Word(w.clone()));
            },
            Token::Pipe => {
                rest.push(Token::Pipe);
            },
        }
        proof {
            assert(tokens_view(rest@) =~= r0.push(tv[j as int]));
            assert(tokens_view(rest@) =~= tv.subrange(idx as int, j as int + 1));
        }
        j = j + 1;
    }
    proof {
        assert(tv.subrange(idx as int, n as int) =~= tv.skip(idx as int));
    }
    (assignments, rest)
}

// ---------------------------------------------------------------------------
// Pipeline parse
// ---------------------------------------------------------------------------
/// How the tokens after the assignment prefix read as a pipeline: words are
/// gathered into commands, `Pipe` tokens separate them, and a pipe with no
/// command on one of its sides is an error.  A segment whose first word is
/// empty (from `""` or `''`) would make an empty command name, which the
/// data model forbids, and is rejected the same way.  `cur` holds the words
/// of the command currently being gathered.
pub open spec fn parse_pipeline_spec(ts: Seq<TokenV>, cur: Seq<Seq<char>>) -> Result<
    Seq<CmdV>,
    ParseError,
>
    decreases ts.len(),
{
    if ts.len() == 0 {
        if cur.len() == 0 || cur[0].len() == 0 {
            Err(ParseError::EmptyPipelineSegment)
        } else {
            Ok(seq![CmdV { name: cur[0], args: cur.drop_first() }])
        }
    } else {
        match ts[0] {
            TokenV::Word(w) => parse_pipeline_spec(ts.drop_first(), cur.push(w)),
            TokenV::Pipe => {
                if cur.len() == 0 || cur[0].len() == 0 {
                    Err(ParseError::EmptyPipelineSegment)
                } else {
                    match parse_pipeline_spec(ts.drop_first(), Seq::empty()) {
                        Ok(cmds) => Ok(
                            seq![CmdV { name: cur[0], args: cur.drop_first() }] + cmds,
                        ),
                        Err(e) => Err(e),
                    }
                }
            },
        }
    }
}

/// The views of a sequence of commands.
pub open spec fn cmds_view(cs: Seq<CommandSpec>) -> Seq<CmdV> {
    cs.map_values(|c: CommandSpec| c@)
}

/// Splits a token sequence on `Pipe` tokens into commands; in each command
/// the first word is the name and the rest are the arguments.  A segment
/// with an empty first word is rejected, so every stage of the returned
/// pipeline has a non-empty name.
pub fn parse_pipeline(tokens: Vec<Token>) -> (r: Result<Pipeline, ParseError>)
    ensures
        match r {
            Ok(p) => parse_pipeline_spec(tokens_view(tokens@), Seq::empty()) == Ok::<
                Seq<CmdV>,
                ParseError,
            >(p@) && p.wf(),
            Err(e) => parse_pipeline_spec(tokens_view(tokens@), Seq::empty()) == Err::<
                Seq<CmdV>,
                ParseError,
            >(e),
        },
{
    let ghost tv = tokens_view(tokens@);
    let n = tokens.len();
    let mut commands: Vec<CommandSpec> = Vec::new();
    let mut current: Vec<String> = Vec::new();
    let mut j: usize = 0;
    let mut bad = false;
    proof {
        assert(cmds_view(commands@) =~= Seq::<CmdV>::empty());
        assert(current.deep_view() =~= Seq::<Seq<char>>::empty());
        assert(tv.skip(0) =~= tv);
        assert(cmds_view(commands@) + parse_pipeline_spec(tv, Seq::empty())->Ok_0
            =~= parse_pipeline_spec(tv, Seq::empty())->Ok_0);
    }
    while j < n && !bad
        invariant
            0 <= j <= n,
            n == tokens@.len(),
            tv == tokens_view(tokens@),
            tv.len() == n,
            !bad ==> parse_pipeline_spec(tv, Seq::empty()) == (match parse_pipeline_spec(
                tv.skip(j as int),
                current.deep_view(),
            ) {
                Ok(c) => Ok::<Seq<CmdV>, ParseError>(cmds_view(commands@) + c),
                Err(e) => Err::<Seq<CmdV>, ParseError>(e),
            }),
            bad ==> parse_pipeline_spec(tv, Seq::empty()) == Err::<Seq<CmdV>, ParseError>(
                ParseError::EmptyPipelineSegment,
            ),
            forall|k: int| 0 <= k < commands@.len() ==> (#[trigger] commands@[k])@.name.len() > 0,
        decreases n - j,
    {
        let ghost suffix = tv.skip(j as int);
        proof {
            assert(suffix[0] == tv[j as int]);
            assert(suffix.drop_first() =~= tv.skip(j as int + 1));
        }
        match &tokens[j] {
            Token::Word(w) => {
                let ghost curv = current.deep_view();
                current.push(w.clone());
                proof {
                    assert(current.deep_view() =~= curv.push(w@));
                }
            },
            Token::Pipe => {
                if current.len() == 0 || current[0].as_str().is_empty() {
                    proof {
                        if current@.len() > 0 {
                            assert(current.deep_view()[0] == current@[0]@);
                        }
                    }
                    bad = true;
                } else {
                    let ghost curv = current.deep_view();
                    proof {
                        assert(curv[0] == current@[0]@);
                    }
                    let ghost cs0 = commands@;
                    let name = current.remove(0);
                    let args = current;
                    proof {
                        assert(args.deep_view() =~= curv.drop_first());
                    }
                    let cmd = CommandSpec { name, args };
                    commands.push(cmd);
                    current = Vec::new();
                    proof {
                        let c1 = CmdV { name: curv[0], args: curv.drop_first() };
                        assert(cmds_view(commands@) =~= cmds_view(cs0).push(c1));
                        assert(current.deep_view() =~= Seq::<Seq<char>>::empty());
                        assert forall|c: Seq<CmdV>| #[trigger]
                            (cmds_view(cs0) + (seq![c1] + c)) =~= cmds_view(commands@) + c by {
                            assert(cmds_view(commands@) =~= cmds_view(cs0).push(c1));
                        }
                    }
                }
            },
        }
        j = j + 1;
    }
    if bad {
        return Err(ParseError::EmptyPipelineSegment);
    }
    proof {
        assert(tv.skip(n as int) =~= Seq::<TokenV>::empty());
    }
    if current.len() == 0 || current[0].as_str().is_empty() {
        proof {
            if current@.len() > 0 {
                assert(current.deep_view()[0] == current@[0]@);
            }
        }
        return Err(ParseError::EmptyPipelineSegment);
    }
    let ghost curv = current.deep_view();
    let ghost cs0 = commands@;
    proof {
        assert(curv[0] == current@[0]@);
    }
    let name = current.remove(0);
    let args = current;
    proof {
        assert(args.deep_view() =~= curv.drop_first());
    }
    let cmd = CommandSpec { name, args };
    commands.push(cmd);
    proof {
        let c1 = CmdV { name: curv[0], args: curv.drop_first() };
        assert(cmds_view(commands@) =~= cmds_view(cs0).push(c1));
        assert(cmds_view(cs0) + seq![c1] =~= cmds_view(commands@));
    }
    let p = Pipeline { commands };
    proof {
        assert(p@ =~= cmds_view(p.commands@));
        assert forall|i: int| 0 <= i < p@.len() implies (#[trigger] p@[i]).name.len() > 0 by {
            assert(p@[i] == p.commands@[i]@);
        }
    }
    Ok(p)
}

// ---------------------------------------------------------------------------
// The whole line
// ---------------------------------------------------------------------------
/// The result of parsing one line: the assignment prefix and, unless the
/// line held only assignments, the pipeline to run.
#[derive(Debug)]
pub struct ParsedLine {
    pub assignments: Vec<(String, String)>,
    pub pipeline: Option<Pipeline>,
}

/// A parsed line as mathematics.
pub ghost struct ParsedLineV {
    pub assignments: Seq<(Seq<char>, Seq<char>)>,
    pub pipeline: Option<Seq<CmdV>>,
}

impl View for ParsedLine {
    type V = ParsedLineV;

    open spec fn view(&self) -> ParsedLineV {
        ParsedLineV {
            assignments: self.assignments.deep_view(),
            pipeline: match self.pipeline {
                Some(p) => Some(p@),
                None => None,
            },
        }
    }
}

/// What parsing a whole line yields: expansion, tokenization, the
/// assignment prefix, and — if any tokens remain — the pipeline.
pub open spec fn parse_line_spec(line: Seq<char>, env: Map<Seq<char>, Seq<char>>) -> Result<
    ParsedLineV,
    ParseError,
> {
    match expand_line_spec(line, env) {
        Err(e) => Err(e),
        Ok(ex) => match tokenize_spec(ex) {
            Err(e) => Err(e),
            Ok(ts) => {
                let sp = split_prefix_spec(ts);
                if sp.1.len() == 0 {
                    Ok(ParsedLineV { assignments: sp.0, pipeline: None })
                } else {
                    match parse_pipeline_spec(sp.1, Seq::empty()) {
                        Ok(cmds) => Ok(ParsedLineV { assignments: sp.0, pipeline: Some(cmds) }),
                        Err(e) => Err(e),
                    }
                }
            },
        },
    }
}

/// Parses one line of user input against the given environment.
///
/// `base_env` feeds the `$NAME` substitutions; assignments at the start of
/// the line take effect for references further right on the same line.
pub fn parse_line(line: &str, base_env: &ShellEnv) -> (r: Result<ParsedLine, ParseError>)
    requires
        base_env.wf(),
    ensures
        match r {
            Ok(pl) => parse_line_spec(line@, base_env.as_map()) == Ok::<ParsedLineV, ParseError>(
                pl@,
            ) && (pl.pipeline matches Some(p) ==> p.wf()),
            Err(e) => parse_line_spec(line@, base_env.as_map()) == Err::<ParsedLineV, ParseError>(
                e,
            ),
        },
{
    let expanded = match expand_line(line, base_env) {
        Ok(ex) => ex,
        Err(e) => {
            return Err(e);
        },
    };
    let tokens = match tokenize_with_pipes_and_quotes(expanded.as_str()) {
        Ok(ts) => ts,
        Err(e) => {
            return Err(e);
        },
    };
    let (assignments, tokens) = split_assignments_prefix(tokens);
    if tokens.len() == 0 {
        return Ok(ParsedLine { assignments, pipeline: None });
    }
    proof {
        assert(tokens_view(tokens@).len() == tokens@.len());
    }
    let pipeline = match parse_pipeline(tokens) {
        Ok(p) => p,
        Err(e) => {
            return Err(e);
        },
    };
    Ok(ParsedLine { assignments, pipeline: Some(pipeline) })
}

// ---------------------------------------------------------------------------
// Laws
// ---------------------------------------------------------------------------
/// A parsed line's assignments are exactly the longest prefix of tokens
/// that read as assignments: every token before the split is a word that
/// parses as the recorded assignment, the first token after the prefix (if
/// any) is a pipe or a word that does not parse as one, and the remaining
/// tokens — which form the pipeline's stages — are the rest, untouched.
pub proof fn lemma_assignment_prefix_maximal(ts: Seq<TokenV>)
    ensures
        split_prefix_spec(ts).0.len() <= ts.len(),
        forall|i: int|
            0 <= i < split_prefix_spec(ts).0.len() ==> (match #[trigger] ts[i] {
                TokenV::Word(w) => parse_assignment_spec(w) == Some(split_prefix_spec(ts).0[i]),
                TokenV::Pipe => false,
            }),
        split_prefix_spec(ts).1 =~= ts.skip(split_prefix_spec(ts).0.len() as int),
        split_prefix_spec(ts).0.len() < ts.len() ==> (match ts[split_prefix_spec(
            ts,
        ).0.len() as int] {
            TokenV::Word(w) => parse_assignment_spec(w) is None,
            TokenV::Pipe => true,
        }),
    decreases ts.len(),
{
    if ts.len() > 0 {
        match ts[0] {
            TokenV::Word(w) => {
                match parse_assignment_spec(w) {
                    Some(kv) => {
                        let rest = ts.drop_first();
                        lemma_assignment_prefix_maximal(rest);
                        let a = split_prefix_spec(ts).0;
                        let ra = split_prefix_spec(rest).0;
                        assert(a =~= seq![kv] + ra);
                        assert forall|i: int| 0 <= i < a.len() implies (match #[trigger] ts[i] {
                            TokenV::Word(w2) => parse_assignment_spec(w2) == Some(a[i]),
                            TokenV::Pipe => false,
                        }) by {
                            if i > 0 {
                                assert(ts[i] == rest[i - 1]);
                                assert(a[i] == ra[i - 1]);
                            }
                        }
                        assert(split_prefix_spec(ts).1 =~= ts.skip(a.len() as int));
                        if a.len() < ts.len() {
                            assert(ts[a.len() as int] == rest[ra.len() as int]);
                        }
                    },
                    None => {
                        assert(ts.skip(0) =~= ts);
                    },
                }
            },
            TokenV::Pipe => {
                assert(ts.skip(0) =~= ts);
            },
        }
    }
}

/// A variable reference outside single quotes substitutes exactly the
/// working environment's binding for the name (or the empty string for an
/// unbound name) — the working environment being the caller's environment
/// extended with the assignments committed to the left on the same line.
pub proof fn lemma_substitution_uses_working_env(s: Seq<char>, i: int, st: ExpState)
    requires
        0 <= i < s.len(),
        s[i] == '$',
        st.mode == QuoteMode::Normal || st.mode == QuoteMode::InDoubleQuote,
        var_name_at(s, i + 1) is Some,
    ensures
        ({
            let name = var_name_at(s, i + 1)->Some_0;
            expand_from(s, i, st) == expand_from(
                s,
                i + 1 + name.len(),
                (ExpState {
                    out: st.out + env_value(st.env, name),
                    word: st.word + env_value(st.env, name),
                    started: true,
                    ..st
                }),
            )
        }),
{
    lemma_name_run_len_bound(s, i + 1);
    let name = var_name_at(s, i + 1)->Some_0;
    assert(name.len() == name_run_len(s, i + 1));
}

/// An assignment word committed while the prefix flag is on makes its
/// binding the one later references see: the newest binding for a name
/// wins over both the caller's environment and earlier assignments.
pub proof fn lemma_left_assignment_is_newest(
    env: Map<Seq<char>, Seq<char>>,
    word: Seq<char>,
    n: Seq<char>,
    v: Seq<char>,
)
    requires
        parse_assignment_spec(word) == Some((n, v)),
    ensures
        env_value(committed_env(env, true, word, true), n) == v,
{
}

} // verus!
