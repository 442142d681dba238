//! The builtin commands, computed over plain values: arguments, optional
//! stdin bytes, and the outcomes of the file reads the command asked for.

use vstd::prelude::*;
use vstd::string::*;

use crate::text::{
    char_is_whitespace, dec_str, join_spaces, join_with_spaces, lossy_decode, parse_i32,
    parse_i32_spec, push_char, unicode_whitespace, usize_to_string, utf8_lossy,
};
use crate::types::{BuiltinOutput, ShellControl, ShellError};

verus! {

/// The view of an optional stdin byte buffer.
pub open spec fn opt_bytes_view(stdin: Option<&Vec<u8>>) -> Option<Seq<u8>> {
    match stdin {
        Some(b) => Some(b@),
        None => None,
    }
}

/// The views of a list of file-read outcomes: the bytes read, or the error
/// text the read failed with.
pub open spec fn reads_view(rs: Seq<Result<Vec<u8>, String>>) -> Seq<Result<Seq<u8>, Seq<char>>> {
    rs.map_values(
        |r: Result<Vec<u8>, String>|
            match r {
                Ok(b) => Ok::<Seq<u8>, Seq<char>>(b@),
                Err(e) => Err::<Seq<u8>, Seq<char>>(e@),
            },
    )
}

/// Appends all bytes of `src` to `dst`.
pub fn append_bytes(dst: &mut Vec<u8>, src: &Vec<u8>)
    ensures
        final(dst)@ == old(dst)@ + src@,
{
    let n = src.len();
    let mut i: usize = 0;
    while i < n
        invariant
            0 <= i <= n,
            n == src@.len(),
            dst@ =~= old(dst)@ + src@.take(i as int),
        decreases n - i,
    {
        dst.push(src[i]);
        proof {
            assert(dst@ =~= old(dst)@ + src@.take(i as int + 1));
        }
        i = i + 1;
    }
    proof {
        assert(src@.take(n as int) =~= src@);
    }
}

/// Renders a string as its UTF-8 bytes.
pub(crate) fn string_bytes(s: &String) -> (r: Vec<u8>)
    ensures
        r@ == vstd::utf8::encode_utf8(s@),
{
    s.as_str().as_bytes_vec()
}

// ---------------------------------------------------------------------------
// Error message trimming
// ---------------------------------------------------------------------------
/// Index of the first occurrence of `pat` in `s` at or after `i`, or `-1`.
pub open spec fn find_sub_from(s: Seq<char>, pat: Seq<char>, i: int) -> int
    decreases s.len() - i,
    when 0 <= i && pat.len() > 0
{
    if i + pat.len() > s.len() {
        -1
    } else if s.subrange(i, i + pat.len()) == pat {
        i
    } else {
        find_sub_from(s, pat, i + 1)
    }
}

proof fn lemma_find_sub_from_is(s: Seq<char>, pat: Seq<char>, j: int, e: int)
    requires
        pat.len() > 0,
        0 <= j <= e,
        e + pat.len() <= s.len(),
        forall|k: int| j <= k < e ==> #[trigger] s.subrange(k, k + pat.len()) != pat,
        s.subrange(e, e + pat.len()) == pat,
    ensures
        find_sub_from(s, pat, j) == e,
    decreases e - j,
{
    if j < e {
        lemma_find_sub_from_is(s, pat, j + 1, e);
    }
}

proof fn lemma_find_sub_from_none(s: Seq<char>, pat: Seq<char>, j: int)
    requires
        pat.len() > 0,
        0 <= j,
        forall|k: int| j <= k && k + pat.len() <= s.len() ==> #[trigger] s.subrange(k, k + pat.len()) != pat,
    ensures
        find_sub_from(s, pat, j) == -1,
    decreases s.len() - j,
{
    if j + pat.len() <= s.len() {
        lemma_find_sub_from_none(s, pat, j + 1);
    }
}

/// The error text with the OS-specific ` (os error N)` suffix removed: the
/// part before the first occurrence of ` (os error`, or the whole text.
pub open spec fn io_error_message_spec(s: Seq<char>) -> Seq<char> {
    let i = find_sub_from(s, " (os error"@, 0);
    if i >= 0 {
        s.take(i)
    } else {
        s
    }
}

/// Strips the ` (os error N)` suffix that `std::io` error texts carry, so
/// that the shell's messages are the same on every platform.
pub fn io_error_message(e: &str) -> (r: String)
    ensures
        r@ == io_error_message_spec(e@),
{
    let pat = " (os error";
    let m = pat.unicode_len();
    let n = e.unicode_len();
    proof {
        reveal_strlit(" (os error");
    }
    if n < m {
        proof {
            lemma_find_sub_from_none(e@, pat@, 0);
        }
        return String::from_str(e);
    }
    let mut i: usize = 0;
    while i <= n - m
        invariant
            0 <= i <= n - m + 1,
            m == pat@.len(),
            n == e@.len(),
            0 < m <= n,
            pat@ == " (os error"@,
            forall|k: int| 0 <= k < i ==> #[trigger] e@.subrange(k, k + pat@.len()) != pat@,
        decreases n - i,
    {
        let sub = e.substring_char(i, i + m);
        if crate::text::str_eq(sub, pat) {
            proof {
                lemma_find_sub_from_is(e@, pat@, 0, i as int);
            }
            let r = e.substring_char(0, i);
            proof {
                assert(e@.subrange(0, i as int) =~= e@.take(i as int));
            }
            return String::from_str(r);
        }
        i = i + 1;
    }
    proof {
        lemma_find_sub_from_none(e@, pat@, 0);
    }
    String::from_str(e)
}

// ---------------------------------------------------------------------------
// echo
// ---------------------------------------------------------------------------
/// What `echo` writes: the arguments joined by single spaces, then a newline.
pub open spec fn echo_stdout(args: Seq<Seq<char>>) -> Seq<char> {
    join_spaces(args).push('\n')
}

/// Everything `echo` guarantees: exit 0, the joined arguments and a
/// newline on stdout, nothing on stderr.
pub open spec fn echo_post(args: Seq<Seq<char>>, r: BuiltinOutput) -> bool {
    &&& r.control == ShellControl::Continue(0)
    &&& r.stdout@ == vstd::utf8::encode_utf8(echo_stdout(args))
    &&& r.stderr@ == Seq::<u8>::empty()
}

/// `echo`: writes the arguments joined by single spaces and a newline;
/// exits 0.
pub fn run_echo(args: &Vec<String>) -> (r: BuiltinOutput)
    ensures
        echo_post(args.deep_view(), r),
{
    let mut s = join_with_spaces(args);
    push_char(&mut s, '\n');
    let stdout = string_bytes(&s);
    BuiltinOutput { control: ShellControl::Continue(0), stdout, stderr: Vec::new() }
}

// ---------------------------------------------------------------------------
// exit
// ---------------------------------------------------------------------------
/// The exit code `exit` uses: its first argument read as a signed 32-bit
/// integer; a missing or unreadable argument means zero.
pub open spec fn exit_code_spec(args: Seq<Seq<char>>) -> int {
    if args.len() > 0 {
        match parse_i32_spec(args[0]) {
            Some(v) => v,
            None => 0,
        }
    } else {
        0
    }
}

/// Everything `exit` guarantees: the session ends with the code read from
/// the first argument, and nothing is written.
pub open spec fn exit_post(args: Seq<Seq<char>>, r: BuiltinOutput) -> bool {
    &&& r.control == ShellControl::Exit(exit_code_spec(args) as i32)
    &&& exit_code_spec(args) == r.control->Exit_0 as int
    &&& r.stdout@ == Seq::<u8>::empty()
    &&& r.stderr@ == Seq::<u8>::empty()
}

/// `exit`: ends the session with the given code; writes nothing.
pub fn run_exit(args: &Vec<String>) -> (r: BuiltinOutput)
    ensures
        exit_post(args.deep_view(), r),
{
    let code: i32 = if args.len() > 0 {
        match parse_i32(args[0].as_str()) {
            Some(v) => v,
            None => 0,
        }
    } else {
        0
    };
    BuiltinOutput { control: ShellControl::Exit(code), stdout: Vec::new(), stderr: Vec::new() }
}

// ---------------------------------------------------------------------------
// cat
// ---------------------------------------------------------------------------
/// Whether any file read failed.
pub open spec fn any_read_err(rs: Seq<Result<Seq<u8>, Seq<char>>>) -> bool
    decreases rs.len(),
{
    if rs.len() == 0 {
        false
    } else {
        any_read_err(rs.drop_last()) || rs.last() is Err
    }
}

/// What `cat` writes to stdout: the bytes of the files that could be read,
/// in argument order.
pub open spec fn cat_stdout(rs: Seq<Result<Seq<u8>, Seq<char>>>) -> Seq<u8>
    decreases rs.len(),
{
    if rs.len() == 0 {
        Seq::empty()
    } else {
        cat_stdout(rs.drop_last()) + (match rs.last() {
            Ok(b) => b,
            Err(_) => Seq::empty(),
        })
    }
}

/// One `cat` error line: `cat: <path>: <reason>`, the reason stripped of
/// its OS suffix.
pub open spec fn cat_err_line(path: Seq<char>, e: Seq<char>) -> Seq<char> {
    "cat: "@ + path + ": "@ + io_error_message_spec(e) + "\n"@
}

/// What `cat` writes to stderr: one error line per unreadable file, in
/// argument order.
pub open spec fn cat_stderr(args: Seq<Seq<char>>, rs: Seq<Result<Seq<u8>, Seq<char>>>) -> Seq<char>
    decreases rs.len(),
{
    if rs.len() == 0 {
        Seq::empty()
    } else {
        cat_stderr(args.drop_last(), rs.drop_last()) + (match rs.last() {
            Ok(_) => Seq::<char>::empty(),
            Err(e) => cat_err_line(args.last(), e),
        })
    }
}

/// Everything `cat` guarantees, over the argument views, the stdin bytes
/// and the file-read outcomes.
pub open spec fn cat_post(
    args: Seq<Seq<char>>,
    stdin: Option<Seq<u8>>,
    rs: Seq<Result<Seq<u8>, Seq<char>>>,
    r: BuiltinOutput,
) -> bool {
    if args.len() == 0 {
        match stdin {
            Some(b) => r.control == ShellControl::Continue(0) && r.stdout@ == b && r.stderr@
                == Seq::<u8>::empty(),
            None => r.control == ShellControl::Continue(2) && r.stdout@ == Seq::<u8>::empty()
                && r.stderr@ == vstd::utf8::encode_utf8("cat: missing file operand\n"@),
        }
    } else {
        &&& r.control == ShellControl::Continue(
            if any_read_err(rs) {
                1int
            } else {
                0int
            } as i32,
        )
        &&& r.stdout@ == cat_stdout(rs)
        &&& r.stderr@ == vstd::utf8::encode_utf8(cat_stderr(args, rs))
    }
}

/// `cat`: with no arguments copies stdin, if any, else demands an operand;
/// with arguments writes each readable file's bytes in order, reporting each
/// unreadable one on stderr and exiting 1 if any failed.
pub fn run_cat(args: &Vec<String>, stdin: Option<&Vec<u8>>, reads: &Vec<Result<Vec<u8>, String>>)
    -> (r: BuiltinOutput)
    requires
        reads@.len() == args@.len(),
    ensures
        cat_post(args.deep_view(), opt_bytes_view(stdin), reads_view(reads@), r),
{
    if args.len() == 0 {
        match stdin {
            Some(input) => {
                let mut stdout: Vec<u8> = Vec::new();
                append_bytes(&mut stdout, input);
                proof {
                    assert(stdout@ =~= input@);
                }
                return BuiltinOutput {
                    control: ShellControl::Continue(0),
                    stdout,
                    stderr: Vec::new(),
                };
            },
            None => {
                let msg = String::from_str("cat: missing file operand\n");
                return BuiltinOutput {
                    control: ShellControl::Continue(2),
                    stdout: Vec::new(),
                    stderr: string_bytes(&msg),
                };
            },
        }
    }
    let n = args.len();
    let ghost argv = args.deep_view();
    let ghost rs = reads_view(reads@);
    let mut stdout: Vec<u8> = Vec::new();
    let mut err_text = String::new();
    let mut failed = false;
    let mut i: usize = 0;
    proof {
        assert(rs.take(0) =~= Seq::<Result<Seq<u8>, Seq<char>>>::empty());
        assert(argv.take(0) =~= Seq::<Seq<char>>::empty());
    }
    while i < n
        invariant
            0 <= i <= n,
            n == args@.len(),
            reads@.len() == n,
            argv == args.deep_view(),
            rs == reads_view(reads@),
            argv.len() == n,
            rs.len() == n,
            stdout@ == cat_stdout(rs.take(i as int)),
            err_text@ == cat_stderr(argv.take(i as int), rs.take(i as int)),
            failed == any_read_err(rs.take(i as int)),
        decreases n - i,
    {
        let ghost pre = rs.take(i as int);
        let ghost cur = rs.take(i as int + 1);
        let ghost apre = argv.take(i as int);
        let ghost acur = argv.take(i as int + 1);
        proof {
            assert(cur.drop_last() =~= pre);
            assert(cur.last() == rs[i as int]);
            assert(acur.drop_last() =~= apre);
            assert(acur.last() == argv[i as int]);
        }
        match &reads[i] {
            Ok(bytes) => {
                append_bytes(&mut stdout, bytes);
            },
            Err(e) => {
                let msg = io_error_message(e.as_str());
                err_text.append("cat: ");
                err_text.append(args[i].as_str());
                err_text.append(": ");
                err_text.append(msg.as_str());
                err_text.append("\n");
                failed = true;
            },
        }
        i = i + 1;
    }
    proof {
        assert(rs.take(n as int) =~= rs);
        assert(argv.take(n as int) =~= argv);
    }
    let code: i32 = if failed {
        1
    } else {
        0
    };
    BuiltinOutput {
        control: ShellControl::Continue(code),
        stdout,
        stderr: string_bytes(&err_text),
    }
}

// ---------------------------------------------------------------------------
// wc
// ---------------------------------------------------------------------------
/// The line count of a text, lines being terminated by CR, LF or CRLF, a
/// final unterminated line counting as well.  `started` says whether a line
/// is open at position `i`.
pub open spec fn wc_lines_from(s: Seq<char>, i: int, started: bool) -> nat
    decreases s.len() - i,
    when 0 <= i <= s.len()
{
    if i >= s.len() {
        if started {
            1
        } else {
            0
        }
    } else if s[i] == '\r' {
        if i + 1 < s.len() && s[i + 1] == '\n' {
            1 + wc_lines_from(s, i + 2, false)
        } else {
            1 + wc_lines_from(s, i + 1, false)
        }
    } else if s[i] == '\n' {
        1 + wc_lines_from(s, i + 1, false)
    } else {
        wc_lines_from(s, i + 1, true)
    }
}

/// The word count of a text: the number of maximal runs of non-whitespace.
pub open spec fn wc_words_from(s: Seq<char>, i: int, in_word: bool) -> nat
    decreases s.len() - i,
    when 0 <= i <= s.len()
{
    if i >= s.len() {
        if in_word {
            1
        } else {
            0
        }
    } else if unicode_whitespace(s[i]) {
        (if in_word {
            1nat
        } else {
            0nat
        }) + wc_words_from(s, i + 1, false)
    } else {
        wc_words_from(s, i + 1, true)
    }
}

/// The three counts `wc` reports for a byte buffer: lines and words of the
/// lossily decoded text, and the raw byte length.
pub open spec fn wc_counts(bytes: Seq<u8>) -> (nat, nat, nat) {
    (
        wc_lines_from(lossy_decode(bytes), 0, false),
        wc_words_from(lossy_decode(bytes), 0, false),
        bytes.len(),
    )
}

/// Counts lines, words and bytes of a buffer, as `wc` reports them.
pub fn count_wc(bytes: &Vec<u8>) -> (r: (usize, usize, usize))
    ensures
        ({
            let c = wc_counts(bytes@);
            r.0 == c.0 && r.1 == c.1 && r.2 == c.2
        }),
{
    let text = utf8_lossy(bytes);
    let s = text.as_str();
    let n = s.unicode_len();
    let mut lines: usize = 0;
    let mut i: usize = 0;
    let mut line_open = false;
    while i < n
        invariant
            0 <= i <= n,
            n == s@.len(),
            s@ == lossy_decode(bytes@),
            lines + wc_lines_from(s@, i as int, line_open) == wc_lines_from(s@, 0, false),
            lines <= i,
            line_open ==> lines < i,
        decreases n - i,
    {
        let c = s.get_char(i);
        if c == '\r' {
            if i + 1 < n && s.get_char(i + 1) == '\n' {
                lines = lines + 1;
                line_open = false;
                i = i + 2;
            } else {
                lines = lines + 1;
                line_open = false;
                i = i + 1;
            }
        } else if c == '\n' {
            lines = lines + 1;
            line_open = false;
            i = i + 1;
        } else {
            line_open = true;
            i = i + 1;
        }
    }
    if line_open {
        lines = lines + 1;
    }
    let mut words: usize = 0;
    let mut in_word = false;
    let mut j: usize = 0;
    while j < n
        invariant
            0 <= j <= n,
            n == s@.len(),
            s@ == lossy_decode(bytes@),
            words + wc_words_from(s@, j as int, in_word) == wc_words_from(s@, 0, false),
            words <= j,
            in_word ==> words < j,
        decreases n - j,
    {
        let c = s.get_char(j);
        if char_is_whitespace(c) {
            if in_word {
                words = words + 1;
            }
            in_word = false;
        } else {
            in_word = true;
        }
        j = j + 1;
    }
    if in_word {
        words = words + 1;
    }
    (lines, words, bytes.len())
}

/// The line `wc` prints: `<lines> <words> <bytes>` and a newline.
pub open spec fn wc_render(l: nat, w: nat, b: nat) -> Seq<char> {
    dec_str(l) + seq![' '] + dec_str(w) + seq![' '] + dec_str(b) + seq!['\n']
}

fn render_wc(l: usize, w: usize, b: usize) -> (r: String)
    ensures
        r@ == wc_render(l as nat, w as nat, b as nat),
{
    let mut s = usize_to_string(l);
    push_char(&mut s, ' ');
    let s2 = usize_to_string(w);
    s.append(s2.as_str());
    push_char(&mut s, ' ');
    let s3 = usize_to_string(b);
    s.append(s3.as_str());
    push_char(&mut s, '\n');
    s
}

/// Everything `wc` guarantees, over the argument views, the stdin bytes
/// and the file-read outcomes.
pub open spec fn wc_post(
    args: Seq<Seq<char>>,
    stdin: Option<Seq<u8>>,
    rs: Seq<Result<Seq<u8>, Seq<char>>>,
    r: BuiltinOutput,
) -> bool {
    if args.len() == 0 {
        match stdin {
            Some(b) => {
                let c = wc_counts(b);
                r.control == ShellControl::Continue(0) && r.stdout@ == vstd::utf8::encode_utf8(
                    wc_render(c.0, c.1, c.2),
                ) && r.stderr@ == Seq::<u8>::empty()
            },
            None => r.control == ShellControl::Continue(2) && r.stdout@ == Seq::<u8>::empty()
                && r.stderr@ == vstd::utf8::encode_utf8("wc: missing file operand\n"@),
        }
    } else if args.len() != 1 {
        r.control == ShellControl::Continue(2) && r.stdout@ == Seq::<u8>::empty() && r.stderr@
            == vstd::utf8::encode_utf8("wc: expected exactly one file path\n"@)
    } else {
        match rs[0] {
            Ok(b) => {
                let c = wc_counts(b);
                r.control == ShellControl::Continue(0) && r.stdout@ == vstd::utf8::encode_utf8(
                    wc_render(c.0, c.1, c.2),
                ) && r.stderr@ == Seq::<u8>::empty()
            },
            Err(e) => r.control == ShellControl::Continue(1) && r.stdout@ == Seq::<u8>::empty()
                && r.stderr@ == vstd::utf8::encode_utf8(
                "wc: "@ + args[0] + ": "@ + io_error_message_spec(e) + "\n"@,
            ),
        }
    }
}

/// `wc`: counts the lines, words and bytes of its single file argument, or
/// of stdin when it has no argument and stdin is present.
pub fn run_wc(args: &Vec<String>, stdin: Option<&Vec<u8>>, reads: &Vec<Result<Vec<u8>, String>>)
    -> (r: BuiltinOutput)
    requires
        args@.len() == 1 ==> reads@.len() == 1,
    ensures
        wc_post(args.deep_view(), opt_bytes_view(stdin), reads_view(reads@), r),
{
    if args.len() == 0 {
        match stdin {
            Some(input) => {
                let (l, w, b) = count_wc(input);
                let line = render_wc(l, w, b);
                return BuiltinOutput {
                    control: ShellControl::Continue(0),
                    stdout: string_bytes(&line),
                    stderr: Vec::new(),
                };
            },
            None => {
                let msg = String::from_str("wc: missing file operand\n");
                return BuiltinOutput {
                    control: ShellControl::Continue(2),
                    stdout: Vec::new(),
                    stderr: string_bytes(&msg),
                };
            },
        }
    }
    if args.len() != 1 {
        let msg = String::from_str("wc: expected exactly one file path\n");
        return BuiltinOutput {
            control: ShellControl::Continue(2),
            stdout: Vec::new(),
            stderr: string_bytes(&msg),
        };
    }
    match &reads[0] {
        Ok(bytes) => {
            let (l, w, b) = count_wc(bytes);
            let line = render_wc(l, w, b);
            BuiltinOutput {
                control: ShellControl::Continue(0),
                stdout: string_bytes(&line),
                stderr: Vec::new(),
            }
        },
        Err(e) => {
            let msg = io_error_message(e.as_str());
            let mut text = String::from_str("wc: ");
            text.append(args[0].as_str());
            text.append(": ");
            text.append(msg.as_str());
            text.append("\n");
            BuiltinOutput {
                control: ShellControl::Continue(1),
                stdout: Vec::new(),
                stderr: string_bytes(&text),
            }
        },
    }
}

// ---------------------------------------------------------------------------
// pwd
// ---------------------------------------------------------------------------
/// The view of the host's answer about the current working directory.
pub open spec fn cwd_view(cwd: &Result<String, String>) -> Result<Seq<char>, Seq<char>> {
    match cwd {
        Ok(d) => Ok(d@),
        Err(e) => Err(e@),
    }
}

/// Everything `pwd` guarantees: the directory and a newline on stdout, or
/// the host's failure surfaced as an I/O error.
pub open spec fn pwd_post(cwd: Result<Seq<char>, Seq<char>>, r: Result<
    BuiltinOutput,
    ShellError,
>) -> bool {
    match cwd {
        Ok(dir) => match r {
            Ok(o) => o.control == ShellControl::Continue(0) && o.stdout@
                == vstd::utf8::encode_utf8(dir.push('\n')) && o.stderr@ == Seq::<u8>::empty(),
            Err(_) => false,
        },
        Err(e) => match r {
            Ok(_) => false,
            Err(se) => match se {
                ShellError::Io(m) => m@ == e,
                _ => false,
            },
        },
    }
}

/// `pwd`: writes the current working directory, as the host reported it,
/// and a newline; a failed lookup surfaces as an I/O error.
pub fn run_pwd(cwd: &Result<String, String>) -> (r: Result<BuiltinOutput, ShellError>)
    ensures
        pwd_post(cwd_view(cwd), r),
{
    match cwd {
        Ok(dir) => {
            let mut s = dir.clone();
            push_char(&mut s, '\n');
            Ok(
                BuiltinOutput {
                    control: ShellControl::Continue(0),
                    stdout: string_bytes(&s),
                    stderr: Vec::new(),
                },
            )
        },
        Err(e) => Err(ShellError::Io(e.clone())),
    }
}

// ---------------------------------------------------------------------------
// Dispatch
// ---------------------------------------------------------------------------
/// The builtin commands.
#[derive(Debug, Clone, Copy, PartialEq, Eq, Structural)]
pub enum Builtin {
    Cat,
    Echo,
    Grep,
    Wc,
    Pwd,
    Exit,
}

/// Which builtin a command name denotes, if any.
pub open spec fn builtin_of(name: Seq<char>) -> Option<Builtin> {
    if name == "cat"@ {
        Some(Builtin::Cat)
    } else if name == "echo"@ {
        Some(Builtin::Echo)
    } else if name == "grep"@ {
        Some(Builtin::Grep)
    } else if name == "wc"@ {
        Some(Builtin::Wc)
    } else if name == "pwd"@ {
        Some(Builtin::Pwd)
    } else if name == "exit"@ {
        Some(Builtin::Exit)
    } else {
        None
    }
}

impl Builtin {
    /// Looks a command name up among the builtins.
    pub fn from_name(name: &str) -> (r: Option<Builtin>)
        ensures
            r == builtin_of(name@),
    {
        if crate::text::str_eq(name, "cat") {
            Some(Builtin::Cat)
        } else if crate::text::str_eq(name, "echo") {
            Some(Builtin::Echo)
        } else if crate::text::str_eq(name, "grep") {
            Some(Builtin::Grep)
        } else if crate::text::str_eq(name, "wc") {
            Some(Builtin::Wc)
        } else if crate::text::str_eq(name, "pwd") {
            Some(Builtin::Pwd)
        } else if crate::text::str_eq(name, "exit") {
            Some(Builtin::Exit)
        } else {
            None
        }
    }
}

/// The file paths a builtin will read for the given arguments: all of them
/// for `cat`, the single operand for `wc`, the file operands for `grep`,
/// nothing for the rest.
pub open spec fn file_operands_spec(builtin: Builtin, args: Seq<Seq<char>>) -> Seq<Seq<char>> {
    match builtin {
        Builtin::Cat => args,
        Builtin::Wc => if args.len() == 1 {
            args
        } else {
            Seq::empty()
        },
        Builtin::Grep => crate::grep::grep_operands_spec(args),
        _ => Seq::empty(),
    }
}

/// Copies a list of strings.
fn clone_strings(v: &Vec<String>) -> (r: Vec<String>)
    ensures
        r.deep_view() == v.deep_view(),
{
    let n = v.len();
    let mut r: Vec<String> = Vec::new();
    let mut i: usize = 0;
    while i < n
        invariant
            0 <= i <= n,
            n == v@.len(),
            r@ =~= v@.take(i as int),
        decreases n - i,
    {
        r.push(v[i].clone());
        proof {
            assert(r@ =~= v@.take(i as int + 1));
        }
        i = i + 1;
    }
    proof {
        assert(v@.take(n as int) =~= v@);
        assert(r@ == v@);
        assert(r.deep_view() =~= v.deep_view());
    }
    r
}

/// The file paths the given builtin invocation will ask the host to read,
/// in the order the read outcomes must be handed back.
pub fn file_operands(builtin: Builtin, args: &Vec<String>) -> (r: Vec<String>)
    ensures
        r.deep_view() == file_operands_spec(builtin, args.deep_view()),
{
    match builtin {
        Builtin::Cat => clone_strings(args),
        Builtin::Wc => {
            if args.len() == 1 {
                clone_strings(args)
            } else {
                Vec::new()
            }
        },
        Builtin::Grep => {
            match crate::grep::parse_grep_args(args) {
                Ok(g) => g.files,
                Err(_) => Vec::new(),
            }
        },
        _ => Vec::new(),
    }
}

/// What the host supplies for one builtin invocation: its answer about the
/// current directory, and the outcome of reading each requested file.
pub struct HostContext {
    pub cwd: Result<String, String>,
    pub reads: Vec<Result<Vec<u8>, String>>,
}

/// Everything one builtin run guarantees, per builtin, over the views of
/// the arguments, the stdin bytes, the host's current-directory answer and
/// the file-read outcomes.
pub open spec fn builtin_post(
    builtin: Builtin,
    av: Seq<Seq<char>>,
    sv: Option<Seq<u8>>,
    cwd: Result<Seq<char>, Seq<char>>,
    rs: Seq<Result<Seq<u8>, Seq<char>>>,
    r: Result<BuiltinOutput, ShellError>,
) -> bool {
    match builtin {
        Builtin::Echo => r matches Ok(o) && echo_post(av, o),
        Builtin::Exit => r matches Ok(o) && exit_post(av, o),
        Builtin::Pwd => pwd_post(cwd, r),
        Builtin::Cat => r matches Ok(o) && cat_post(av, sv, rs, o),
        Builtin::Wc => r matches Ok(o) && wc_post(av, sv, rs, o),
        Builtin::Grep => r matches Ok(o) && crate::grep::grep_post(av, sv, rs, o),
    }
}

/// Runs a builtin with optional stdin bytes (for pipelines).  `host.reads`
/// must answer exactly the paths `file_operands` asked for.
pub fn run_builtin_with_input(
    builtin: Builtin,
    args: &Vec<String>,
    stdin: Option<&Vec<u8>>,
    host: &HostContext,
) -> (r: Result<BuiltinOutput, ShellError>)
    requires
        host.reads@.len() == file_operands_spec(builtin, args.deep_view()).len(),
    ensures
        builtin_post(
            builtin,
            args.deep_view(),
            opt_bytes_view(stdin),
            cwd_view(&host.cwd),
            reads_view(host.reads@),
            r,
        ),
{
    match builtin {
        Builtin::Echo => Ok(run_echo(args)),
        Builtin::Pwd => run_pwd(&host.cwd),
        Builtin::Exit => Ok(run_exit(args)),
        Builtin::Cat => Ok(run_cat(args, stdin, &host.reads)),
        Builtin::Grep => Ok(crate::grep::run_grep(args, stdin, &host.reads)),
        Builtin::Wc => Ok(run_wc(args, stdin, &host.reads)),
    }
}

/// Runs a builtin without pipeline stdin.
pub fn run_builtin(builtin: Builtin, args: &Vec<String>, host: &HostContext) -> (r: Result<
    BuiltinOutput,
    ShellError,
>)
    requires
        host.reads@.len() == file_operands_spec(builtin, args.deep_view()).len(),
    ensures
        builtin_post(
            builtin,
            args.deep_view(),
            None,
            cwd_view(&host.cwd),
            reads_view(host.reads@),
            r,
        ),
{
    run_builtin_with_input(builtin, args, None, host)
}


// ---------------------------------------------------------------------------
// Laws
// ---------------------------------------------------------------------------
proof fn lemma_find_sub_from_first(s: Seq<char>, pat: Seq<char>, j: int)
    requires
        pat.len() > 0,
        0 <= j,
    ensures
        find_sub_from(s, pat, j) == -1 || j <= find_sub_from(s, pat, j),
        find_sub_from(s, pat, j) >= 0 ==> j <= find_sub_from(s, pat, j) && find_sub_from(s, pat, j)
            + pat.len() <= s.len(),
        forall|k: int|
            j <= k && (find_sub_from(s, pat, j) == -1 || k < find_sub_from(s, pat, j)) && k
                + pat.len() <= s.len() ==> #[trigger] s.subrange(k, k + pat.len()) != pat,
    decreases s.len() - j,
{
    if j + pat.len() <= s.len() && s.subrange(j, j + pat.len()) != pat {
        lemma_find_sub_from_first(s, pat, j + 1);
    }
}

/// The error text a failed `cat`, `wc` or `grep` read reports carries no
/// OS-specific numeric suffix: the stripped reason holds no occurrence of
/// ` (os error` at all.
pub proof fn lemma_io_error_message_clean(s: Seq<char>)
    ensures
        find_sub_from(io_error_message_spec(s), " (os error"@, 0) == -1,
{
    reveal_strlit(" (os error");
    let pat = " (os error"@;
    let i = find_sub_from(s, pat, 0);
    lemma_find_sub_from_first(s, pat, 0);
    if i >= 0 {
        let m = io_error_message_spec(s);
        assert(m =~= s.take(i));
        assert forall|k: int| 0 <= k && k + pat.len() <= m.len() implies #[trigger] m.subrange(
            k,
            k + pat.len(),
        ) != pat by {
            assert(m.subrange(k, k + pat.len()) =~= s.subrange(k, k + pat.len()));
        }
        lemma_find_sub_from_none(m, pat, 0);
    } else {
        assert(io_error_message_spec(s) == s);
    }
}

/// Piping `echo W1 … Wn` into `cat` yields exactly `W1 … Wn` joined by
/// spaces and a final newline: `cat` passes its stdin through unchanged, so
/// the pipeline writes what `echo` wrote.
pub proof fn lemma_echo_cat_roundtrip(args: Seq<Seq<char>>, e: BuiltinOutput, c: BuiltinOutput)
    requires
        echo_post(args, e),
        cat_post(Seq::empty(), Some(e.stdout@), Seq::empty(), c),
    ensures
        c.stdout@ == vstd::utf8::encode_utf8(join_spaces(args).push('\n')),
        c.control == ShellControl::Continue(0),
        c.stderr@ == Seq::<u8>::empty(),
{
}

/// `cat FILE | wc` counts the same as `wc FILE`: `cat` of one readable file
/// writes exactly the file's bytes, so `wc` over the pipe sees the bytes
/// `wc FILE` reads, and both print the same counts and exit 0.
pub proof fn lemma_cat_wc_same_counts(
    path: Seq<char>,
    bytes: Seq<u8>,
    c: BuiltinOutput,
    piped: BuiltinOutput,
    direct: BuiltinOutput,
)
    requires
        cat_post(seq![path], None, seq![Ok(bytes)], c),
        wc_post(Seq::empty(), Some(c.stdout@), Seq::empty(), piped),
        wc_post(seq![path], None, seq![Ok(bytes)], direct),
    ensures
        piped.stdout@ == direct.stdout@,
        piped.control == direct.control,
        piped.control == ShellControl::Continue(0),
{
    let rs: Seq<Result<Seq<u8>, Seq<char>>> = seq![Ok(bytes)];
    let empty = Seq::<Result<Seq<u8>, Seq<char>>>::empty();
    assert(rs.len() == 1);
    assert(rs.last() == Ok::<Seq<u8>, Seq<char>>(bytes));
    assert(rs.drop_last() =~= empty);
    assert(cat_stdout(rs.drop_last()) == cat_stdout(empty));
    assert(cat_stdout(empty) == Seq::<u8>::empty());
    assert(cat_stdout(rs) =~= bytes);
    assert(any_read_err(rs.drop_last()) == any_read_err(empty));
    assert(!any_read_err(empty));
    assert(!any_read_err(rs));
}

} // verus!
