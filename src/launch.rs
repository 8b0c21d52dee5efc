//! Planning a launch: where the command comes from, how it is invoked, the
//! log file it writes to, and what the table records of it.

use vstd::prelude::*;
use crate::text::{
    all_digits, chars_of, decimal_text, digit_value, digits_to_u64, digits_value, split_whitespace, split_words,
    string_of, strings_view, sub_chars, trim_chars, trimmed, u64_to_text,
};

verus! {

/// `name` taken relative to `dir`, as `Path::join` does on Unix: an absolute
/// `name` stands alone, otherwise one `/` separates the two.
pub open spec fn path_join(dir: Seq<char>, name: Seq<char>) -> Seq<char> {
    if name.len() > 0 && name[0] == '/' {
        name
    } else if dir.len() == 0 {
        name
    } else if dir.last() == '/' {
        dir + name
    } else {
        dir + "/"@ + name
    }
}

pub fn join_path(dir: &str, name: &str) -> (r: String)
    ensures
        r@ == path_join(dir@, name@),
{
    let d = chars_of(dir);
    let n = chars_of(name);
    if n.len() > 0 && n[0] == '/' {
        String::from_str(name)
    } else if d.len() == 0 {
        String::from_str(name)
    } else if d[d.len() - 1] == '/' {
        String::from_str(dir).concat(name)
    } else {
        String::from_str(dir).concat("/").concat(name)
    }
}

/// Where a script token may name a file, in the order they are tried:
/// `<dir>/scripts/<name>.py`, then `.sh`, then the bare name.
pub open spec fn script_candidates(dir: Seq<char>, name: Seq<char>) -> Seq<Seq<char>> {
    let base = path_join(dir, "scripts"@);
    seq![path_join(base, name + ".py"@), path_join(base, name + ".sh"@), path_join(base, name)]
}

/// Relies on `std::path::Path::is_file`: whether a regular file is found at
/// `p` now. What is on disk is up to the machine.
#[verifier::external_body]
fn path_is_file(p: &str) -> bool {
    std::path::Path::new(p).is_file()
}

/// A script token that can name a file of the scripts directory: not empty,
/// and without `/`, so that it cannot lead out of the directory.
pub open spec fn plain_name(name: Seq<char>) -> bool {
    name.len() > 0 && !name.contains('/')
}

/// `p` names an entry directly inside the directory `d`.
pub open spec fn directly_in(p: Seq<char>, d: Seq<char>) -> bool {
    exists|f: Seq<char>| plain_name(f) && p == path_join(d, f)
}

/// The first of three candidates that was found to be a file.
pub open spec fn first_found(c: Seq<Seq<char>>, f0: bool, f1: bool, f2: bool) -> Option<Seq<char>> {
    if f0 {
        Some(c[0])
    } else if f1 {
        Some(c[1])
    } else if f2 {
        Some(c[2])
    } else {
        None
    }
}

/// Picks the first candidate whose flag says it is a file.
pub fn first_script(c0: String, c1: String, c2: String, f0: bool, f1: bool, f2: bool) -> (r: Option<String>)
    ensures
        opt_view(r) == first_found(seq![c0@, c1@, c2@], f0, f1, f2),
{
    if f0 {
        Some(c0)
    } else if f1 {
        Some(c1)
    } else if f2 {
        Some(c2)
    } else {
        None
    }
}

fn has_slash(s: &str) -> (r: bool)
    ensures
        r == s@.contains('/'),
{
    let cs = chars_of(s);
    let mut i: usize = 0;
    while i < cs.len()
        invariant
            i <= cs@.len(),
            cs@ == s@,
            forall|k: int| 0 <= k < i ==> cs@[k] != '/',
        decreases cs@.len() - i,
    {
        if cs[i] == '/' {
            assert(s@[i as int] == '/');
            return true;
        }
        i = i + 1;
    }
    false
}

proof fn lemma_suffixed_plain(name: Seq<char>, ext: Seq<char>)
    requires
        plain_name(name),
        !ext.contains('/'),
    ensures
        plain_name(name + ext),
{
    let f = name + ext;
    assert forall|i: int| 0 <= i < f.len() implies f[i] != '/' by {
        if i < name.len() {
            assert(f[i] == name[i]);
        } else {
            assert(f[i] == ext[i - name.len()]);
        }
    }
}

/// Looks `name` up among the scripts of `script_dir`: the first of
/// `<dir>/scripts/<name>.py`, `.sh` and the bare name that is a file. What
/// is on disk is up to the machine; the choice made on it is
/// `first_script`'s. A token that is empty or holds `/` names no script.
pub fn find_script(script_dir: &str, name: &str) -> (r: Option<String>)
    ensures
        !plain_name(name@) ==> r is None,
        plain_name(name@) ==> exists|f0: bool, f1: bool, f2: bool|
            opt_view(r) == first_found(script_candidates(script_dir@, name@), f0, f1, f2),
        r matches Some(p) ==> script_candidates(script_dir@, name@).contains(p@) && directly_in(
            p@,
            path_join(script_dir@, "scripts"@),
        ),
{
    if name.unicode_len() == 0 || has_slash(name) {
        return None;
    }
    let base = join_path(script_dir, "scripts");
    let py = String::from_str(name).concat(".py");
    let sh = String::from_str(name).concat(".sh");
    let c0 = join_path(base.as_str(), py.as_str());
    let c1 = join_path(base.as_str(), sh.as_str());
    let c2 = join_path(base.as_str(), name);
    let ghost cands = script_candidates(script_dir@, name@);
    assert(cands =~= seq![c0@, c1@, c2@]);
    proof {
        reveal_strlit(".py");
        reveal_strlit(".sh");
        lemma_suffixed_plain(name@, ".py"@);
        lemma_suffixed_plain(name@, ".sh"@);
        assert(plain_name(py@));
        assert(plain_name(sh@));
    }
    let f0 = path_is_file(c0.as_str());
    let f1 = path_is_file(c1.as_str());
    let f2 = path_is_file(c2.as_str());
    let r = first_script(c0, c1, c2, f0, f1, f2);
    proof {
        if f0 {
            assert(cands[0] == opt_view(r).unwrap());
        } else if f1 {
            assert(cands[1] == opt_view(r).unwrap());
        } else if f2 {
            assert(cands[2] == opt_view(r).unwrap());
        }
    }
    r
}

/// The index of the last `c` in `s`, or -1.
pub open spec fn last_index_of(s: Seq<char>, c: char) -> int
    decreases s.len(),
{
    if s.len() == 0 {
        -1
    } else if s.last() == c {
        s.len() - 1
    } else {
        last_index_of(s.drop_last(), c)
    }
}

proof fn lemma_last_index_of(s: Seq<char>, c: char)
    ensures
        -1 <= last_index_of(s, c) < s.len(),
        last_index_of(s, c) >= 0 ==> s[last_index_of(s, c)] == c,
        forall|i: int| last_index_of(s, c) < i < s.len() ==> s[i] != c,
    decreases s.len(),
{
    if s.len() > 0 {
        let t = s.drop_last();
        lemma_last_index_of(t, c);
        assert forall|i: int| 0 <= i < t.len() implies t[i] == s[i] by {}
    }
}

fn last_index(s: &Vec<char>, c: char) -> (r: Option<usize>)
    ensures
        match r {
            Some(i) => i < s@.len() && last_index_of(s@, c) == i,
            None => last_index_of(s@, c) == -1,
        },
{
    let mut i: usize = s.len();
    assert(s@.subrange(0, i as int) =~= s@);
    while i > 0
        invariant
            i <= s@.len(),
            last_index_of(s@, c) == last_index_of(s@.subrange(0, i as int), c),
        decreases i,
    {
        assert(s@.subrange(0, i as int).drop_last() =~= s@.subrange(0, i - 1));
        if s[i - 1] == c {
            return Some(i - 1);
        }
        i = i - 1;
    }
    assert(s@.subrange(0, 0) =~= Seq::<char>::empty());
    None
}

/// The last component of a path: what follows its last `/`.
pub open spec fn file_name_of(p: Seq<char>) -> Seq<char> {
    p.subrange(last_index_of(p, '/') + 1, p.len() as int)
}

/// Whether the file name of `p` has the extension `py`: a `.` that does not
/// open the name, followed by `py` to the end.
pub open spec fn has_py_extension(p: Seq<char>) -> bool {
    let f = file_name_of(p);
    let d = last_index_of(f, '.');
    d > 0 && f.subrange(d + 1, f.len() as int) == "py"@
}

pub fn is_python_script(p: &str) -> (r: bool)
    ensures
        r == has_py_extension(p@),
{
    let cs = chars_of(p);
    proof {
        lemma_last_index_of(cs@, '/');
    }
    let len = cs.len();
    let start: usize = match last_index(&cs, '/') {
        Some(i) => i + 1,
        None => 0,
    };
    let mut f: Vec<char> = Vec::new();
    let mut k: usize = start;
    while k < len
        invariant
            len == cs@.len(),
            start <= k <= cs@.len(),
            f@ == cs@.subrange(start as int, k as int),
        decreases cs@.len() - k,
    {
        f.push(cs[k]);
        assert(f@ =~= cs@.subrange(start as int, k + 1));
        k = k + 1;
    }
    assert(f@ == file_name_of(p@));
    proof {
        lemma_last_index_of(f@, '.');
        reveal_strlit("py");
    }
    match last_index(&f, '.') {
        Some(d) => {
            let ghost tail = f@.subrange(d + 1, f@.len() as int);
            if d > 0 && f.len() - d == 3 && f[d + 1] == 'p' && f[d + 2] == 'y' {
                assert(tail =~= "py"@);
                true
            } else {
                proof {
                    if tail == "py"@ {
                        assert(tail.len() == 2);
                        assert(tail[0] == f@[d + 1]);
                        assert(tail[1] == f@[d + 2]);
                    }
                }
                false
            }
        },
        None => false,
    }
}

pub uninterp spec fn alphanumeric(c: char) -> bool;

/// Relies on `char::is_alphanumeric`: whether `c` is Unicode `Alphabetic` or
/// `Numeric`. ASCII letters and digits are.
#[verifier::external_body]
fn char_is_alphanumeric(c: char) -> (r: bool)
    ensures
        r == alphanumeric(c),
        ('a' <= c && c <= 'z') || ('A' <= c && c <= 'Z') || ('0' <= c && c <= '9') ==> r,
{
    c.is_alphanumeric()
}

/// The characters of `cs` whose mark is set, in order.
pub open spec fn kept(cs: Seq<char>, marks: Seq<bool>) -> Seq<char>
    decreases cs.len(),
{
    if cs.len() == 0 || marks.len() == 0 {
        seq![]
    } else if marks[marks.len() - 1] {
        kept(cs.drop_last(), marks.drop_last()).push(cs.last())
    } else {
        kept(cs.drop_last(), marks.drop_last())
    }
}

/// Keeps the characters whose mark is set.
pub fn keep_marked(cs: &Vec<char>, marks: &Vec<bool>) -> (r: Vec<char>)
    requires
        cs@.len() == marks@.len(),
    ensures
        r@ == kept(cs@, marks@),
{
    let mut r: Vec<char> = Vec::new();
    let mut i: usize = 0;
    while i < cs.len()
        invariant
            i <= cs@.len(),
            cs@.len() == marks@.len(),
            r@ == kept(cs@.subrange(0, i as int), marks@.subrange(0, i as int)),
        decreases cs@.len() - i,
    {
        assert(cs@.subrange(0, i + 1).drop_last() =~= cs@.subrange(0, i as int));
        assert(marks@.subrange(0, i + 1).drop_last() =~= marks@.subrange(0, i as int));
        if marks[i] {
            r.push(cs[i]);
        }
        i = i + 1;
    }
    assert(cs@.subrange(0, i as int) =~= cs@);
    assert(marks@.subrange(0, i as int) =~= marks@);
    r
}

/// Whether a character may stand in a log file's name.
pub open spec fn log_name_char(c: char) -> bool {
    alphanumeric(c) || c == '_' || c == '-'
}

/// The characters of `s` that may stand in a log file's name, in order.
pub open spec fn sanitized(s: Seq<char>) -> Seq<char> {
    kept(s, s.map_values(|c: char| log_name_char(c)))
}

pub fn sanitize_name(name: &str) -> (r: String)
    ensures
        r@ == sanitized(name@),
{
    let cs = chars_of(name);
    let mut marks: Vec<bool> = Vec::new();
    let mut i: usize = 0;
    while i < cs.len()
        invariant
            i <= cs@.len(),
            marks@ == cs@.subrange(0, i as int).map_values(|c: char| log_name_char(c)),
        decreases cs@.len() - i,
    {
        let c = cs[i];
        let keep = char_is_alphanumeric(c) || c == '_' || c == '-';
        marks.push(keep);
        assert(marks@ =~= cs@.subrange(0, i + 1).map_values(|c: char| log_name_char(c)));
        i = i + 1;
    }
    assert(cs@.subrange(0, i as int) =~= cs@);
    let r = keep_marked(&cs, &marks);
    string_of(&r)
}

/// The log file of a launch of `script` at `now_secs`: in `log_dir`, named
/// from the script's sanitized name and the time modulo 100000.
pub open spec fn log_path(log_dir: Seq<char>, script: Seq<char>, now_secs: u64) -> Seq<char> {
    path_join(log_dir, sanitized(script) + "_"@ + decimal_text((now_secs % 100000) as nat) + ".log"@)
}

pub fn log_file_path(log_dir: &str, script_name: &str, now_secs: u64) -> (r: String)
    ensures
        r@ == log_path(log_dir@, script_name@, now_secs),
{
    let clean = sanitize_name(script_name);
    let stamp = u64_to_text(now_secs % 100000);
    let file = clean.concat("_").concat(stamp.as_str()).concat(".log");
    join_path(log_dir, file.as_str())
}

/// Words joined by single spaces.
pub open spec fn joined(ws: Seq<Seq<char>>) -> Seq<char>
    decreases ws.len(),
{
    if ws.len() == 0 {
        seq![]
    } else if ws.len() == 1 {
        ws[0]
    } else {
        joined(ws.drop_last()) + " "@ + ws.last()
    }
}

/// The command line recorded for a launch: the program, a space, and the
/// arguments joined by spaces.
pub open spec fn command_text(program: Seq<char>, args: Seq<Seq<char>>) -> Seq<char> {
    program + " "@ + joined(args)
}

pub fn command_line(program: &str, args: &Vec<String>) -> (r: String)
    ensures
        r@ == command_text(program@, strings_view(args@)),
{
    let mut r = String::from_str(program).concat(" ");
    let ghost head = program@ + " "@;
    let mut i: usize = 0;
    while i < args.len()
        invariant
            i <= args@.len(),
            r@ == head + joined(strings_view(args@).subrange(0, i as int)),
        decreases args@.len() - i,
    {
        let ghost ws = strings_view(args@).subrange(0, i + 1);
        assert(ws.drop_last() =~= strings_view(args@).subrange(0, i as int));
        if i > 0 {
            r = r.concat(" ");
        } else {
            assert(strings_view(args@).subrange(0, 0) =~= Seq::<Seq<char>>::empty());
        }
        r = r.concat(args[i].as_str());
        i = i + 1;
    }
    assert(strings_view(args@).subrange(0, i as int) =~= strings_view(args@));
    r
}

/// A program and its arguments.
pub struct CommandLine {
    pub program: String,
    pub args: Vec<String>,
}

/// Splits a recorded command line back into a program and its arguments,
/// at whitespace. A line with no words gives nothing to run.
pub fn split_command(cmd_str: &str) -> (r: Option<CommandLine>)
    ensures
        match r {
            Some(c) => split_words(cmd_str@).len() > 0 && c.program@ == split_words(cmd_str@)[0]
                && strings_view(c.args@) == split_words(cmd_str@).drop_first(),
            None => split_words(cmd_str@).len() == 0,
        },
{
    let mut words = split_whitespace(cmd_str);
    if words.len() == 0 {
        return None;
    }
    let ghost ws = strings_view(words@);
    let program = words.remove(0);
    assert(strings_view(words@) =~= ws.drop_first());
    Some(CommandLine { program, args: words })
}

/// The view of an optional string.
pub open spec fn opt_view(o: Option<String>) -> Option<Seq<char>> {
    match o {
        Some(s) => Some(s@),
        None => None,
    }
}

/// Everything a launch needs, decided before anything runs.
pub struct LaunchPlan {
    /// The program to execute.
    pub program: String,
    /// Its arguments.
    pub args: Vec<String>,
    /// Whether the program is a script file that must be made executable first.
    pub make_executable: bool,
    /// The log file that takes both stdout and stderr.
    pub log_file: String,
    /// The command line that the table records.
    pub cmd_str: String,
    pub script_name: String,
    pub display_name: String,
    pub working_dir: String,
    pub timeout_ms: Option<u64>,
}

/// The program that runs a script token: a Python script found on disk runs
/// under `python3`, another script found there runs itself, and a token
/// that names no script file is run as it is.
pub open spec fn plan_program(found: Option<Seq<char>>, script: Seq<char>) -> Seq<char> {
    match found {
        Some(p) => if has_py_extension(p) {
            "python3"@
        } else {
            p
        },
        None => script,
    }
}

/// The arguments of that program: the script's path comes first under `python3`.
pub open spec fn plan_args(found: Option<Seq<char>>, rest: Seq<Seq<char>>) -> Seq<Seq<char>> {
    match found {
        Some(p) => if has_py_extension(p) {
            seq![p] + rest
        } else {
            rest
        },
        None => rest,
    }
}

/// Whether `r` is the plan for launching `args` (a script token, then its
/// arguments) when the script lookup found `found`.
pub open spec fn plan_is(
    r: LaunchPlan,
    found: Option<Seq<char>>,
    log_dir: Seq<char>,
    args: Seq<Seq<char>>,
    timeout_ms: Option<u64>,
    display_name: Option<Seq<char>>,
    working_dir: Seq<char>,
    now_secs: u64,
) -> bool {
    let script = args[0];
    &&& r.program@ == plan_program(found, script)
    &&& strings_view(r.args@) == plan_args(found, args.drop_first())
    &&& r.make_executable == (found matches Some(p) && !has_py_extension(p))
    &&& r.log_file@ == log_path(log_dir, script, now_secs)
    &&& r.cmd_str@ == command_text(r.program@, strings_view(r.args@))
    &&& r.script_name@ == script
    &&& r.display_name@ == match display_name {
        Some(d) => d,
        None => script,
    }
    &&& r.working_dir@ == working_dir
    &&& r.timeout_ms == timeout_ms
}

fn push_clones(out: &mut Vec<String>, v: &Vec<String>, from: usize)
    requires
        from <= v@.len(),
    ensures
        strings_view(final(out)@) == strings_view(old(out)@) + strings_view(v@).subrange(from as int, v@.len() as int),
{
    let mut i: usize = from;
    while i < v.len()
        invariant
            from <= i <= v@.len(),
            strings_view(out@) == strings_view(old(out)@) + strings_view(v@).subrange(from as int, i as int),
        decreases v@.len() - i,
    {
        let ghost pre = out@;
        let a = v[i].clone();
        out.push(a);
        assert(strings_view(out@) =~= strings_view(pre).push(a@));
        assert(strings_view(v@).subrange(from as int, i + 1) =~= strings_view(v@).subrange(from as int, i as int).push(a@));
        i = i + 1;
    }
}

/// The plan for launching `script_args` once the script lookup has found
/// `found`.
pub fn plan_launch_from(
    found: Option<String>,
    log_dir: &str,
    script_args: &Vec<String>,
    timeout_ms: Option<u64>,
    display_name: Option<String>,
    working_dir: String,
    now_secs: u64,
) -> (r: LaunchPlan)
    requires
        script_args@.len() > 0,
    ensures
        plan_is(r, opt_view(found), log_dir@, strings_view(script_args@), timeout_ms, opt_view(display_name), working_dir@, now_secs),
{
    let ghost sv = strings_view(script_args@);
    let script = script_args[0].clone();
    let mut args: Vec<String> = Vec::new();
    let mut make_executable = false;
    let program = match found {
        Some(p) => {
            if is_python_script(p.as_str()) {
                let py = String::from_str("python3");
                args.push(p);
                py
            } else {
                make_executable = true;
                p
            }
        },
        None => script.clone(),
    };
    let ghost before = strings_view(args@);
    push_clones(&mut args, script_args, 1);
    assert(sv.subrange(1, sv.len() as int) =~= sv.drop_first());
    assert(strings_view(args@) =~= before + sv.drop_first());
    let log_file = log_file_path(log_dir, script.as_str(), now_secs);
    let cmd_str = command_line(program.as_str(), &args);
    let display_name = match display_name {
        Some(d) => d,
        None => script.clone(),
    };
    assert(script@ == sv[0]);
    assert(program@ == plan_program(opt_view(found), sv[0]));
    assert(strings_view(args@) == plan_args(opt_view(found), sv.drop_first()));
    assert(make_executable == (opt_view(found) matches Some(p) && !has_py_extension(p)));
    LaunchPlan {
        program,
        args,
        make_executable,
        log_file,
        cmd_str,
        script_name: script,
        display_name,
        working_dir,
        timeout_ms,
    }
}

/// Plans a launch of `script_args` (a script token, then its arguments):
/// looks the token up among the scripts of `script_dir`, then decides as
/// `plan_launch_from` does on what was found.
pub fn plan_launch(
    script_dir: &str,
    log_dir: &str,
    script_args: &Vec<String>,
    timeout_ms: Option<u64>,
    display_name: Option<String>,
    working_dir: String,
    now_secs: u64,
) -> (r: LaunchPlan)
    requires
        script_args@.len() > 0,
    ensures
        exists|found: Option<Seq<char>>|
            (found matches Some(p) ==> script_candidates(script_dir@, script_args@[0]@).contains(p) && directly_in(
                p,
                path_join(script_dir@, "scripts"@),
            )) && (!plain_name(script_args@[0]@) ==> found is None) && plan_is(
                r,
                found,
                log_dir@,
                strings_view(script_args@),
                timeout_ms,
                opt_view(display_name),
                working_dir@,
                now_secs,
            ),
{
    let found = find_script(script_dir, script_args[0].as_str());
    let ghost f = opt_view(found);
    let r = plan_launch_from(found, log_dir, script_args, timeout_ms, display_name, working_dir, now_secs);
    assert(f matches Some(p) ==> script_candidates(script_dir@, script_args@[0]@).contains(p) && directly_in(
        p,
        path_join(script_dir@, "scripts"@),
    ));
    r
}

/// The value of the `i`-th fractional digit, 0 past the end.
pub open spec fn frac_digit(f: Seq<char>, i: int) -> nat {
    if i < f.len() {
        digit_value(f[i])
    } else {
        0
    }
}

/// Milliseconds that an unsigned decimal number of seconds spells: digits,
/// and an optional `.` with more digits, at least one digit in all. Digits
/// past the thousandths are dropped.
pub open spec fn unsigned_millis(v: Seq<char>) -> Option<u64> {
    let k = last_index_of(v, '.');
    let whole = if k < 0 { v } else { v.subrange(0, k) };
    let frac = if k < 0 { Seq::<char>::empty() } else { v.subrange(k + 1, v.len() as int) };
    let ms = digits_value(whole) * 1000 + frac_digit(frac, 0) * 100 + frac_digit(frac, 1) * 10 + frac_digit(frac, 2);
    if whole.len() + frac.len() > 0 && all_digits(whole) && all_digits(frac) && ms <= u64::MAX {
        Some(ms as u64)
    } else {
        None
    }
}

/// The same, after an optional `+`.
pub open spec fn millis_value(u: Seq<char>) -> Option<u64> {
    unsigned_millis(if u.len() > 0 && u[0] == '+' { u.drop_first() } else { u })
}

/// A timeout such as `"30"`, `"30s"` or `"1.5s"`, in milliseconds: the
/// trimmed text, less one trailing `s`, read as seconds.
pub open spec fn timeout_value(s: Seq<char>) -> Option<u64> {
    let t = trimmed(s);
    let u = if t.len() > 0 && t.last() == 's' { t.drop_last() } else { t };
    millis_value(u)
}

fn all_digit_chars(cs: &Vec<char>) -> (r: bool)
    ensures
        r == all_digits(cs@),
{
    let mut i: usize = 0;
    while i < cs.len()
        invariant
            i <= cs@.len(),
            forall|k: int| 0 <= k < i ==> crate::text::is_digit(#[trigger] cs@[k]),
        decreases cs@.len() - i,
    {
        if !('0' <= cs[i] && cs[i] <= '9') {
            return false;
        }
        i = i + 1;
    }
    true
}

fn frac_digit_at(f: &Vec<char>, i: usize) -> (r: u64)
    requires
        all_digits(f@),
    ensures
        r == frac_digit(f@, i as int),
        r < 10,
{
    if i < f.len() {
        assert(crate::text::is_digit(f@[i as int]));
        (f[i] as u32 - '0' as u32) as u64
    } else {
        0
    }
}

fn millis_of(whole: &Vec<char>, frac: &Vec<char>) -> (r: Option<u64>)
    requires
        whole@.len() + frac@.len() > 0,
        all_digits(frac@),
    ensures
        r == (if all_digits(whole@) && digits_value(whole@) * 1000 + frac_digit(frac@, 0) * 100
            + frac_digit(frac@, 1) * 10 + frac_digit(frac@, 2) <= u64::MAX {
            Some((digits_value(whole@) * 1000 + frac_digit(frac@, 0) * 100 + frac_digit(frac@, 1) * 10
                + frac_digit(frac@, 2)) as u64)
        } else {
            None
        }),
{
    assert(whole@.subrange(0, whole@.len() as int) =~= whole@);
    let w: u64 = if whole.len() == 0 {
        0
    } else {
        match digits_to_u64(whole, 0) {
            Some(w) => w,
            None => {
                proof {
                    if all_digits(whole@) {
                        assert(digits_value(whole@) > u64::MAX);
                        assert(digits_value(whole@) * 1000 > u64::MAX) by (nonlinear_arith)
                            requires digits_value(whole@) > u64::MAX;
                    }
                }
                return None;
            },
        }
    };
    assert(all_digits(whole@));
    assert(w as nat == digits_value(whole@));
    let f0 = frac_digit_at(frac, 0);
    let f1 = frac_digit_at(frac, 1);
    let f2 = frac_digit_at(frac, 2);
    let tail = f0 * 100 + f1 * 10 + f2;
    match w.checked_mul(1000) {
        Some(m) => m.checked_add(tail),
        None => None,
    }
}

fn unsigned_millis_of(v: &Vec<char>) -> (r: Option<u64>)
    ensures
        r == unsigned_millis(v@),
{
    proof {
        lemma_last_index_of(v@, '.');
    }
    let len = v.len();
    let (whole, frac) = match last_index(v, '.') {
        Some(k) => (sub_chars(v, 0, k), sub_chars(v, k + 1, len)),
        None => (sub_chars(v, 0, len), Vec::new()),
    };
    assert(whole@ =~= if last_index_of(v@, '.') < 0 { v@ } else { v@.subrange(0, last_index_of(v@, '.')) });
    assert(frac@ =~= if last_index_of(v@, '.') < 0 { Seq::<char>::empty() } else { v@.subrange(last_index_of(v@, '.') + 1, v@.len() as int) });
    if whole.len() + frac.len() == 0 || !all_digit_chars(&frac) {
        return None;
    }
    millis_of(&whole, &frac)
}

/// Reads a timeout given in seconds into milliseconds.
pub fn parse_timeout(s: &str) -> (r: Option<u64>)
    ensures
        r == timeout_value(s@),
{
    let t = trim_chars(s);
    let mut end = t.len();
    if end > 0 && t[end - 1] == 's' {
        end = end - 1;
    }
    let start: usize = if end > 0 && t[0] == '+' { 1 } else { 0 };
    let ghost u = t@.subrange(0, end as int);
    assert(u =~= if t@.len() > 0 && t@.last() == 's' { t@.drop_last() } else { t@ });
    let v = sub_chars(&t, start, end);
    assert(v@ =~= if u.len() > 0 && u[0] == '+' { u.drop_first() } else { u });
    unsigned_millis_of(&v)
}

} // verus!
