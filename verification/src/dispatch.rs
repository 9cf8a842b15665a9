//! The command dispatcher: session state, the full functional specification
//! of one command step, and the interpreter proved equal to it.
use crate::fs::FileSystem;
use crate::model::{
    empty_dir, tree_is_dir, tree_list, tree_mkdir, tree_read, tree_touch, tree_write, FsError,
    FsTree,
};
use crate::paths::{clone_segs, resolve_path, resolve_spec};
use crate::text::str_eq;
use crate::tokenizer::{tokenize, tokenize_spec};
use vstd::prelude::*;

verus! {

/// The session: the filesystem tree and the current working directory.
pub struct TerminalState {
    pub fs: FileSystem,
    pub cwd: Vec<String>,
}

/// What one command returns to the caller.
pub struct CommandResponse {
    pub output: String,
    pub cwd: String,
    pub status: String,
    pub clear: bool,
}

/// Ghost record of everything one command step determines.
pub struct StepOut {
    pub root: FsTree,
    pub cwd: Seq<Seq<char>>,
    pub output: Seq<char>,
    pub ok: bool,
    pub clear: bool,
}

/// A successful step.
pub open spec fn out_ok(root: FsTree, cwd: Seq<Seq<char>>, output: Seq<char>) -> StepOut {
    StepOut { root, cwd, output, ok: true, clear: false }
}

/// A failed step.
pub open spec fn out_err(root: FsTree, cwd: Seq<Seq<char>>, output: Seq<char>) -> StepOut {
    StepOut { root, cwd, output, ok: false, clear: false }
}

/// The usage text `help` prints.
pub open spec fn help_text() -> Seq<char> {
    "Available commands:\n  pwd\n  ls [path]\n  cd [path]\n  mkdir <name>...\n  touch <name>...\n  cat <file>...\n  echo <text> [> file | >> file]\n  clear\n  help"@
}

/// How the working directory is displayed: `/` when empty, else `/` followed
/// by the segments joined by `/`.
pub open spec fn joined_cwd(cwd: Seq<Seq<char>>) -> Seq<char>
    decreases cwd.len(),
{
    if cwd.len() == 0 {
        Seq::empty()
    } else {
        joined_cwd(cwd.drop_last()) + seq!['/'] + cwd.last()
    }
}

/// The display string of a working directory.
pub open spec fn cwd_string_spec(cwd: Seq<Seq<char>>) -> Seq<char> {
    if cwd.len() == 0 {
        seq!['/']
    } else {
        joined_cwd(cwd)
    }
}

/// Tokens joined by single spaces.
pub open spec fn join_spaces(args: Seq<Seq<char>>) -> Seq<char>
    decreases args.len(),
{
    if args.len() == 0 {
        Seq::empty()
    } else if args.len() == 1 {
        args[0]
    } else {
        join_spaces(args.drop_last()) + seq![' '] + args.last()
    }
}

/// File contents joined by newlines.
pub open spec fn join_newline(parts: Seq<Seq<char>>) -> Seq<char>
    decreases parts.len(),
{
    if parts.len() == 0 {
        Seq::empty()
    } else if parts.len() == 1 {
        parts[0]
    } else {
        join_newline(parts.drop_last()) + seq!['\n'] + parts.last()
    }
}

/// The index of the first redirect marker token (`>` or `>>`) at or after
/// `j`, if any.
pub open spec fn first_marker(args: Seq<Seq<char>>, j: int) -> Option<int>
    decreases args.len() - j,
{
    if j < 0 || j >= args.len() {
        None
    } else if args[j] == ">"@ || args[j] == ">>"@ {
        Some(j)
    } else {
        first_marker(args, j + 1)
    }
}

/// The error message `mkdir` reports.
pub open spec fn mkdir_msg(e: FsError) -> Seq<char> {
    match e {
        FsError::InvalidPath => "mkdir: invalid path"@,
        FsError::ParentNotFound => "mkdir: parent not found"@,
        FsError::NotADirectory => "mkdir: parent is not a directory"@,
        FsError::AlreadyExists => "mkdir: already exists"@,
        _ => Seq::empty(),
    }
}

/// The error message `touch` reports.
pub open spec fn touch_msg(e: FsError) -> Seq<char> {
    match e {
        FsError::InvalidPath => "touch: invalid path"@,
        FsError::ParentNotFound => "touch: parent not found"@,
        FsError::NotADirectory => "touch: parent is not a directory"@,
        FsError::IsADirectory => "touch: is a directory"@,
        _ => Seq::empty(),
    }
}

/// The error message an `echo` redirect reports.
pub open spec fn write_msg(e: FsError) -> Seq<char> {
    match e {
        FsError::InvalidPath => "echo: invalid path"@,
        FsError::ParentNotFound => "echo: parent not found"@,
        FsError::NotADirectory => "echo: parent is not a directory"@,
        FsError::IsADirectory => "echo: target is a directory"@,
        _ => Seq::empty(),
    }
}

/// The error message `cat` reports.
pub open spec fn read_msg(e: FsError) -> Seq<char> {
    match e {
        FsError::NotFound => "cat: file not found"@,
        FsError::IsADirectory => "cat: is a directory"@,
        _ => Seq::empty(),
    }
}

/// Apply `mkdir` to each argument left to right; the first failure stops the
/// run, keeping what was already created.
pub open spec fn mkdir_many(root: FsTree, cwd: Seq<Seq<char>>, args: Seq<Seq<char>>) -> (
    FsTree,
    Option<FsError>,
)
    decreases args.len(),
{
    if args.len() == 0 {
        (root, None)
    } else {
        let m = tree_mkdir(root, resolve_spec(cwd, args[0]));
        match m.1 {
            Ok(_) => mkdir_many(m.0, cwd, args.drop_first()),
            Err(e) => (m.0, Some(e)),
        }
    }
}

/// Apply `touch` to each argument left to right; the first failure stops the
/// run, keeping what was already created.
pub open spec fn touch_many(root: FsTree, cwd: Seq<Seq<char>>, args: Seq<Seq<char>>) -> (
    FsTree,
    Option<FsError>,
)
    decreases args.len(),
{
    if args.len() == 0 {
        (root, None)
    } else {
        let m = tree_touch(root, resolve_spec(cwd, args[0]));
        match m.1 {
            Ok(_) => touch_many(m.0, cwd, args.drop_first()),
            Err(e) => (m.0, Some(e)),
        }
    }
}

/// Read each argument's file left to right; the first failure discards every
/// content already read and is the sole result.
pub open spec fn cat_many(root: FsTree, cwd: Seq<Seq<char>>, args: Seq<Seq<char>>) -> Result<
    Seq<Seq<char>>,
    FsError,
>
    decreases args.len(),
{
    if args.len() == 0 {
        Ok(Seq::empty())
    } else {
        match tree_read(root, resolve_spec(cwd, args[0])) {
            Err(e) => Err(e),
            Ok(c) => match cat_many(root, cwd, args.drop_first()) {
                Err(e) => Err(e),
                Ok(rest) => Ok(seq![c] + rest),
            },
        }
    }
}

/// What `ls` does: list the argument's path, or the working directory when
/// the argument is absent or empty.
pub open spec fn ls_out(root: FsTree, cwd: Seq<Seq<char>>, toks: Seq<Seq<char>>) -> StepOut {
    let p = if toks.len() < 2 || toks[1].len() == 0 {
        cwd
    } else {
        resolve_spec(cwd, toks[1])
    };
    match tree_list(root, p) {
        Ok(s) => out_ok(root, cwd, s),
        Err(_) => out_err(root, cwd, "Path not found"@),
    }
}

/// What `cd` does: require the resolved target (default `/`) to be a
/// directory, and make it the working directory.
pub open spec fn cd_out(root: FsTree, cwd: Seq<Seq<char>>, toks: Seq<Seq<char>>) -> StepOut {
    let p = resolve_spec(
        cwd,
        if toks.len() < 2 {
            "/"@
        } else {
            toks[1]
        },
    );
    match tree_is_dir(root, p) {
        Ok(true) => out_ok(root, p, Seq::empty()),
        Ok(false) => out_err(root, cwd, "Not a directory"@),
        Err(_) => out_err(root, cwd, "Path not found"@),
    }
}

/// What `mkdir` does with its argument list.
pub open spec fn mkdir_out(root: FsTree, cwd: Seq<Seq<char>>, toks: Seq<Seq<char>>) -> StepOut {
    if toks.len() < 2 {
        out_err(root, cwd, "mkdir: missing operand"@)
    } else {
        let m = mkdir_many(root, cwd, toks.drop_first());
        match m.1 {
            None => out_ok(m.0, cwd, Seq::empty()),
            Some(e) => out_err(m.0, cwd, mkdir_msg(e)),
        }
    }
}

/// What `touch` does with its argument list.
pub open spec fn touch_out(root: FsTree, cwd: Seq<Seq<char>>, toks: Seq<Seq<char>>) -> StepOut {
    if toks.len() < 2 {
        out_err(root, cwd, "touch: missing operand"@)
    } else {
        let m = touch_many(root, cwd, toks.drop_first());
        match m.1 {
            None => out_ok(m.0, cwd, Seq::empty()),
            Some(e) => out_err(m.0, cwd, touch_msg(e)),
        }
    }
}

/// What `cat` does with its argument list.
pub open spec fn cat_out(root: FsTree, cwd: Seq<Seq<char>>, toks: Seq<Seq<char>>) -> StepOut {
    if toks.len() < 2 {
        out_err(root, cwd, "cat: missing operand"@)
    } else {
        match cat_many(root, cwd, toks.drop_first()) {
            Err(e) => out_err(root, cwd, read_msg(e)),
            Ok(parts) => out_ok(root, cwd, join_newline(parts)),
        }
    }
}

/// What `echo` does: print its arguments, or redirect them into a file when
/// a `>` or `>>` marker is present.
pub open spec fn echo_out(root: FsTree, cwd: Seq<Seq<char>>, toks: Seq<Seq<char>>) -> StepOut {
    let args = toks.drop_first();
    match first_marker(args, 0) {
        None => out_ok(root, cwd, join_spaces(args)),
        Some(i) => {
            if i + 1 >= args.len() {
                out_err(root, cwd, "echo: missing file operand"@)
            } else {
                let w = tree_write(
                    root,
                    resolve_spec(cwd, args[i + 1]),
                    join_spaces(args.subrange(0, i)),
                    args[i] == ">>"@,
                );
                match w.1 {
                    Ok(_) => out_ok(w.0, cwd, Seq::empty()),
                    Err(e) => out_err(w.0, cwd, write_msg(e)),
                }
            }
        },
    }
}

/// Dispatch on the first token.
pub open spec fn dispatch_spec(root: FsTree, cwd: Seq<Seq<char>>, toks: Seq<Seq<char>>) -> StepOut {
    let cmd = toks[0];
    if cmd == "help"@ {
        out_ok(root, cwd, help_text())
    } else if cmd == "pwd"@ {
        out_ok(root, cwd, cwd_string_spec(cwd))
    } else if cmd == "ls"@ {
        ls_out(root, cwd, toks)
    } else if cmd == "cd"@ {
        cd_out(root, cwd, toks)
    } else if cmd == "mkdir"@ {
        mkdir_out(root, cwd, toks)
    } else if cmd == "touch"@ {
        touch_out(root, cwd, toks)
    } else if cmd == "cat"@ {
        cat_out(root, cwd, toks)
    } else if cmd == "echo"@ {
        echo_out(root, cwd, toks)
    } else if cmd == "clear"@ {
        StepOut { root, cwd, output: Seq::empty(), ok: true, clear: true }
    } else {
        out_err(root, cwd, "Unknown command: "@ + cmd)
    }
}

/// Everything one command determines: empty or all-whitespace input succeeds
/// with no output and no change, an unclosed quote is an error, anything else
/// is dispatched on its first token.
pub open spec fn step(root: FsTree, cwd: Seq<Seq<char>>, input: Seq<char>) -> StepOut {
    if input.len() == 0 {
        out_ok(root, cwd, Seq::empty())
    } else {
        match tokenize_spec(input) {
            None => out_err(root, cwd, "Unclosed quote"@),
            Some(toks) => if toks.len() == 0 {
                out_ok(root, cwd, Seq::empty())
            } else {
                dispatch_spec(root, cwd, toks)
            },
        }
    }
}

/// The message text of a `mkdir` failure.
fn mkdir_msg_exec(e: FsError) -> (r: String)
    ensures
        r@ == mkdir_msg(e),
{
    match e {
        FsError::InvalidPath => "mkdir: invalid path".to_owned(),
        FsError::ParentNotFound => "mkdir: parent not found".to_owned(),
        FsError::NotADirectory => "mkdir: parent is not a directory".to_owned(),
        FsError::AlreadyExists => "mkdir: already exists".to_owned(),
        _ => String::new(),
    }
}

/// The message text of a `touch` failure.
fn touch_msg_exec(e: FsError) -> (r: String)
    ensures
        r@ == touch_msg(e),
{
    match e {
        FsError::InvalidPath => "touch: invalid path".to_owned(),
        FsError::ParentNotFound => "touch: parent not found".to_owned(),
        FsError::NotADirectory => "touch: parent is not a directory".to_owned(),
        FsError::IsADirectory => "touch: is a directory".to_owned(),
        _ => String::new(),
    }
}

/// The message text of an `echo` redirect failure.
fn write_msg_exec(e: FsError) -> (r: String)
    ensures
        r@ == write_msg(e),
{
    match e {
        FsError::InvalidPath => "echo: invalid path".to_owned(),
        FsError::ParentNotFound => "echo: parent not found".to_owned(),
        FsError::NotADirectory => "echo: parent is not a directory".to_owned(),
        FsError::IsADirectory => "echo: target is a directory".to_owned(),
        _ => String::new(),
    }
}

/// The message text of a `cat` failure.
fn read_msg_exec(e: FsError) -> (r: String)
    ensures
        r@ == read_msg(e),
{
    match e {
        FsError::NotFound => "cat: file not found".to_owned(),
        FsError::IsADirectory => "cat: is a directory".to_owned(),
        _ => String::new(),
    }
}

/// The tokens in `[from, to)` joined by single spaces.
fn join_tokens_spaces(tokens: &Vec<String>, from: usize, to: usize) -> (r: String)
    requires
        from <= to <= tokens@.len(),
    ensures
        r@ == join_spaces(tokens.deep_view().subrange(from as int, to as int)),
{
    let ghost dv = tokens.deep_view();
    let mut out = String::new();
    let mut m = from;
    proof {
        reveal_strlit(" ");
        assert(" "@ =~= seq![' ']);
        assert(dv.subrange(from as int, from as int) =~= Seq::<Seq<char>>::empty());
    }
    while m < to
        invariant
            from <= m <= to <= tokens@.len(),
            dv == tokens.deep_view(),
            out@ == join_spaces(dv.subrange(from as int, m as int)),
            " "@ == seq![' '],
        decreases to - m,
    {
        if m > from {
            out.append(" ");
        }
        out.append(tokens[m].as_str());
        proof {
            let pre = dv.subrange(from as int, m as int);
            let now = dv.subrange(from as int, m + 1);
            assert(now.drop_last() =~= pre);
            assert(now.last() == dv[m as int]);
            assert(dv[m as int] == tokens@[m as int]@);
            if m == from {
                assert(out@ =~= join_spaces(now));
            } else {
                assert(out@ =~= join_spaces(pre) + seq![' '] + dv[m as int]);
            }
        }
        m = m + 1;
    }
    out
}

impl TerminalState {
    /// The session's filesystem is well-formed.
    pub open spec fn wf(&self) -> bool {
        self.fs.wf()
    }

    /// A fresh session: an empty root directory, working directory at root.
    pub fn new() -> (r: TerminalState)
        ensures
            r.wf(),
            r.fs@ == empty_dir(),
            r.cwd.deep_view() == Seq::<Seq<char>>::empty(),
    {
        let r = TerminalState { fs: FileSystem::new(), cwd: Vec::new() };
        proof {
            assert(r.cwd.deep_view() =~= Seq::<Seq<char>>::empty());
        }
        r
    }

    /// Render the working directory for display.
    pub fn cwd_string(&self) -> (r: String)
        ensures
            r@ == cwd_string_spec(self.cwd.deep_view()),
    {
        let ghost dv = self.cwd.deep_view();
        proof {
            reveal_strlit("/");
            assert("/"@ =~= seq!['/']);
        }
        if self.cwd.len() == 0 {
            return "/".to_owned();
        }
        let mut out = String::new();
        let mut i: usize = 0;
        proof {
            assert(dv.subrange(0, 0) =~= Seq::<Seq<char>>::empty());
        }
        while i < self.cwd.len()
            invariant
                i <= self.cwd@.len(),
                dv == self.cwd.deep_view(),
                out@ == joined_cwd(dv.subrange(0, i as int)),
                "/"@ == seq!['/'],
            decreases self.cwd@.len() - i,
        {
            out.append("/");
            out.append(self.cwd[i].as_str());
            proof {
                let pre = dv.subrange(0, i as int);
                let now = dv.subrange(0, i + 1);
                assert(now.drop_last() =~= pre);
                assert(now.last() == dv[i as int]);
                assert(dv[i as int] == self.cwd@[i as int]@);
                assert(out@ =~= joined_cwd(pre) + seq!['/'] + dv[i as int]);
            }
            i = i + 1;
        }
        proof {
            assert(dv.subrange(0, dv.len() as int) =~= dv);
        }
        out
    }
}

/// Run `ls`: resolve the target (default: the working directory) and list it.
fn run_ls(state: &TerminalState, tokens: &Vec<String>) -> (r: (String, bool))
    requires
        tokens@.len() >= 1,
    ensures
        ({
            let so = ls_out(state.fs@, state.cwd.deep_view(), tokens.deep_view());
            &&& r.0@ == so.output
            &&& r.1 == so.ok
            &&& so.root == state.fs@
            &&& so.cwd == state.cwd.deep_view()
        }),
{
    let path: Vec<String> = if tokens.len() < 2 || tokens[1].as_str().is_empty() {
        clone_segs(&state.cwd)
    } else {
        resolve_path(&state.cwd, tokens[1].as_str())
    };
    proof {
        if tokens@.len() >= 2 {
            assert(tokens.deep_view()[1] == tokens@[1]@);
        }
    }
    match state.fs.list(&path) {
        Ok(s) => (s, true),
        Err(_) => ("Path not found".to_owned(), false),
    }
}

/// Run `cd`: the resolved target (default `/`) must be a directory; on
/// success it becomes the working directory.
fn run_cd(state: &mut TerminalState, tokens: &Vec<String>) -> (r: (String, bool))
    requires
        old(state).wf(),
        tokens@.len() >= 1,
    ensures
        final(state).wf(),
        ({
            let so = cd_out(old(state).fs@, old(state).cwd.deep_view(), tokens.deep_view());
            &&& final(state).fs@ == so.root
            &&& final(state).cwd.deep_view() == so.cwd
            &&& r.0@ == so.output
            &&& r.1 == so.ok
        }),
{
    let path: Vec<String> = if tokens.len() < 2 {
        resolve_path(&state.cwd, "/")
    } else {
        resolve_path(&state.cwd, tokens[1].as_str())
    };
    proof {
        if tokens@.len() >= 2 {
            assert(tokens.deep_view()[1] == tokens@[1]@);
        }
    }
    match state.fs.is_dir(&path) {
        Ok(true) => {
            state.cwd = path;
            (String::new(), true)
        },
        Ok(false) => ("Not a directory".to_owned(), false),
        Err(_) => ("Path not found".to_owned(), false),
    }
}

/// Run `mkdir` over the argument tokens, left to right, stopping at the
/// first failure and keeping what was already created.
fn run_mkdir(state: &mut TerminalState, tokens: &Vec<String>) -> (r: (String, bool))
    requires
        old(state).wf(),
        tokens@.len() >= 2,
    ensures
        final(state).wf(),
        ({
            let so = mkdir_out(old(state).fs@, old(state).cwd.deep_view(), tokens.deep_view());
            &&& final(state).fs@ == so.root
            &&& final(state).cwd.deep_view() == so.cwd
            &&& r.0@ == so.output
            &&& r.1 == so.ok
        }),
{
    let ghost root0 = state.fs@;
    let ghost cwddv = state.cwd.deep_view();
    let ghost args = tokens.deep_view().drop_first();
    let mut out = String::new();
    let mut failed = false;
    let mut k: usize = 1;
    proof {
        assert(tokens.deep_view().skip(1) =~= args);
    }
    while k < tokens.len() && !failed
        invariant
            1 <= k <= tokens@.len(),
            state.wf(),
            state.cwd == old(state).cwd,
            cwddv == state.cwd.deep_view(),
            args == tokens.deep_view().drop_first(),
            !failed ==> mkdir_many(root0, cwddv, args) == mkdir_many(
                state.fs@,
                cwddv,
                tokens.deep_view().skip(k as int),
            ) && out@ == Seq::<char>::empty(),
            failed ==> mkdir_many(root0, cwddv, args).0 == state.fs@ && (mkdir_many(
                root0,
                cwddv,
                args,
            ).1 matches Some(e) && out@ == mkdir_msg(e)),
        decreases tokens@.len() - k,
    {
        let ghost rem = tokens.deep_view().skip(k as int);
        proof {
            assert(rem[0] == tokens.deep_view()[k as int]);
            assert(tokens.deep_view()[k as int] == tokens@[k as int]@);
            assert(rem.drop_first() =~= tokens.deep_view().skip(k + 1));
        }
        let path = resolve_path(&state.cwd, tokens[k].as_str());
        match state.fs.mkdir(&path) {
            Ok(_) => {},
            Err(e) => {
                out = mkdir_msg_exec(e);
                failed = true;
            },
        }
        k = k + 1;
    }
    proof {
        if !failed {
            assert(tokens.deep_view().skip(tokens@.len() as int) =~= Seq::<Seq<char>>::empty());
        }
    }
    (out, !failed)
}

/// Run `touch` over the argument tokens, left to right, stopping at the
/// first failure and keeping what was already created.
fn run_touch(state: &mut TerminalState, tokens: &Vec<String>) -> (r: (String, bool))
    requires
        old(state).wf(),
        tokens@.len() >= 2,
    ensures
        final(state).wf(),
        ({
            let so = touch_out(old(state).fs@, old(state).cwd.deep_view(), tokens.deep_view());
            &&& final(state).fs@ == so.root
            &&& final(state).cwd.deep_view() == so.cwd
            &&& r.0@ == so.output
            &&& r.1 == so.ok
        }),
{
    let ghost root0 = state.fs@;
    let ghost cwddv = state.cwd.deep_view();
    let ghost args = tokens.deep_view().drop_first();
    let mut out = String::new();
    let mut failed = false;
    let mut k: usize = 1;
    proof {
        assert(tokens.deep_view().skip(1) =~= args);
    }
    while k < tokens.len() && !failed
        invariant
            1 <= k <= tokens@.len(),
            state.wf(),
            state.cwd == old(state).cwd,
            cwddv == state.cwd.deep_view(),
            args == tokens.deep_view().drop_first(),
            !failed ==> touch_many(root0, cwddv, args) == touch_many(
                state.fs@,
                cwddv,
                tokens.deep_view().skip(k as int),
            ) && out@ == Seq::<char>::empty(),
            failed ==> touch_many(root0, cwddv, args).0 == state.fs@ && (touch_many(
                root0,
                cwddv,
                args,
            ).1 matches Some(e) && out@ == touch_msg(e)),
        decreases tokens@.len() - k,
    {
        let ghost rem = tokens.deep_view().skip(k as int);
        proof {
            assert(rem[0] == tokens.deep_view()[k as int]);
            assert(tokens.deep_view()[k as int] == tokens@[k as int]@);
            assert(rem.drop_first() =~= tokens.deep_view().skip(k + 1));
        }
        let path = resolve_path(&state.cwd, tokens[k].as_str());
        match state.fs.touch(&path) {
            Ok(_) => {},
            Err(e) => {
                out = touch_msg_exec(e);
                failed = true;
            },
        }
        k = k + 1;
    }
    proof {
        if !failed {
            assert(tokens.deep_view().skip(tokens@.len() as int) =~= Seq::<Seq<char>>::empty());
        }
    }
    (out, !failed)
}

/// Run `cat`: read every argument's file; on the first failure only that
/// failure is reported, else the contents joined by newlines.
fn run_cat(state: &TerminalState, tokens: &Vec<String>) -> (r: (String, bool))
    requires
        tokens@.len() >= 2,
    ensures
        ({
            let so = cat_out(state.fs@, state.cwd.deep_view(), tokens.deep_view());
            &&& r.0@ == so.output
            &&& r.1 == so.ok
            &&& so.root == state.fs@
            &&& so.cwd == state.cwd.deep_view()
        }),
{
    let ghost root = state.fs@;
    let ghost cwddv = state.cwd.deep_view();
    let ghost args = tokens.deep_view().drop_first();
    let mut parts: Vec<String> = Vec::new();
    let mut errout = String::new();
    let mut failed = false;
    let mut k: usize = 1;
    proof {
        assert(tokens.deep_view().skip(1) =~= args);
        assert(parts.deep_view() =~= Seq::<Seq<char>>::empty());
    }
    while k < tokens.len() && !failed
        invariant
            1 <= k <= tokens@.len(),
            args == tokens.deep_view().drop_first(),
            !failed ==> cat_many(root, cwddv, args) == (match cat_many(
                root,
                cwddv,
                tokens.deep_view().skip(k as int),
            ) {
                Ok(rest) => Ok::<Seq<Seq<char>>, FsError>(parts.deep_view() + rest),
                Err(e) => Err(e),
            }),
            failed ==> (cat_many(root, cwddv, args) matches Err(e) && errout@ == read_msg(e)),
            root == state.fs@,
            cwddv == state.cwd.deep_view(),
        decreases tokens@.len() - k,
    {
        let ghost rem = tokens.deep_view().skip(k as int);
        proof {
            assert(rem[0] == tokens.deep_view()[k as int]);
            assert(tokens.deep_view()[k as int] == tokens@[k as int]@);
            assert(rem.drop_first() =~= tokens.deep_view().skip(k + 1));
        }
        let path = resolve_path(&state.cwd, tokens[k].as_str());
        match state.fs.read_file(&path) {
            Ok(c) => {
                let ghost pre = parts.deep_view();
                parts.push(c);
                proof {
                    assert(parts.deep_view() =~= pre.push(c@));
                    assert forall|rest: Seq<Seq<char>>| true implies pre + (seq![c@] + rest)
                        =~= parts.deep_view() + rest by {}
                }
            },
            Err(e) => {
                errout = read_msg_exec(e);
                failed = true;
            },
        }
        k = k + 1;
    }
    if failed {
        return (errout, false);
    }
    proof {
        assert(tokens.deep_view().skip(tokens@.len() as int) =~= Seq::<Seq<char>>::empty());
        assert(parts.deep_view() + Seq::<Seq<char>>::empty() =~= parts.deep_view());
    }
    // join the collected contents with newlines
    let ghost pdv = parts.deep_view();
    let mut out = String::new();
    let mut m: usize = 0;
    proof {
        reveal_strlit("\n");
        assert("\n"@ =~= seq!['\n']);
        assert(pdv.subrange(0, 0) =~= Seq::<Seq<char>>::empty());
    }
    while m < parts.len()
        invariant
            m <= parts@.len(),
            pdv == parts.deep_view(),
            out@ == join_newline(pdv.subrange(0, m as int)),
            "\n"@ == seq!['\n'],
        decreases parts@.len() - m,
    {
        if m > 0 {
            out.append("\n");
        }
        out.append(parts[m].as_str());
        proof {
            let pre = pdv.subrange(0, m as int);
            let now = pdv.subrange(0, m + 1);
            assert(now.drop_last() =~= pre);
            assert(now.last() == pdv[m as int]);
            assert(pdv[m as int] == parts@[m as int]@);
            if m == 0 {
                assert(out@ =~= join_newline(now));
            } else {
                assert(out@ =~= join_newline(pre) + seq!['\n'] + pdv[m as int]);
            }
        }
        m = m + 1;
    }
    proof {
        assert(pdv.subrange(0, pdv.len() as int) =~= pdv);
    }
    (out, true)
}

/// Run `echo`: print the arguments, or redirect them into a file when a `>`
/// or `>>` marker is present.
fn run_echo(state: &mut TerminalState, tokens: &Vec<String>) -> (r: (String, bool))
    requires
        old(state).wf(),
        tokens@.len() >= 1,
    ensures
        final(state).wf(),
        ({
            let so = echo_out(old(state).fs@, old(state).cwd.deep_view(), tokens.deep_view());
            &&& final(state).fs@ == so.root
            &&& final(state).cwd.deep_view() == so.cwd
            &&& r.0@ == so.output
            &&& r.1 == so.ok
        }),
{
    let ghost args = tokens.deep_view().drop_first();
    proof {
        assert(tokens.deep_view().skip(1) =~= args);
        assert(forall|m: int|
            0 <= m < args.len() ==> args[m] == tokens.deep_view()[m + 1] && tokens.deep_view()[m
                + 1] == tokens@[m + 1]@);
    }
    let mut mk: usize = 0;
    let mut found = false;
    let mut k: usize = 1;
    while k < tokens.len() && !found
        invariant
            1 <= k <= tokens@.len(),
            args == tokens.deep_view().drop_first(),
            !found ==> first_marker(args, 0) == first_marker(args, k - 1),
            found ==> 1 <= mk < tokens@.len() && first_marker(args, 0) == Some(mk - 1) && (
            tokens@[mk as int]@ == ">"@ || tokens@[mk as int]@ == ">>"@),
        decreases tokens@.len() - k,
    {
        if str_eq(tokens[k].as_str(), ">") || str_eq(tokens[k].as_str(), ">>") {
            mk = k;
            found = true;
            proof {
                assert(args[k - 1] == tokens@[k as int]@);
            }
        } else {
            proof {
                assert(args[k - 1] == tokens@[k as int]@);
                assert(first_marker(args, k - 1) == first_marker(args, k as int));
            }
        }
        k = k + 1;
    }
    if !found {
        proof {
            assert(first_marker(args, k - 1) is None);
            assert(args =~= tokens.deep_view().subrange(1, tokens@.len() as int));
        }
        let out = join_tokens_spaces(tokens, 1, tokens.len());
        return (out, true);
    }
    if mk >= tokens.len() - 1 {
        return ("echo: missing file operand".to_owned(), false);
    }
    proof {
        assert(args[mk as int] == tokens@[mk + 1]@);
        assert(args.subrange(0, mk - 1) =~= tokens.deep_view().subrange(1, mk as int));
    }
    let content = join_tokens_spaces(tokens, 1, mk);
    let append = str_eq(tokens[mk].as_str(), ">>");
    let path = resolve_path(&state.cwd, tokens[mk + 1].as_str());
    match state.fs.write_file(&path, content, append) {
        Ok(_) => (String::new(), true),
        Err(e) => (write_msg_exec(e), false),
    }
}

/// Interpret one command line against the session: tokenize, dispatch,
/// execute, and report output, working directory, status and the clear flag.
pub fn execute_command(state: &mut TerminalState, input: &str) -> (r: CommandResponse)
    requires
        old(state).wf(),
    ensures
        final(state).wf(),
        ({
            let so = step(old(state).fs@, old(state).cwd.deep_view(), input@);
            &&& final(state).fs@ == so.root
            &&& final(state).cwd.deep_view() == so.cwd
            &&& r.output@ == so.output
            &&& r.cwd@ == cwd_string_spec(so.cwd)
            &&& r.status@ == (if so.ok {
                "ok"@
            } else {
                "error"@
            })
            &&& r.clear == so.clear
        }),
{
    if input.is_empty() {
        return CommandResponse {
            output: String::new(),
            cwd: state.cwd_string(),
            status: "ok".to_owned(),
            clear: false,
        };
    }
    let tokens = match tokenize(input) {
        Ok(tokens) => tokens,
        Err(_) => {
            return CommandResponse {
                output: "Unclosed quote".to_owned(),
                cwd: state.cwd_string(),
                status: "error".to_owned(),
                clear: false,
            };
        },
    };
    if tokens.len() == 0 {
        return CommandResponse {
            output: String::new(),
            cwd: state.cwd_string(),
            status: "ok".to_owned(),
            clear: false,
        };
    }
    proof {
        assert(tokens.deep_view()[0] == tokens@[0]@);
    }
    let mut out = String::new();
    let mut ok = true;
    let mut clear = false;
    let cmd = tokens[0].as_str();
    if str_eq(cmd, "help") {
        out =
        "Available commands:\n  pwd\n  ls [path]\n  cd [path]\n  mkdir <name>...\n  touch <name>...\n  cat <file>...\n  echo <text> [> file | >> file]\n  clear\n  help".to_owned();
    } else if str_eq(cmd, "pwd") {
        out = state.cwd_string();
    } else if str_eq(cmd, "ls") {
        let (o, k) = run_ls(state, &tokens);
        out = o;
        ok = k;
    } else if str_eq(cmd, "cd") {
        let (o, k) = run_cd(state, &tokens);
        out = o;
        ok = k;
    } else if str_eq(cmd, "mkdir") {
        if tokens.len() == 1 {
            out = "mkdir: missing operand".to_owned();
            ok = false;
        } else {
            let (o, k) = run_mkdir(state, &tokens);
            out = o;
            ok = k;
        }
    } else if str_eq(cmd, "touch") {
        if tokens.len() == 1 {
            out = "touch: missing operand".to_owned();
            ok = false;
        } else {
            let (o, k) = run_touch(state, &tokens);
            out = o;
            ok = k;
        }
    } else if str_eq(cmd, "cat") {
        if tokens.len() == 1 {
            out = "cat: missing operand".to_owned();
            ok = false;
        } else {
            let (o, k) = run_cat(state, &tokens);
            out = o;
            ok = k;
        }
    } else if str_eq(cmd, "echo") {
        let (o, k) = run_echo(state, &tokens);
        out = o;
        ok = k;
    } else if str_eq(cmd, "clear") {
        clear = true;
    } else {
        let mut msg = "Unknown command: ".to_owned();
        msg.append(tokens[0].as_str());
        out = msg;
        ok = false;
    }
    CommandResponse {
        output: out,
        cwd: state.cwd_string(),
        status: if ok {
            "ok".to_owned()
        } else {
            "error".to_owned()
        },
        clear,
    }
}

} // verus!
