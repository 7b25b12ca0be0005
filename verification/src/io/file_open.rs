//! Opening files in the user's editor: which editor `$EDITOR` names, the
//! shell command that opens a file at a position, and what each open mode
//! runs or refuses. Running the commands and looking at the disk is left to
//! the caller.

use vstd::prelude::*;

use crate::text::{dec, push_dec, push_str, str_eq};

verus! {

broadcast use vstd::string::group_string_axioms;

/// A position in a file: a line and optionally a column.
#[derive(Clone, Copy, Debug, Default, PartialEq, Eq, Structural)]
pub struct Position {
    pub line: u32,
    pub col: Option<u32>,
}

impl Position {
    /// The position of `line` and `col`.
    pub fn new(line: u32, col: Option<u32>) -> (r: Position)
        ensures
            r.line == line,
            r.col == col,
    {
        Position { line, col }
    }
}

/// The editors whose command lines can open a file at a position.
#[derive(Clone, Copy, Debug, PartialEq, Eq, Structural)]
pub enum Editor {
    Nvim,
    Helix,
    Vscode,
    Unknown,
}

/// The final component of a path as text, as `Path::file_name` of std gives
/// it (none for a path ending in `..`, or the root).
pub uninterp spec fn path_file_name(p: Seq<char>) -> Option<Seq<char>>;

/// `Path::file_name` of std, taken as UTF-8 text. Which component that is
/// is named, not stated.
#[verifier::external_body]
fn file_name_of(p: &str) -> (r: Option<String>)
    ensures
        match r {
            Some(n) => path_file_name(p@) == Some(n@),
            None => path_file_name(p@) is None,
        },
{
    match std::path::Path::new(p).file_name() {
        Some(n) => n.to_str().map(|t| t.to_owned()),
        None => None,
    }
}

/// The editor a program name is.
pub open spec fn editor_of_name(n: Seq<char>) -> Editor {
    if n == "nvim"@ || n == "vim"@ || n == "vi"@ {
        Editor::Nvim
    } else if n == "hx"@ || n == "helix"@ {
        Editor::Helix
    } else if n == "code"@ || n == "code-insiders"@ {
        Editor::Vscode
    } else {
        Editor::Unknown
    }
}

/// The editor `$EDITOR` names: by its file name, or by the whole value when
/// it has none.
pub open spec fn detect_spec(editor: Seq<char>) -> Editor {
    match path_file_name(editor) {
        Some(n) => editor_of_name(n),
        None => editor_of_name(editor),
    }
}

/// `"` + text + `"`.
pub open spec fn quoted(p: Seq<char>) -> Seq<char> {
    seq!['"'] + p + seq!['"']
}

/// The shell command opening `path` in `$EDITOR`, at the position when the
/// editor can take one.
pub open spec fn open_cmd_spec(e: Editor, p: Seq<char>, pos: Option<Position>) -> Seq<char> {
    match pos {
        Some(pos) => match e {
            Editor::Nvim => match pos.col {
                Some(c) => "$EDITOR \"+call cursor("@ + dec(pos.line as nat) + ", "@ + dec(c as nat) + ")\" "@ + quoted(p),
                None => "$EDITOR +"@ + dec(pos.line as nat) + " "@ + quoted(p),
            },
            Editor::Helix => match pos.col {
                Some(c) => "$EDITOR "@ + quoted(p + ":"@ + dec(pos.line as nat) + ":"@ + dec(c as nat)),
                None => "$EDITOR "@ + quoted(p + ":"@ + dec(pos.line as nat)),
            },
            Editor::Vscode => match pos.col {
                Some(c) => "$EDITOR --goto "@ + quoted(p + ":"@ + dec(pos.line as nat) + ":"@ + dec(c as nat)),
                None => "$EDITOR --goto "@ + quoted(p + ":"@ + dec(pos.line as nat)),
            },
            Editor::Unknown => "$EDITOR "@ + quoted(p),
        },
        None => "$EDITOR "@ + quoted(p),
    }
}

impl Editor {
    /// The editor a program name names (`nvim`, `vim`, `vi`, `hx`, `helix`,
    /// `code`, `code-insiders`).
    pub fn from_name(n: &str) -> (r: Editor)
        ensures
            r == editor_of_name(n@),
    {
        if str_eq(n, "nvim") || str_eq(n, "vim") || str_eq(n, "vi") {
            Editor::Nvim
        } else if str_eq(n, "hx") || str_eq(n, "helix") {
            Editor::Helix
        } else if str_eq(n, "code") || str_eq(n, "code-insiders") {
            Editor::Vscode
        } else {
            Editor::Unknown
        }
    }

    /// The editor the value of `$EDITOR` names.
    pub fn detect_from(editor: &str) -> (r: Editor)
        ensures
            r == detect_spec(editor@),
    {
        match file_name_of(editor) {
            Some(n) => Self::from_name(n.as_str()),
            None => Self::from_name(editor),
        }
    }

    /// The shell command opening the file shown as `path`, at `position`
    /// when this editor can take one.
    pub fn format_open_cmd(&self, path: &str, position: Option<Position>) -> (r: String)
        ensures
            r@ == open_cmd_spec(*self, path@, position),
    {
        let mut s = String::new();
        match position {
            Some(pos) => match self {
                Editor::Nvim => match pos.col {
                    Some(c) => {
                        push_str(&mut s, "$EDITOR \"+call cursor(");
                        push_dec(&mut s, pos.line as u64);
                        push_str(&mut s, ", ");
                        push_dec(&mut s, c as u64);
                        push_str(&mut s, ")\" ");
                        push_str(&mut s, "\"");
                        push_str(&mut s, path);
                        push_str(&mut s, "\"");
                        proof { reveal_quotes(); }
                    },
                    None => {
                        push_str(&mut s, "$EDITOR +");
                        push_dec(&mut s, pos.line as u64);
                        push_str(&mut s, " ");
                        push_str(&mut s, "\"");
                        push_str(&mut s, path);
                        push_str(&mut s, "\"");
                        proof { reveal_quotes(); }
                    },
                },
                Editor::Helix => {
                    push_str(&mut s, "$EDITOR ");
                    push_str(&mut s, "\"");
                    push_str(&mut s, path);
                    push_str(&mut s, ":");
                    push_dec(&mut s, pos.line as u64);
                    match pos.col {
                        Some(c) => {
                            push_str(&mut s, ":");
                            push_dec(&mut s, c as u64);
                        },
                        None => {},
                    }
                    push_str(&mut s, "\"");
                    proof { reveal_quotes(); }
                },
                Editor::Vscode => {
                    push_str(&mut s, "$EDITOR --goto ");
                    push_str(&mut s, "\"");
                    push_str(&mut s, path);
                    push_str(&mut s, ":");
                    push_dec(&mut s, pos.line as u64);
                    match pos.col {
                        Some(c) => {
                            push_str(&mut s, ":");
                            push_dec(&mut s, c as u64);
                        },
                        None => {},
                    }
                    push_str(&mut s, "\"");
                    proof { reveal_quotes(); }
                },
                Editor::Unknown => {
                    push_str(&mut s, "$EDITOR ");
                    push_str(&mut s, "\"");
                    push_str(&mut s, path);
                    push_str(&mut s, "\"");
                    proof { reveal_quotes(); }
                },
            },
            None => {
                push_str(&mut s, "$EDITOR ");
                push_str(&mut s, "\"");
                push_str(&mut s, path);
                push_str(&mut s, "\"");
                proof { reveal_quotes(); }
            },
        }
        s
    }
}

proof fn reveal_quotes()
    ensures
        "\""@ == seq!['"'],
{
    reveal_strlit("\"");
    assert("\""@ =~= seq!['"']);
}

/// How a file is opened.
#[derive(Clone, Copy, Debug, PartialEq, Eq, Structural)]
pub enum OpenMode {
    /// In `$EDITOR`; the file must exist.
    Normal,
    /// In `$EDITOR`, which creates the file if needed.
    Force,
    /// Read-only, in nvim.
    Read,
    /// In the `less` pager.
    Pager,
}

impl Default for OpenMode {
    /// `Normal`.
    fn default() -> (r: OpenMode)
        ensures
            r == OpenMode::Normal,
    {
        OpenMode::Normal
    }
}

/// Options for opening a file: git sync around the edit, the mode, and a position.
#[derive(Clone, Copy, Debug)]
pub struct Client {
    git: bool,
    mode: OpenMode,
    position: Option<Position>,
}

/// A shell command to run, and the error to report when it cannot be
/// started (`None`: report the error of starting it as it is).
#[derive(Clone, Debug, PartialEq, Eq)]
pub struct ShellRun {
    pub command: String,
    pub spawn_error: Option<String>,
}

/// What opening a file in a mode runs, given whether the file exists: the
/// command and its start-up error, or the refusal.
pub open spec fn open_spec(mode: OpenMode, e: Editor, p: Seq<char>, pos: Option<Position>, exists: bool)
    -> Result<(Seq<char>, Option<Seq<char>>), Seq<char>>
{
    match mode {
        OpenMode::Normal => if !exists {
            Err("File does not exist"@)
        } else {
            Ok((open_cmd_spec(e, p, pos), Some("$EDITOR env variable is not defined"@)))
        },
        OpenMode::Force => Ok((
            open_cmd_spec(e, p, pos),
            Some("$EDITOR env variable is not defined or permission lacking to create the file: "@ + p),
        )),
        OpenMode::Pager => if !exists {
            Err("File does not exist"@)
        } else {
            Ok(("less "@ + p, None))
        },
        OpenMode::Read => if !exists {
            Err("File does not exist"@)
        } else {
            Ok(("nvim -R "@ + p, Some("nvim is not found in path"@)))
        },
    }
}

/// Whether a run holds what [`open_spec`] names.
pub open spec fn run_is(r: ShellRun, v: (Seq<char>, Option<Seq<char>>)) -> bool {
    r.command@ == v.0 && match (r.spawn_error, v.1) {
        (Some(a), Some(b)) => a@ == b,
        (None, None) => true,
        _ => false,
    }
}

impl Client {
    pub closed spec fn spec_git(&self) -> bool {
        self.git
    }

    pub closed spec fn spec_mode(&self) -> OpenMode {
        self.mode
    }

    pub closed spec fn spec_position(&self) -> Option<Position> {
        self.position
    }

    /// Turns git sync on or off: pull before the edit, commit and push after.
    pub fn git(self, enable: bool) -> (r: Client)
        ensures
            r.spec_git() == enable,
            r.spec_mode() == self.spec_mode(),
            r.spec_position() == self.spec_position(),
    {
        Client { git: enable, mode: self.mode, position: self.position }
    }

    /// Sets the open mode.
    pub fn mode(self, mode: OpenMode) -> (r: Client)
        ensures
            r.spec_git() == self.spec_git(),
            r.spec_mode() == mode,
            r.spec_position() == self.spec_position(),
    {
        Client { git: self.git, mode, position: self.position }
    }

    /// Sets the position to open the file at (editors that cannot take one ignore it).
    pub fn at(self, position: Position) -> (r: Client)
        ensures
            r.spec_git() == self.spec_git(),
            r.spec_mode() == self.spec_mode(),
            r.spec_position() == Some(position),
    {
        Client { git: self.git, mode: self.mode, position: Some(position) }
    }

    /// Whether git sync is on.
    pub fn syncs_git(&self) -> (r: bool)
        ensures
            r == self.spec_git(),
    {
        self.git
    }

    /// The open mode.
    pub fn open_mode(&self) -> (r: OpenMode)
        ensures
            r == self.spec_mode(),
    {
        self.mode
    }

    /// What opening the file shown as `path` runs with `editor`, given
    /// whether it exists; see [`open_spec`].
    pub fn open_file(&self, editor: Editor, path: &str, exists: bool) -> (r: Result<ShellRun, String>)
        ensures
            match open_spec(self.spec_mode(), editor, path@, self.spec_position(), exists) {
                Ok(v) => r is Ok && run_is(r->Ok_0, v),
                Err(m) => r is Err && r->Err_0@ == m,
            },
    {
        match self.mode {
            OpenMode::Normal => {
                if !exists {
                    return Err("File does not exist".to_owned());
                }
                let cmd = editor.format_open_cmd(path, self.position);
                Ok(ShellRun { command: cmd, spawn_error: Some("$EDITOR env variable is not defined".to_owned()) })
            },
            OpenMode::Force => {
                let cmd = editor.format_open_cmd(path, self.position);
                let mut msg = "$EDITOR env variable is not defined or permission lacking to create the file: ".to_owned();
                push_str(&mut msg, path);
                Ok(ShellRun { command: cmd, spawn_error: Some(msg) })
            },
            OpenMode::Pager => {
                if !exists {
                    return Err("File does not exist".to_owned());
                }
                let mut cmd = "less ".to_owned();
                push_str(&mut cmd, path);
                Ok(ShellRun { command: cmd, spawn_error: None })
            },
            OpenMode::Read => {
                if !exists {
                    return Err("File does not exist".to_owned());
                }
                let mut cmd = "nvim -R ".to_owned();
                push_str(&mut cmd, path);
                Ok(ShellRun { command: cmd, spawn_error: Some("nvim is not found in path".to_owned()) })
            },
        }
    }
}

impl Default for Client {
    /// No git sync, normal mode, no position.
    fn default() -> (r: Client)
        ensures
            !r.spec_git(),
            r.spec_mode() == OpenMode::Normal,
            r.spec_position() is None,
    {
        Client { git: false, mode: OpenMode::Normal, position: None }
    }
}

/// The command pulling the git repository at `dir`.
pub fn git_pull_command(dir: &str) -> (r: String)
    ensures
        r@ == "git -C "@ + quoted(dir@) + " pull"@,
{
    let mut s = "git -C ".to_owned();
    push_str(&mut s, "\"");
    push_str(&mut s, dir);
    push_str(&mut s, "\"");
    push_str(&mut s, " pull");
    proof { reveal_quotes(); }
    s
}

/// The command committing everything at `dir` with message `.` and pushing.
pub fn git_commit_push_command(dir: &str) -> (r: String)
    ensures
        r@ == "git -C "@ + quoted(dir@) + " add -A && git -C "@ + quoted(dir@)
            + " commit -m \".\" && git -C "@ + quoted(dir@) + " push"@,
{
    let mut s = "git -C ".to_owned();
    push_str(&mut s, "\"");
    push_str(&mut s, dir);
    push_str(&mut s, "\"");
    push_str(&mut s, " add -A && git -C ");
    push_str(&mut s, "\"");
    push_str(&mut s, dir);
    push_str(&mut s, "\"");
    push_str(&mut s, " commit -m \".\" && git -C ");
    push_str(&mut s, "\"");
    push_str(&mut s, dir);
    push_str(&mut s, "\"");
    push_str(&mut s, " push");
    proof { reveal_quotes(); }
    s
}

/// What to do when the metadata of the path to open under git sync cannot
/// be read: create the file in force mode, else fail with this message.
pub fn missing_path_error(mode: OpenMode, path: &str) -> (r: Option<String>)
    ensures
        mode == OpenMode::Force ==> r is None,
        mode != OpenMode::Force ==> r is Some && r->Some_0@ == "Failed to read metadata of file/directory at '"@ + path@
            + "', which means we do not have sufficient permissions or it does not exist"@,
{
    match mode {
        OpenMode::Force => None,
        _ => {
            let mut m = "Failed to read metadata of file/directory at '".to_owned();
            push_str(&mut m, path);
            push_str(&mut m, "', which means we do not have sufficient permissions or it does not exist");
            Some(m)
        },
    }
}

/// The editor command of the older, unquoted form: `$EDITOR <path>`.
pub open spec fn legacy_open_spec(mode: OpenMode, p: Seq<char>, exists: bool) -> Result<(Seq<char>, Option<Seq<char>>), Seq<char>> {
    match mode {
        OpenMode::Normal => if !exists {
            Err("File does not exist"@)
        } else {
            Ok(("$EDITOR "@ + p, Some("$EDITOR env variable is not defined"@)))
        },
        OpenMode::Force => Ok((
            "$EDITOR "@ + p,
            Some("$EDITOR env variable is not defined or permission lacking to create the file: "@ + p),
        )),
        _ => open_spec(mode, Editor::Unknown, p, None, exists),
    }
}

/// What the older opening function runs: like [`Client::open_file`], but the
/// editor gets the bare path, with no position.
pub fn legacy_open_command(mode: OpenMode, path: &str, exists: bool) -> (r: Result<ShellRun, String>)
    ensures
        match legacy_open_spec(mode, path@, exists) {
            Ok(v) => r is Ok && run_is(r->Ok_0, v),
            Err(m) => r is Err && r->Err_0@ == m,
        },
{
    match mode {
        OpenMode::Normal | OpenMode::Force => {
            if mode == OpenMode::Normal && !exists {
                return Err("File does not exist".to_owned());
            }
            let mut cmd = "$EDITOR ".to_owned();
            push_str(&mut cmd, path);
            let err = if mode == OpenMode::Normal {
                "$EDITOR env variable is not defined".to_owned()
            } else {
                let mut m = "$EDITOR env variable is not defined or permission lacking to create the file: ".to_owned();
                push_str(&mut m, path);
                m
            };
            Ok(ShellRun { command: cmd, spawn_error: Some(err) })
        },
        _ => Client { git: false, mode, position: None }.open_file(Editor::Unknown, path, exists),
    }
}

/// The program names of each editor, listed editor by editor: `nvim`, `vim`,
/// `vi`; `hx`, `helix`; `code`, `code-insiders`; no name for an unknown one.
pub open spec fn editor_names(e: Editor) -> Seq<Seq<char>> {
    match e {
        Editor::Nvim => seq![seq!['n', 'v', 'i', 'm'], seq!['v', 'i', 'm'], seq!['v', 'i']],
        Editor::Helix => seq![seq!['h', 'x'], seq!['h', 'e', 'l', 'i', 'x']],
        Editor::Vscode => seq![
            seq!['c', 'o', 'd', 'e'],
            seq!['c', 'o', 'd', 'e', '-', 'i', 'n', 's', 'i', 'd', 'e', 'r', 's'],
        ],
        Editor::Unknown => Seq::empty(),
    }
}

/// Law: a program name is recognised as exactly the editor that lists it
/// (`vim` and `vi` are Neovim-compatible, `helix` is Helix, `code` is VS Code),
/// and any other name is an unknown editor.
pub proof fn law_editor_names(e: Editor, n: Seq<char>)
    ensures
        forall|i: int| 0 <= i < editor_names(e).len() ==> editor_of_name(#[trigger] editor_names(e)[i]) == e,
        editor_of_name(n) != Editor::Unknown ==> editor_names(editor_of_name(n)).contains(n),
        editor_of_name(n) == Editor::Unknown ==> !editor_names(Editor::Nvim).contains(n)
            && !editor_names(Editor::Helix).contains(n) && !editor_names(Editor::Vscode).contains(n),
{
    reveal_strlit("nvim");
    reveal_strlit("vim");
    reveal_strlit("vi");
    reveal_strlit("hx");
    reveal_strlit("helix");
    reveal_strlit("code");
    reveal_strlit("code-insiders");
    assert("nvim"@ =~= seq!['n', 'v', 'i', 'm']);
    assert("vim"@ =~= seq!['v', 'i', 'm']);
    assert("vi"@ =~= seq!['v', 'i']);
    assert("hx"@ =~= seq!['h', 'x']);
    assert("helix"@ =~= seq!['h', 'e', 'l', 'i', 'x']);
    assert("code"@ =~= seq!['c', 'o', 'd', 'e']);
    assert("code-insiders"@ =~= seq!['c', 'o', 'd', 'e', '-', 'i', 'n', 's', 'i', 'd', 'e', 'r', 's']);
    let nv = editor_names(Editor::Nvim);
    let hx = editor_names(Editor::Helix);
    let vs = editor_names(Editor::Vscode);
    if editor_of_name(n) == Editor::Nvim {
        if n == "nvim"@ { assert(nv[0] == n); } else if n == "vim"@ { assert(nv[1] == n); } else { assert(nv[2] == n); }
    } else if editor_of_name(n) == Editor::Helix {
        if n == "hx"@ { assert(hx[0] == n); } else { assert(hx[1] == n); }
    } else if editor_of_name(n) == Editor::Vscode {
        if n == "code"@ { assert(vs[0] == n); } else { assert(vs[1] == n); }
    }
}

} // verus!
