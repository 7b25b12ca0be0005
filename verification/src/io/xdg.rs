//! XDG base directories: the fallback paths used when an `XDG_*` variable
//! is unset, and the decisions behind linking `~/.<app>/<entry>` to an app's
//! directories.

use vstd::prelude::*;

use crate::text::push_str;

verus! {

broadcast use vstd::string::group_string_axioms;

/// The XDG base directories.
#[derive(Clone, Copy, Debug, PartialEq, Eq, Structural)]
pub enum XdgBase {
    Config,
    Data,
    Cache,
    State,
    Runtime,
}

/// The variable naming a base directory.
pub open spec fn var_of(b: XdgBase) -> Seq<char> {
    match b {
        XdgBase::Config => "XDG_CONFIG_HOME"@,
        XdgBase::Data => "XDG_DATA_HOME"@,
        XdgBase::Cache => "XDG_CACHE_HOME"@,
        XdgBase::State => "XDG_STATE_HOME"@,
        XdgBase::Runtime => "XDG_RUNTIME_DIR"@,
    }
}

/// Where a base directory lies under the home directory when its variable
/// is unset (on Unix).
pub open spec fn home_suffix(b: XdgBase) -> Seq<char> {
    match b {
        XdgBase::Config => "/.config"@,
        XdgBase::Data => "/.local/share"@,
        XdgBase::Cache => "/.cache"@,
        XdgBase::State => "/.local/state"@,
        XdgBase::Runtime => "/.runtime"@,
    }
}

impl XdgBase {
    /// The environment variable naming this base directory.
    pub fn var(&self) -> (r: &'static str)
        ensures
            r@ == var_of(*self),
    {
        match self {
            XdgBase::Config => "XDG_CONFIG_HOME",
            XdgBase::Data => "XDG_DATA_HOME",
            XdgBase::Cache => "XDG_CACHE_HOME",
            XdgBase::State => "XDG_STATE_HOME",
            XdgBase::Runtime => "XDG_RUNTIME_DIR",
        }
    }

    /// The base directory: the variable's value when it is set, else its
    /// place under `home`.
    pub fn fallback(&self, var_value: Option<String>, home: &str) -> (r: String)
        ensures
            r@ == match var_value {
                Some(v) => v@,
                None => home@ + home_suffix(*self),
            },
    {
        match var_value {
            Some(v) => v,
            None => {
                let mut s = home.to_owned();
                let suffix = match self {
                    XdgBase::Config => "/.config",
                    XdgBase::Data => "/.local/share",
                    XdgBase::Cache => "/.cache",
                    XdgBase::State => "/.local/state",
                    XdgBase::Runtime => "/.runtime",
                };
                push_str(&mut s, suffix);
                s
            },
        }
    }
}

/// What stands at the link path `~/.<app>/<entry>`.
#[derive(Clone, Copy, Debug, PartialEq, Eq, Structural)]
pub enum LinkState {
    /// Nothing.
    Missing,
    /// A symlink: whether it points at the target, and whether what it
    /// points at exists.
    Symlink { to_target: bool, old_exists: bool },
    /// A real file or directory (left by an older layout).
    Present,
}

/// What to do at the link path.
#[derive(Clone, Copy, Debug, PartialEq, Eq, Structural)]
pub enum IndexStep {
    /// Create the link.
    Link,
    /// The link is already right.
    Done,
    /// Remove the stale link, then create it.
    Replace,
    /// The old link points at data still there: stop, to be moved by hand.
    Refuse,
    /// Move the legacy data to the target, then create the link.
    Migrate,
}

/// The step for a link path in state `s`.
pub open spec fn index_step_spec(s: LinkState) -> IndexStep {
    match s {
        LinkState::Missing => IndexStep::Link,
        LinkState::Symlink { to_target, old_exists } => if to_target {
            IndexStep::Done
        } else if old_exists {
            IndexStep::Refuse
        } else {
            IndexStep::Replace
        },
        LinkState::Present => IndexStep::Migrate,
    }
}

/// Decides what to do at a link path; see [`index_step_spec`].
pub fn index_step(s: LinkState) -> (r: IndexStep)
    ensures
        r == index_step_spec(s),
{
    match s {
        LinkState::Missing => IndexStep::Link,
        LinkState::Symlink { to_target, old_exists } => if to_target {
            IndexStep::Done
        } else if old_exists {
            IndexStep::Refuse
        } else {
            IndexStep::Replace
        },
        LinkState::Present => IndexStep::Migrate,
    }
}

/// What stands at the target when legacy data is to move there.
#[derive(Clone, Copy, Debug, PartialEq, Eq, Structural)]
pub enum TargetState {
    Missing,
    /// A directory, and whether it holds anything.
    Dir { empty: bool },
    /// A file, and its length in bytes.
    File { len: u64 },
}

/// How to clear the target before the legacy data moves in.
#[derive(Clone, Copy, Debug, PartialEq, Eq, Structural)]
pub enum ClearStep {
    /// Nothing is there.
    Nothing,
    /// Remove the empty directory.
    RemoveDir,
    /// Remove the empty file.
    RemoveFile,
    /// Both hold data: stop, to be merged by hand.
    Refuse,
}

/// Decides how to clear the target: only an empty target gives way.
pub fn clear_step(t: TargetState) -> (r: ClearStep)
    ensures
        r == match t {
            TargetState::Missing => ClearStep::Nothing,
            TargetState::Dir { empty } => if empty { ClearStep::RemoveDir } else { ClearStep::Refuse },
            TargetState::File { len } => if len == 0 { ClearStep::RemoveFile } else { ClearStep::Refuse },
        },
{
    match t {
        TargetState::Missing => ClearStep::Nothing,
        TargetState::Dir { empty } => if empty {
            ClearStep::RemoveDir
        } else {
            ClearStep::Refuse
        },
        TargetState::File { len } => if len == 0 {
            ClearStep::RemoveFile
        } else {
            ClearStep::Refuse
        },
    }
}

} // verus!
