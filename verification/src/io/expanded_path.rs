//! Paths given with a leading `~`, expanded against the home directory.

use vstd::prelude::*;
use vstd::string::StringSliceAdditionalSpecFns;
use vstd::utf8::{decode_utf8, is_char_boundary};

use crate::text::push_str;

verus! {

broadcast use vstd::string::group_string_axioms;

/// A path whose `~` has been expanded, held as its text.
#[derive(Clone, Debug, Default, PartialEq, Eq)]
pub struct ExpandedPath(pub String);

/// The path `p` joined onto `base`, as `Path::join` of std forms it.
pub uninterp spec fn path_join(base: Seq<char>, p: Seq<char>) -> Seq<char>;

/// The parent of a path, as `Path::parent` of std gives it.
pub uninterp spec fn path_parent(p: Seq<char>) -> Option<Seq<char>>;

/// `Path::join` of std on text paths. How the parts are joined (separators,
/// an absolute `p` replacing `base`) is named, not stated.
#[verifier::external_body]
fn join_paths(base: &str, p: &str) -> (r: String)
    ensures
        r@ == path_join(base@, p@),
{
    std::path::Path::new(base).join(p).display().to_string()
}

/// `Path::parent` of std on a text path. Which prefix that is (`None` for a
/// root or an empty path) is named, not stated.
#[verifier::external_body]
fn parent_path(p: &str) -> (r: Option<String>)
    ensures
        match r {
            Some(q) => path_parent(p@) == Some(q@),
            None => path_parent(p@) is None,
        },
{
    match std::path::Path::new(p).parent() {
        Some(q) => Some(q.display().to_string()),
        None => None,
    }
}

/// `dirs::home_dir`: the user's home directory as text, if it can be
/// determined (and is UTF-8). It depends on the environment, so nothing is
/// stated of it.
#[verifier::external_body]
fn home_dir_text() -> Option<String> {
    match dirs::home_dir() {
        Some(p) => match p.to_str() {
            Some(t) => Some(t.to_owned()),
            None => None,
        },
        None => None,
    }
}

/// A path text expanded against `home`: `~` alone is the home directory,
/// `~/rest` is `rest` joined onto it, and other texts are kept as they are.
pub open spec fn expand_spec(s: Seq<char>, home: Option<Seq<char>>) -> Result<Seq<char>, Seq<char>> {
    let b = vstd::utf8::encode_utf8(s);
    if s.len() > 0 && s[0] == '~' {
        match home {
            None => Err("Failed to determine user's home directory"@),
            Some(h) => if b.len() < 2 {
                Ok(h)
            } else if b.len() > 2 {
                Ok(path_join(h, decode_utf8(b.subrange(2, b.len() as int))))
            } else {
                Err("Incorrect Path"@)
            },
        }
    } else {
        Ok(s)
    }
}

/// Whether expanding `s` slices it inside a character (a panic).
pub open spec fn expand_panics(s: Seq<char>) -> bool {
    let b = vstd::utf8::encode_utf8(s);
    s.len() > 0 && s[0] == '~' && b.len() > 2 && !is_char_boundary(b, 2)
}

/// Expands a leading `~` of `path` against `home` (see [`expand_spec`]).
pub fn expand_tilde(path: &str, home: Option<&str>) -> (r: Result<String, String>)
    requires
        !expand_panics(path@),
    ensures
        match expand_spec(path@, match home { Some(h) => Some(h@), None => None }) {
            Ok(p) => r is Ok && r->Ok_0@ == p,
            Err(m) => r is Err && r->Err_0@ == m,
        },
{
    let cs = crate::text::chars_of(path);
    if cs.len() > 0 && cs[0] == '~' {
        match home {
            None => Err("Failed to determine user's home directory".to_owned()),
            Some(h) => {
                let b = path.as_bytes();
                if b.len() < 2 {
                    Ok(h.to_owned())
                } else if b.len() > 2 {
                    let (_, rest) = path.split_at(2);
                    proof {
                        vstd::utf8::encode_utf8_decode_utf8(rest@);
                    }
                    Ok(join_paths(h, rest))
                } else {
                    Err("Incorrect Path".to_owned())
                }
            },
        }
    } else {
        Ok(path.to_owned())
    }
}

impl ExpandedPath {
    /// The path of a text, its `~` expanded against the home directory.
    /// The home directory depends on the environment: whichever it is, the
    /// result is the expansion against it.
    pub fn from_str(s: &str) -> (r: Result<ExpandedPath, String>)
        requires
            !expand_panics(s@),
        ensures
            exists|home: Option<Seq<char>>| match #[trigger] expand_spec(s@, home) {
                Ok(p) => r is Ok && r->Ok_0.0@ == p,
                Err(m) => r is Err && r->Err_0@ == m,
            },
            !(s@.len() > 0 && s@[0] == '~') ==> r is Ok && r->Ok_0.0@ == s@,
    {
        let cs = crate::text::chars_of(s);
        let home = if cs.len() > 0 && cs[0] == '~' {
            home_dir_text()
        } else {
            None
        };
        let h = match &home {
            Some(t) => Some(t.as_str()),
            None => None,
        };
        let ghost hv = match h { Some(t) => Some(t@), None => None };
        match expand_tilde(s, h) {
            Ok(p) => {
                assert(match expand_spec(s@, hv) { Ok(q) => p@ == q, Err(_) => false });
                Ok(ExpandedPath(p))
            },
            Err(e) => Err(e),
        }
    }

    /// The path of a text, taken as it is.
    pub fn new(path: String) -> (r: ExpandedPath)
        ensures
            r.0 == path,
    {
        ExpandedPath(path)
    }

    /// The path.
    pub fn inner(self) -> (r: String)
        ensures
            r == self.0,
    {
        self.0
    }

    /// The path (the older name of [`ExpandedPath::inner`]).
    pub fn process(self) -> (r: String)
        ensures
            r == self.0,
    {
        self.0
    }

    /// The path as shown (what `Display` writes).
    pub fn display(&self) -> (r: String)
        ensures
            r@ == self.0@,
    {
        self.0.as_str().to_owned()
    }

    /// The parent directory, if any.
    pub fn parent(&self) -> (r: Option<ExpandedPath>)
        ensures
            match r {
                Some(p) => path_parent(self.0@) == Some(p.0@),
                None => path_parent(self.0@) is None,
            },
    {
        match parent_path(self.0.as_str()) {
            Some(p) => Some(ExpandedPath(p)),
            None => None,
        }
    }

    /// `path` joined onto this path.
    pub fn join(&self, path: &str) -> (r: ExpandedPath)
        ensures
            r.0@ == path_join(self.0@, path@),
    {
        ExpandedPath(join_paths(self.0.as_str(), path))
    }
}

} // verus!
