//! Confirmation prompts: what the prompt says, what an answer means, and the
//! line editor offered for changing a suggestion. Reading the terminal is
//! left to the caller, which hands each line or key byte to these functions.

use vstd::prelude::*;

use crate::text::{chars_of, lowercase, push_char, push_str, str_eq, string_from, to_lowercase, trim, trimmed};

verus! {

broadcast use vstd::string::group_string_axioms;

/// The answer to a confirmation prompt.
#[derive(Clone, Debug, PartialEq, Eq)]
pub enum ConfirmResult {
    Yes,
    No,
    All,
    /// The suggestion, as the user edited it.
    Change(String),
}

/// The answer to a prompt that offers "all" (the older three-way form).
#[derive(Clone, Copy, Debug, PartialEq, Eq, Structural)]
pub enum ConfirmAllResult {
    Yes,
    No,
    All,
}

/// A confirmation prompt: its message, and whether it offers "all" and a
/// suggestion to change.
#[derive(Clone, Debug)]
pub struct Confirmation<'a> {
    message: &'a str,
    all: bool,
    change: Option<&'a str>,
}

impl<'a> Confirmation<'a> {
    pub closed spec fn spec_message(&self) -> Seq<char> {
        self.message@
    }

    pub closed spec fn spec_all(&self) -> bool {
        self.all
    }

    pub closed spec fn spec_change(&self) -> Option<Seq<char>> {
        match self.change {
            Some(s) => Some(s@),
            None => None,
        }
    }

    /// Adds the "all" option (`a`), to apply the answer to all remaining items.
    pub fn all(self) -> (r: Confirmation<'a>)
        ensures
            r.spec_message() == self.spec_message(),
            r.spec_all(),
            r.spec_change() == self.spec_change(),
    {
        Confirmation { message: self.message, all: true, change: self.change }
    }

    /// Adds the "change" option (`c`), offering `suggestion` for editing.
    pub fn change(self, suggestion: &'a str) -> (r: Confirmation<'a>)
        ensures
            r.spec_message() == self.spec_message(),
            r.spec_all() == self.spec_all(),
            r.spec_change() == Some(suggestion@),
    {
        Confirmation { message: self.message, all: self.all, change: Some(suggestion) }
    }

    /// Whether the prompt offers "all".
    pub fn offers_all(&self) -> (r: bool)
        ensures
            r == self.spec_all(),
    {
        self.all
    }

    /// The suggestion offered for changing, if any.
    pub fn suggestion(&self) -> (r: Option<&'a str>)
        ensures
            match r {
                Some(s) => self.spec_change() == Some(s@),
                None => self.spec_change() is None,
            },
    {
        self.change
    }

    /// The prompt line: the message, then the options in brackets, as
    /// `"Proceed? [Y/n/a/c (change)] "`.
    pub fn format_prompt(&self) -> (r: String)
        ensures
            r@ == prompt_spec(self.spec_message(), self.spec_all(), self.spec_change() is Some),
    {
        let mut s = self.message.to_owned();
        push_str(&mut s, " [Y/n");
        if self.all {
            push_str(&mut s, "/a");
        }
        if self.change.is_some() {
            push_str(&mut s, "/c (change)");
        }
        push_str(&mut s, "] ");
        s
    }
}

/// The prompt line of a message and its options.
pub open spec fn prompt_spec(message: Seq<char>, all: bool, change: bool) -> Seq<char> {
    message + " [Y/n"@ + (if all { "/a"@ } else { Seq::empty() })
        + (if change { "/c (change)"@ } else { Seq::empty() }) + "] "@
}

/// A prompt with `message`, offering neither "all" nor a change.
pub fn confirmation(message: &str) -> (r: Confirmation<'_>)
    ensures
        r.spec_message() == message@,
        !r.spec_all(),
        r.spec_change() is None,
{
    Confirmation { message, all: false, change: None }
}

/// What a line typed at the prompt asks for.
#[derive(Clone, Copy, Debug, PartialEq, Eq, Structural)]
pub enum PromptReply {
    Yes,
    No,
    All,
    /// Edit the suggestion.
    Change,
    /// Not an option of this prompt: ask again.
    Invalid,
}

/// The meaning of a typed line: trimmed and lowercased, `y`/`yes`/empty is
/// yes, `n`/`no` is no, `a`/`all` is all (if offered), `c`/`change` asks to
/// edit (if a suggestion is offered); anything else is invalid.
pub open spec fn reply_spec(input: Seq<char>, all: bool, change: bool) -> PromptReply {
    let t = lowercase(trimmed(input));
    if t == "y"@ || t == "yes"@ || t == ""@ {
        PromptReply::Yes
    } else if t == "n"@ || t == "no"@ {
        PromptReply::No
    } else if (t == "a"@ || t == "all"@) && all {
        PromptReply::All
    } else if (t == "c"@ || t == "change"@) && change {
        PromptReply::Change
    } else {
        PromptReply::Invalid
    }
}

/// What a line typed at a prompt asks for; see [`reply_spec`].
pub fn prompt_reply(input: &str, all: bool, change: bool) -> (r: PromptReply)
    ensures
        r == reply_spec(input@, all, change),
{
    let cs = chars_of(input);
    let t = trim(cs.as_slice());
    let ts = string_from(t.as_slice());
    let l = to_lowercase(ts.as_str());
    let lower = l.as_str();
    if str_eq(lower, "y") || str_eq(lower, "yes") || str_eq(lower, "") {
        PromptReply::Yes
    } else if str_eq(lower, "n") || str_eq(lower, "no") {
        PromptReply::No
    } else if (str_eq(lower, "a") || str_eq(lower, "all")) && all {
        PromptReply::All
    } else if (str_eq(lower, "c") || str_eq(lower, "change")) && change {
        PromptReply::Change
    } else {
        PromptReply::Invalid
    }
}

impl ConfirmResult {
    /// Whether the answer is yes (what the older boolean prompt returned).
    pub fn is_yes(&self) -> (r: bool)
        ensures
            r == (*self is Yes),
    {
        match self {
            ConfirmResult::Yes => true,
            _ => false,
        }
    }

    /// The three-way answer; an edited suggestion counts as yes.
    pub fn to_confirm_all(&self) -> (r: ConfirmAllResult)
        ensures
            r == match *self {
                ConfirmResult::Yes => ConfirmAllResult::Yes,
                ConfirmResult::No => ConfirmAllResult::No,
                ConfirmResult::All => ConfirmAllResult::All,
                ConfirmResult::Change(_) => ConfirmAllResult::Yes,
            },
    {
        match self {
            ConfirmResult::Yes => ConfirmAllResult::Yes,
            ConfirmResult::No => ConfirmAllResult::No,
            ConfirmResult::All => ConfirmAllResult::All,
            ConfirmResult::Change(_) => ConfirmAllResult::Yes,
        }
    }
}

/// What a key byte did to the line being edited.
#[derive(Clone, Copy, Debug, PartialEq, Eq, Structural)]
pub enum EditEvent {
    /// Enter: the edit is done.
    Submit,
    /// Escape or Ctrl-C: the edit is abandoned.
    Cancel,
    /// The value changed; the line is redrawn.
    Changed,
    /// The key does nothing.
    Ignored,
}

/// The line editor offered for changing a suggestion.
#[derive(Clone, Debug)]
pub struct InlineEdit {
    value: String,
}

/// Whether a byte is a printable ASCII character or a space.
pub open spec fn is_typed(b: u8) -> bool {
    0x20 <= b <= 0x7e
}

/// The effect of a key byte on the value being edited.
pub open spec fn key_spec(value: Seq<char>, b: u8) -> (EditEvent, Seq<char>) {
    if b == 0x0a || b == 0x0d {
        (EditEvent::Submit, value)
    } else if b == 0x1b || b == 0x03 {
        (EditEvent::Cancel, value)
    } else if b == 0x7f || b == 0x08 {
        if value.len() > 0 {
            (EditEvent::Changed, value.drop_last())
        } else {
            (EditEvent::Ignored, value)
        }
    } else if is_typed(b) {
        (EditEvent::Changed, value.push(b as char))
    } else {
        (EditEvent::Ignored, value)
    }
}

impl InlineEdit {
    pub closed spec fn spec_value(&self) -> Seq<char> {
        self.value@
    }

    /// An editor holding `initial`.
    pub fn new(initial: &str) -> (r: InlineEdit)
        ensures
            r.spec_value() == initial@,
    {
        InlineEdit { value: initial.to_owned() }
    }

    /// The value being edited.
    pub fn value(&self) -> (r: String)
        ensures
            r@ == self.spec_value(),
    {
        self.value.clone()
    }

    /// The terminal line showing the value: a carriage return, an
    /// erase-line escape, then `"> "` and the value.
    pub fn render(&self) -> (r: String)
        ensures
            r@ == seq!['\r', '\x1b', '[', 'K', '>', ' '] + self.spec_value(),
    {
        let mut s = String::new();
        push_char(&mut s, '\r');
        push_char(&mut s, '\x1b');
        push_char(&mut s, '[');
        push_char(&mut s, 'K');
        push_char(&mut s, '>');
        push_char(&mut s, ' ');
        push_str(&mut s, self.value.as_str());
        s
    }

    /// Applies one key byte: Enter submits, Escape or Ctrl-C cancels,
    /// Backspace or Delete removes the last character, a printable ASCII
    /// character or space is appended; other bytes are ignored.
    pub fn key(&mut self, b: u8) -> (r: EditEvent)
        ensures
            (r, final(self).spec_value()) == key_spec(old(self).spec_value(), b),
    {
        if b == 0x0a || b == 0x0d {
            EditEvent::Submit
        } else if b == 0x1b || b == 0x03 {
            EditEvent::Cancel
        } else if b == 0x7f || b == 0x08 {
            let cs = chars_of(self.value.as_str());
            if cs.len() > 0 {
                let kept = crate::text::chars_prefix(cs.as_slice(), cs.len() - 1);
                self.value = string_from(kept.as_slice());
                EditEvent::Changed
            } else {
                EditEvent::Ignored
            }
        } else if 0x20 <= b && b <= 0x7e {
            push_char(&mut self.value, b as char);
            EditEvent::Changed
        } else {
            EditEvent::Ignored
        }
    }
}

/// Law: in the line editor, Backspace undoes a typed character, and Enter or
/// Escape leave the value as it is.
pub proof fn law_backspace_undoes_typing(value: Seq<char>, b: u8)
    requires
        is_typed(b),
    ensures
        key_spec(value, b).0 == EditEvent::Changed,
        key_spec(key_spec(value, b).1, 0x7f) == (EditEvent::Changed, value),
        key_spec(key_spec(value, b).1, 0x08) == (EditEvent::Changed, value),
        key_spec(value, 0x0a) == (EditEvent::Submit, value),
        key_spec(value, 0x1b) == (EditEvent::Cancel, value),
{
    assert(value.push(b as char).drop_last() =~= value);
}

/// Law: a blank line (only whitespace) answers yes, the default the prompt
/// shows as a capital `Y`.
pub proof fn law_blank_answer_is_yes(input: Seq<char>, all: bool, change: bool)
    requires
        trimmed(input).len() == 0,
    ensures
        reply_spec(input, all, change) == PromptReply::Yes,
{
    reveal_strlit("");
    let e = Seq::<char>::empty();
    assert(trimmed(input) =~= e);
    assert(""@ =~= e);
    assert(vstd::utf8::is_ascii_chars(e));
    assert(crate::text::ascii_lowercase(e) =~= e);
    assert(lowercase(trimmed(input)) =~= e);
}

/// A word of lowercase ASCII letters is its own lowercase form.
proof fn lemma_lower_word(w: Seq<char>)
    requires
        forall|i: int| 0 <= i < w.len() ==> 'a' <= #[trigger] w[i] <= 'z',
    ensures
        lowercase(w) == w,
    decreases w.len(),
{
    assert(vstd::utf8::is_ascii_chars(w)) by {
        assert forall|i: int| 0 <= i < w.len() implies '\0' <= #[trigger] w[i] <= '\u{7f}' by {
            assert('a' <= w[i] <= 'z');
        }
    }
    if w.len() > 0 {
        lemma_lower_word(w.drop_last());
        assert(vstd::utf8::is_ascii_chars(w.drop_last())) by {
            assert forall|i: int| 0 <= i < w.drop_last().len() implies '\0' <= #[trigger] w.drop_last()[i] <= '\u{7f}' by {
                assert(w.drop_last()[i] == w[i]);
                assert('a' <= w[i] <= 'z');
            }
        }
        assert(w.drop_last().push(w.last()) =~= w);
    } else {
        assert(crate::text::ascii_lowercase(w) =~= w);
    }
}

/// The lowercase form of a one-letter capital is its small letter.
proof fn lemma_lower_capital(c: char, small: char)
    requires
        'A' <= c <= 'Z',
        crate::text::ascii_lower(c) == small,
    ensures
        lowercase(seq![c]) == seq![small],
{
    let w = seq![c];
    assert(vstd::utf8::is_ascii_chars(w)) by {
        assert forall|i: int| 0 <= i < w.len() implies '\0' <= #[trigger] w[i] <= '\u{7f}' by {
            assert(w[i] == c);
        }
    }
    assert(w.drop_last() =~= Seq::<char>::empty());
    assert(w.last() == c);
    assert(crate::text::ascii_lowercase(Seq::<char>::empty()) =~= Seq::<char>::empty());
    assert(crate::text::ascii_lowercase(w) == crate::text::ascii_lowercase(w.drop_last()).push(small));
    assert(crate::text::ascii_lowercase(w) =~= seq![small]);
}

/// Law: every option the prompt line advertises is taken as that answer,
/// whatever whitespace surrounds it and in either case: `y`/`yes` is yes,
/// `n`/`no` is no, `a`/`all` is all when all is offered (and refused when it
/// is not), `c`/`change` asks to edit when a suggestion is offered (and is
/// refused when none is).
pub proof fn law_advertised_options(input: Seq<char>, all: bool, change: bool)
    ensures
        trimmed(input) == seq!['y'] || trimmed(input) == seq!['Y'] || trimmed(input) == seq!['y', 'e', 's']
            ==> reply_spec(input, all, change) == PromptReply::Yes,
        trimmed(input) == seq!['n'] || trimmed(input) == seq!['N'] || trimmed(input) == seq!['n', 'o']
            ==> reply_spec(input, all, change) == PromptReply::No,
        trimmed(input) == seq!['a'] || trimmed(input) == seq!['A'] || trimmed(input) == seq!['a', 'l', 'l']
            ==> reply_spec(input, all, change) == (if all { PromptReply::All } else { PromptReply::Invalid }),
        trimmed(input) == seq!['c'] || trimmed(input) == seq!['C']
            || trimmed(input) == seq!['c', 'h', 'a', 'n', 'g', 'e']
            ==> reply_spec(input, all, change) == (if change { PromptReply::Change } else { PromptReply::Invalid }),
{
    reveal_strlit("y");
    reveal_strlit("yes");
    reveal_strlit("");
    reveal_strlit("n");
    reveal_strlit("no");
    reveal_strlit("a");
    reveal_strlit("all");
    reveal_strlit("c");
    reveal_strlit("change");
    let t = trimmed(input);
    assert(crate::text::ascii_lower('Y') == 'y');
    assert(crate::text::ascii_lower('N') == 'n');
    assert(crate::text::ascii_lower('A') == 'a');
    assert(crate::text::ascii_lower('C') == 'c');
    let w: Seq<char> = if t == seq!['Y'] {
        lemma_lower_capital('Y', 'y');
        seq!['y']
    } else if t == seq!['N'] {
        lemma_lower_capital('N', 'n');
        seq!['n']
    } else if t == seq!['A'] {
        lemma_lower_capital('A', 'a');
        seq!['a']
    } else if t == seq!['C'] {
        lemma_lower_capital('C', 'c');
        seq!['c']
    } else {
        t
    };
    if t == seq!['y'] || t == seq!['y', 'e', 's'] || t == seq!['n'] || t == seq!['n', 'o'] || t == seq!['a']
        || t == seq!['a', 'l', 'l'] || t == seq!['c'] || t == seq!['c', 'h', 'a', 'n', 'g', 'e'] {
        lemma_lower_word(t);
    }
    assert(seq!['y'] =~= "y"@);
    assert(seq!['y', 'e', 's'] =~= "yes"@);
    assert(seq!['n'] =~= "n"@);
    assert(seq!['n', 'o'] =~= "no"@);
    assert(seq!['a'] =~= "a"@);
    assert(seq!['a', 'l', 'l'] =~= "all"@);
    assert(seq!['c'] =~= "c"@);
    assert(seq!['c', 'h', 'a', 'n', 'g', 'e'] =~= "change"@);
    let l = lowercase(t);
    if l == seq!['n'] || l == seq!['n', 'o'] || l == seq!['a'] || l == seq!['a', 'l', 'l'] || l == seq!['c']
        || l == seq!['c', 'h', 'a', 'n', 'g', 'e'] {
        assert(l.len() > 0);
        assert(l != ""@);
        assert(l[0] != 'y');
        assert(l != "y"@ && l != "yes"@) by {
            assert("y"@[0] == 'y' && "yes"@[0] == 'y');
        }
        if l[0] != 'n' {
            assert(l != "n"@ && l != "no"@) by {
                assert("n"@[0] == 'n' && "no"@[0] == 'n');
            }
        }
        if l[0] == 'c' {
            assert(l != "a"@ && l != "all"@) by {
                assert("a"@[0] == 'a' && "all"@[0] == 'a');
            }
        }
    }
}

} // verus!
