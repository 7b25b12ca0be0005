//! Conversations for a chat completion API, the model families a capability
//! level maps to, and what is read back from a reply. Sending the request is
//! left to the caller.

use vstd::prelude::*;

use crate::text::{chars_of, chars_slice, lowercase, push_str, string_from, to_lowercase};

verus! {

broadcast use vstd::string::group_string_axioms;

/// How capable (and costly) a model to ask.
#[derive(Clone, Copy, Debug, PartialEq, Eq, Structural)]
pub enum Model {
    Fast,
    Medium,
    Slow,
}

/// Who says a message.
#[derive(Clone, Copy, Debug, PartialEq, Eq, Structural)]
pub enum Role {
    System,
    User,
    Assistant,
}

/// One message of a conversation.
#[derive(Clone, Debug)]
pub struct Message {
    role: Role,
    content: String,
}

impl Message {
    pub closed spec fn spec_role(&self) -> Role {
        self.role
    }

    pub closed spec fn spec_content(&self) -> Seq<char> {
        self.content@
    }

    /// A message of `role` saying `content`.
    pub fn new(role: Role, content: &str) -> (r: Message)
        ensures
            r.spec_role() == role,
            r.spec_content() == content@,
    {
        Message { role, content: content.to_owned() }
    }

    /// Who says it.
    pub fn role(&self) -> (r: Role)
        ensures
            r == self.spec_role(),
    {
        self.role
    }

    /// What is said.
    pub fn content(&self) -> (r: &str)
        ensures
            r@ == self.spec_content(),
    {
        self.content.as_str()
    }
}

/// The messages of a message list, as roles and texts.
pub open spec fn messages_view(ms: Seq<Message>) -> Seq<(Role, Seq<char>)> {
    ms.map_values(|m: Message| (m.spec_role(), m.spec_content()))
}

/// A conversation: a system message, then the exchanges.
pub struct Conversation {
    pub messages: Vec<Message>,
}

impl Conversation {
    /// A conversation opened by `system_message`.
    pub fn new(system_message: &str) -> (r: Conversation)
        ensures
            messages_view(r.messages@) == seq![(Role::System, system_message@)],
    {
        let mut messages: Vec<Message> = Vec::new();
        messages.push(Message::new(Role::System, system_message));
        assert(messages_view(messages@) =~= seq![(Role::System, system_message@)]);
        Conversation { messages }
    }

    /// Appends a message.
    pub fn add(&mut self, role: Role, content: &str)
        ensures
            messages_view(final(self).messages@) == messages_view(old(self).messages@).push((role, content@)),
    {
        self.messages.push(Message::new(role, content));
        assert(messages_view(self.messages@) =~= messages_view(old(self).messages@).push((role, content@)));
    }

    /// Appends a user message and the assistant's answer.
    pub fn add_exchange(&mut self, user_message: &str, assistant_message: &str)
        ensures
            messages_view(final(self).messages@) == messages_view(old(self).messages@).push(
                (Role::User, user_message@),
            ).push((Role::Assistant, assistant_message@)),
    {
        self.add(Role::User, user_message);
        self.add(Role::Assistant, assistant_message);
    }
}

/// The model families: fast, balanced and most capable.
#[derive(Clone, Copy, Debug, PartialEq, Eq, Structural)]
pub enum ModelFamily {
    Haiku,
    Sonnet,
    Opus,
}

/// Whether `needle` occurs in `hay`.
pub open spec fn has_infix(hay: Seq<char>, needle: Seq<char>) -> bool {
    exists|i: int| 0 <= i && i + needle.len() <= hay.len() && #[trigger] hay.subrange(i, i + needle.len()) == needle
}

/// The model a name names: the first of `haiku`, `sonnet`, `opus` that its
/// lowercase form contains.
pub open spec fn model_family_of(s: Seq<char>) -> Option<ModelFamily> {
    let l = lowercase(s);
    if has_infix(l, "haiku"@) {
        Some(ModelFamily::Haiku)
    } else if has_infix(l, "sonnet"@) {
        Some(ModelFamily::Sonnet)
    } else if has_infix(l, "opus"@) {
        Some(ModelFamily::Opus)
    } else {
        None
    }
}

/// Whether `needle` occurs in `hay`.
pub fn contains_infix(hay: &[char], needle: &[char]) -> (r: bool)
    ensures
        r == has_infix(hay@, needle@),
{
    if needle.len() > hay.len() {
        return false;
    }
    let n = hay.len();
    let last = n - needle.len();
    let mut i: usize = 0;
    while i <= last
        invariant
            n == hay@.len(),
            last == hay@.len() - needle@.len(),
            needle@.len() <= hay@.len(),
            i <= last + 1,
            forall|j: int| 0 <= j < i ==> #[trigger] hay@.subrange(j, j + needle@.len()) != needle@,
        decreases last + 1 - i,
    {
        let part = chars_slice(hay, i, i + needle.len());
        if crate::text::chars_eq(part.as_slice(), needle) {
            return true;
        }
        if i == last {
            return false;
        }
        i = i + 1;
    }
    false
}

impl ModelFamily {
    /// The model a name names; see [`model_family_of`]. `None` when it names none.
    pub fn try_from_str(s: &str) -> (r: Option<ModelFamily>)
        ensures
            r == model_family_of(s@),
    {
        let l = to_lowercase(s);
        let lc = chars_of(l.as_str());
        let haiku = chars_of("haiku");
        let sonnet = chars_of("sonnet");
        let opus = chars_of("opus");
        if contains_infix(lc.as_slice(), haiku.as_slice()) {
            Some(ModelFamily::Haiku)
        } else if contains_infix(lc.as_slice(), sonnet.as_slice()) {
            Some(ModelFamily::Sonnet)
        } else if contains_infix(lc.as_slice(), opus.as_slice()) {
            Some(ModelFamily::Opus)
        } else {
            None
        }
    }

    /// The model a name names. A name that names none is refused with a
    /// panic, so it is left out.
    pub fn from_str(s: &str) -> (r: ModelFamily)
        requires
            model_family_of(s@) is Some,
        ensures
            model_family_of(s@) == Some(r),
    {
        match Self::try_from_str(s) {
            Some(m) => m,
            None => {
                assert(false);
                ModelFamily::Haiku
            },
        }
    }

    /// The model family of a capability level.
    pub fn from_general(model: Model) -> (r: ModelFamily)
        ensures
            r == match model {
                Model::Fast => ModelFamily::Haiku,
                Model::Medium => ModelFamily::Sonnet,
                Model::Slow => ModelFamily::Opus,
            },
    {
        match model {
            Model::Fast => ModelFamily::Haiku,
            Model::Medium => ModelFamily::Sonnet,
            Model::Slow => ModelFamily::Opus,
        }
    }
}

/// A message as the chat API takes it.
#[derive(Clone, Debug)]
pub struct ApiMessage {
    pub role: String,
    pub content: String,
}

/// A conversation as the chat API takes it.
#[derive(Clone, Debug)]
pub struct ApiConversation {
    pub messages: Vec<ApiMessage>,
}

/// The API name of a role.
pub open spec fn role_name(r: Role) -> Seq<char> {
    match r {
        Role::System => "system"@,
        Role::User => "user"@,
        Role::Assistant => "assistant"@,
    }
}

impl ApiConversation {
    /// The conversation with each role written by its API name.
    pub fn new(conversation: &Conversation) -> (r: ApiConversation)
        ensures
            r.messages@.len() == conversation.messages@.len(),
            forall|i: int| 0 <= i < r.messages@.len() ==> {
                &&& #[trigger] r.messages@[i].role@ == role_name(conversation.messages@[i].spec_role())
                &&& r.messages@[i].content@ == conversation.messages@[i].spec_content()
            },
    {
        let mut messages: Vec<ApiMessage> = Vec::new();
        let mut i: usize = 0;
        while i < conversation.messages.len()
            invariant
                i <= conversation.messages@.len(),
                messages@.len() == i,
                forall|k: int| 0 <= k < i ==> {
                    &&& #[trigger] messages@[k].role@ == role_name(conversation.messages@[k].spec_role())
                    &&& messages@[k].content@ == conversation.messages@[k].spec_content()
                },
            decreases conversation.messages@.len() - i,
        {
            let m = &conversation.messages[i];
            let role = match m.role() {
                Role::System => "system".to_owned(),
                Role::User => "user".to_owned(),
                Role::Assistant => "assistant".to_owned(),
            };
            messages.push(ApiMessage { role, content: m.content().to_owned() });
            i = i + 1;
        }
        ApiConversation { messages }
    }
}

/// A content block of a chat reply.
#[derive(Clone, Debug)]
pub struct ApiContent {
    pub content_type: String,
    pub text: String,
}

/// Token counts of a chat reply.
#[derive(Clone, Copy, Debug, PartialEq, Eq, Structural)]
pub struct ApiUsage {
    pub input_tokens: u32,
    pub output_tokens: u32,
}

/// A reply of the chat messages API.
#[derive(Clone, Debug)]
pub struct ApiResponse {
    pub id: String,
    pub response_type: String,
    pub role: String,
    pub content: Vec<ApiContent>,
    pub model: String,
    pub stop_reason: String,
    pub stop_sequence: Option<String>,
    pub usage: ApiUsage,
}

impl ApiResponse {
    /// The text of the first content block. A reply without content is
    /// refused with a panic, so it is left out.
    pub fn text(&self) -> (r: String)
        requires
            self.content@.len() > 0,
        ensures
            r@ == self.content@[0].text@,
    {
        let t = self.content[0].text.as_str();
        t.to_owned()
    }
}

/// The pieces of a text between occurrences of `sep`, scanning left to right
/// (what `str::split` with a string pattern gives).
pub open spec fn split_str(cs: Seq<char>, sep: Seq<char>) -> Seq<Seq<char>>
    decreases cs.len(),
{
    if sep.len() == 0 {
        seq![cs]
    } else {
        match first_infix(cs, sep) {
            Some(i) => if 0 <= i && i + sep.len() <= cs.len() {
                seq![cs.subrange(0, i)] + split_str(cs.subrange(i + sep.len(), cs.len() as int), sep)
            } else {
                seq![cs]
            },
            None => seq![cs],
        }
    }
}

/// The position of the first occurrence of `needle` in `hay`.
pub open spec fn first_infix(hay: Seq<char>, needle: Seq<char>) -> Option<int>
    decreases hay.len(),
{
    if needle.len() > hay.len() {
        None
    } else if hay.subrange(0, needle.len() as int) == needle {
        Some(0)
    } else if hay.len() == 0 {
        None
    } else {
        match first_infix(hay.drop_first(), needle) {
            Some(i) => Some(i + 1),
            None => None,
        }
    }
}

proof fn lemma_first_infix_bounds(hay: Seq<char>, needle: Seq<char>)
    ensures
        first_infix(hay, needle) matches Some(i) ==> 0 <= i && i + needle.len() <= hay.len()
            && hay.subrange(i, i + needle.len()) == needle,
    decreases hay.len(),
{
    if needle.len() <= hay.len() && hay.subrange(0, needle.len() as int) != needle && hay.len() > 0 {
        lemma_first_infix_bounds(hay.drop_first(), needle);
        if let Some(i) = first_infix(hay.drop_first(), needle) {
            assert(hay.subrange(i + 1, i + 1 + needle.len()) =~= hay.drop_first().subrange(i, i + needle.len()));
        }
    }
}

/// The code blocks of a text tagged with `extension`: of the pieces between
/// triple backticks, those that start with the tag, with the tag removed.
pub open spec fn codeblocks_spec(text: Seq<char>, extension: Seq<char>) -> Seq<Seq<char>> {
    split_str(text, "```"@).filter(|p: Seq<char>| extension.len() <= p.len() && p.subrange(0, extension.len() as int) == extension)
        .map_values(|p: Seq<char>| p.subrange(extension.len() as int, p.len() as int))
}

/// The code blocks of a reply tagged with `extension` (`"rs"`, `"sh"`, ...).
pub fn extract_codeblocks(text: &str, extension: &str) -> (r: Vec<String>)
    ensures
        r@.map_values(|s: String| s@) == codeblocks_spec(text@, extension@),
{
    let cs = chars_of(text);
    let ext = chars_of(extension);
    let sep = chars_of("```");
    proof {
        reveal_strlit("```");
    }
    let ghost pieces = split_str(cs@, sep@);
    let ghost pred = |p: Seq<char>| ext@.len() <= p.len() && p.subrange(0, ext@.len() as int) == ext@;
    let ghost strip = |p: Seq<char>| p.subrange(ext@.len() as int, p.len() as int);
    let mut out: Vec<String> = Vec::new();
    let mut start: usize = 0;
    let ghost mut done: Seq<Seq<char>> = Seq::empty();
    assert(cs@.subrange(0, cs@.len() as int) =~= cs@);
    loop
        invariant_except_break
            pieces == done + split_str(cs@.subrange(start as int, cs@.len() as int), sep@),
        invariant
            start <= cs@.len(),
            sep@ == "```"@,
            sep@.len() == 3,
            pieces == split_str(cs@, sep@),
            out@.map_values(|s: String| s@) == done.filter(pred).map_values(strip),
            pred == (|p: Seq<char>| ext@.len() <= p.len() && p.subrange(0, ext@.len() as int) == ext@),
            strip == (|p: Seq<char>| p.subrange(ext@.len() as int, p.len() as int)),
        ensures
            pieces == done,
            out@.map_values(|s: String| s@) == done.filter(pred).map_values(strip),
        decreases cs@.len() - start,
    {
        let rest = chars_slice(cs.as_slice(), start, cs.len());
        let found = find_infix(rest.as_slice(), sep.as_slice());
        proof {
            lemma_first_infix_bounds(rest@, sep@);
        }
        let (piece, next) = match found {
            Some(i) => (chars_slice(rest.as_slice(), 0, i), Some(start + i + 3)),
            None => (rest.clone(), None),
        };
        proof {
            assert(rest@ == cs@.subrange(start as int, cs@.len() as int));
            if let Some(i) = found {
                assert(cs@.subrange(start + i + 3, cs@.len() as int) =~= rest@.subrange(i + 3, rest@.len() as int));
            }
        }
        let keep = ext.len() <= piece.len() && crate::text::chars_eq(chars_slice(piece.as_slice(), 0, ext.len()).as_slice(), ext.as_slice());
        let ghost old_done = done;
        let ghost old_out = out@;
        assert(keep == pred(piece@));
        if keep {
            let stripped = chars_slice(piece.as_slice(), ext.len(), piece.len());
            assert(stripped@ == strip(piece@));
            out.push(string_from(stripped.as_slice()));
            assert(out@.map_values(|s: String| s@) =~= old_out.map_values(|s: String| s@).push(strip(piece@)));
        }
        proof {
            done = done.push(piece@);
            reveal(Seq::filter);
            assert(done.drop_last() =~= old_done);
            assert(done.last() == piece@);
            if pred(piece@) {
                assert(done.filter(pred) == old_done.filter(pred).push(piece@));
                assert(done.filter(pred).map_values(strip) =~= old_done.filter(pred).map_values(strip).push(strip(piece@)));
            } else {
                assert(done.filter(pred) == old_done.filter(pred));
            }
            assert(out@.map_values(|s: String| s@) =~= done.filter(pred).map_values(strip));
        }
        match next {
            Some(n) => {
                proof {
                    let r2 = cs@.subrange(n as int, cs@.len() as int);
                    assert(split_str(rest@, sep@) =~= seq![piece@] + split_str(r2, sep@));
                    assert(pieces =~= done + split_str(r2, sep@));
                }
                start = n;
            },
            None => {
                proof {
                    assert(split_str(rest@, sep@) =~= seq![piece@]);
                    assert(pieces =~= done);
                }
                break;
            },
        }
    }
    out
}

/// The position of the first occurrence of `needle` in `hay`.
fn find_infix(hay: &[char], needle: &[char]) -> (r: Option<usize>)
    requires
        needle@.len() > 0,
    ensures
        match first_infix(hay@, needle@) {
            Some(i) => r == Some(i as usize),
            None => r is None,
        },
{
    let mut i: usize = 0;
    assert(hay@.subrange(0, hay@.len() as int) =~= hay@);
    while i < hay.len()
        invariant
            i <= hay@.len(),
            match first_infix(hay@.subrange(i as int, hay@.len() as int), needle@) {
                Some(k) => first_infix(hay@, needle@) == Some(k + i),
                None => first_infix(hay@, needle@) is None,
            },
        decreases hay@.len() - i,
    {
        let ghost t = hay@.subrange(i as int, hay@.len() as int);
        assert(t.drop_first() =~= hay@.subrange(i + 1, hay@.len() as int));
        if needle.len() <= hay.len() - i {
            let part = chars_slice(hay, i, i + needle.len());
            assert(part@ == t.subrange(0, needle@.len() as int));
            if crate::text::chars_eq(part.as_slice(), needle) {
                return Some(i);
            }
        } else {
            return None;
        }
        i = i + 1;
    }
    None
}

} // verus!
