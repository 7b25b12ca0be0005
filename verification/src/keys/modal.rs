//! Trees of modal keybindings: each node maps keys to child nodes, and a
//! terminal node carries the action that its key sequence triggers.

use vstd::prelude::*;

use crate::keys::pressed_chars::{KeyCode, PressedChars};

verus! {

/// A node of a modal keybinding tree.
#[derive(Debug)]
pub struct ModalNode<A> {
    /// Child nodes, by key; a key occurs once.
    pub children: Vec<(char, ModalNode<A>)>,
    /// The action of a terminal node.
    pub action: Option<A>,
    /// A label for the key leading here, shown in hints.
    pub label: Option<&'static str>,
}

/// The child under `key`: the first entry for that key.
pub open spec fn child_of<A>(children: Seq<(char, ModalNode<A>)>, key: char) -> Option<ModalNode<A>>
    decreases children.len(),
{
    if children.len() == 0 {
        None
    } else if children[0].0 == key {
        Some(children[0].1)
    } else {
        child_of(children.drop_first(), key)
    }
}

/// The node with its label replaced.
pub open spec fn labelled<A>(n: ModalNode<A>, label: &'static str) -> ModalNode<A> {
    ModalNode { children: n.children, action: n.action, label: Some(label) }
}

proof fn lemma_child_of_index<A>(children: Seq<(char, ModalNode<A>)>, key: char, i: int)
    requires
        0 <= i < children.len(),
        children[i].0 == key,
        forall|j: int| 0 <= j < i ==> children[j].0 != key,
    ensures
        child_of(children, key) == Some(children[i].1),
    decreases i,
{
    if i > 0 {
        lemma_child_of_index(children.drop_first(), key, i - 1);
    }
}

proof fn lemma_child_of_update<A>(children: Seq<(char, ModalNode<A>)>, i: int, entry: (char, ModalNode<A>), k: char)
    requires
        0 <= i < children.len(),
        children[i].0 == entry.0,
        k != entry.0,
    ensures
        child_of(children.update(i, entry), k) == child_of(children, k),
    decreases children.len(),
{
    if i > 0 {
        assert(children.update(i, entry).drop_first() =~= children.drop_first().update(i - 1, entry));
        assert(children.update(i, entry)[0] == children[0]);
        lemma_child_of_update(children.drop_first(), i - 1, entry, k);
    } else {
        assert(children.update(i, entry).drop_first() =~= children.drop_first());
    }
}

proof fn lemma_child_of_push<A>(children: Seq<(char, ModalNode<A>)>, entry: (char, ModalNode<A>), k: char)
    ensures
        child_of(children.push(entry), k) == match child_of(children, k) {
            Some(n) => Some(n),
            None => if k == entry.0 { Some(entry.1) } else { None },
        },
    decreases children.len(),
{
    if children.len() > 0 {
        assert(children.push(entry).drop_first() =~= children.drop_first().push(entry));
        assert(children.push(entry)[0] == children[0]);
        lemma_child_of_push(children.drop_first(), entry, k);
    } else {
        assert(children.push(entry).drop_first() =~= Seq::<(char, ModalNode<A>)>::empty());
        assert(children.push(entry)[0] == entry);
        assert(child_of(children.push(entry).drop_first(), k) is None);
        assert(child_of(children, k) is None);
    }
}

impl<A> ModalNode<A> {
    /// A node with no children and no action.
    pub fn new() -> (r: ModalNode<A>)
        ensures
            r.children@.len() == 0,
            r.action is None,
            r.label is None,
    {
        ModalNode { children: Vec::new(), action: None, label: None }
    }

    /// Adds (or replaces) the child under `key`, labelled `label`.
    pub fn child(self, key: char, label: &'static str, node: ModalNode<A>) -> (r: ModalNode<A>)
        ensures
            r.action == self.action,
            r.label == self.label,
            child_of(r.children@, key) == Some(labelled(node, label)),
            forall|k: char| k != key ==> child_of(r.children@, k) == child_of(self.children@, k),
    {
        let ghost target = labelled(node, label);
        let child_node = ModalNode { children: node.children, action: node.action, label: Some(label) };
        assert(child_node == target);
        let mut me = self;
        let mut i: usize = 0;
        while i < me.children.len()
            invariant
                i <= me.children@.len(),
                me.action == self.action,
                me.label == self.label,
                me.children@ == self.children@,
                child_node == target,
                target == labelled(node, label),
                forall|j: int| 0 <= j < i ==> me.children@[j].0 != key,
            decreases me.children@.len() - i,
        {
            if me.children[i].0 == key {
                let ghost before = me.children@;
                let entry = (key, child_node);
                proof {
                    assert forall|k: char| k != key implies child_of(before.update(i as int, entry), k) == child_of(before, k) by {
                        lemma_child_of_update(before, i as int, entry, k);
                    }
                    lemma_child_of_index(before.update(i as int, entry), key, i as int);
                }
                let mut children = me.children;
                children.set(i, entry);
                return ModalNode { children, action: me.action, label: me.label };
            }
            i = i + 1;
        }
        let ghost before = me.children@;
        proof {
            assert(child_of(before, key) is None) by {
                if child_of(before, key) is Some {
                    lemma_child_of_some(before, key);
                }
            }
            assert forall|k: char| #![auto] true implies child_of(before.push((key, child_node)), k) == match child_of(before, k) {
                Some(n) => Some(n),
                None => if k == key { Some(child_node) } else { None },
            } by {
                lemma_child_of_push(before, (key, child_node), k);
            }
        }
        me.children.push((key, child_node));
        me
    }

    /// A terminal node triggering `action`.
    pub fn action(action: A) -> (r: ModalNode<A>)
        ensures
            r.children@.len() == 0,
            r.action == Some(action),
            r.label is None,
    {
        ModalNode { children: Vec::new(), action: Some(action), label: None }
    }

    /// Whether any key leads on from this node.
    pub fn has_children(&self) -> (r: bool)
        ensures
            r == (self.children@.len() > 0),
    {
        self.children.len() > 0
    }

    /// Whether this node triggers an action.
    pub fn is_terminal(&self) -> (r: bool)
        ensures
            r == (self.action is Some),
    {
        self.action.is_some()
    }
}

impl<A> Default for ModalNode<A> {
    /// A node with no children, no action and no label.
    fn default() -> (r: ModalNode<A>)
        ensures
            r.children@.len() == 0,
            r.action is None,
            r.label is None,
    {
        ModalNode { children: Vec::new(), action: None, label: None }
    }
}

proof fn lemma_child_of_some<A>(children: Seq<(char, ModalNode<A>)>, key: char)
    requires
        child_of(children, key) is Some,
    ensures
        exists|j: int| 0 <= j < children.len() && children[j].0 == key,
    decreases children.len(),
{
    if children[0].0 != key {
        lemma_child_of_some(children.drop_first(), key);
        let j = choose|j: int| 0 <= j < children.drop_first().len() && children.drop_first()[j].0 == key;
        assert(children[j + 1].0 == key);
    }
}

/// The node reached from `n` by following `keys`, if every key leads on.
pub open spec fn node_at<A>(n: ModalNode<A>, keys: Seq<char>) -> Option<ModalNode<A>>
    decreases keys.len(),
{
    if keys.len() == 0 {
        Some(n)
    } else {
        match node_at(n, keys.drop_last()) {
            Some(m) => child_of(m.children@, keys.last()),
            None => None,
        }
    }
}

/// What advancing through single-child nodes from `n` does: the keys
/// walked, and the action of the terminal node it ends on, if any. It stops
/// at a node with no child or several, or at a terminal node.
pub open spec fn advance<A>(n: ModalNode<A>) -> (Seq<char>, Option<A>)
    decreases n,
{
    if n.children@.len() != 1 {
        (Seq::empty(), None)
    } else {
        let entry = n.children@[0];
        if entry.1.action is Some {
            (seq![entry.0], entry.1.action)
        } else {
            proof {
                assert(decreases_to!(n => n.children));
                assert(decreases_to!(n.children => n.children@));
                assert(decreases_to!(n.children@ => n.children@[0]));
                assert(decreases_to!(n.children@[0] => n.children@[0].1));
            }
            let rest = advance(entry.1);
            (seq![entry.0] + rest.0, rest.1)
        }
    }
}

impl<A> ModalNode<A> {
    /// The child under `key`.
    pub fn child_ref(&self, key: char) -> (r: Option<&ModalNode<A>>)
        ensures
            child_of(self.children@, key) is None ==> r is None,
            child_of(self.children@, key) is Some ==> r is Some && *r->0 == child_of(self.children@, key)->0,
    {
        let mut i: usize = 0;
        while i < self.children.len()
            invariant
                i <= self.children@.len(),
                forall|j: int| 0 <= j < i ==> self.children@[j].0 != key,
            decreases self.children@.len() - i,
        {
            if self.children[i].0 == key {
                proof {
                    lemma_child_of_index(self.children@, key, i as int);
                }
                return Some(&self.children[i].1);
            }
            i = i + 1;
        }
        proof {
            if child_of(self.children@, key) is Some {
                lemma_child_of_some(self.children@, key);
            }
        }
        None
    }
}

/// How long after the last key of a sequence its hints show, in microseconds.
pub const MODAL_HINT_TIMEOUT_US: u64 = 150_000;

/// Where a modal key sequence stands.
#[derive(Debug)]
pub struct ModalState<A> {
    /// The root of the keybinding tree.
    pub root: ModalNode<A>,
    /// The keys of the sequence so far.
    pub sequence: Vec<char>,
    /// Time since the last key of the sequence, in microseconds.
    pub since_last_key_us: u64,
    /// Whether the hints popup shows.
    pub hints_visible: bool,
    /// Whether a sequence is under way.
    pub active: bool,
    /// Whether the full help shows.
    pub show_help: bool,
}

/// What a modal state holds besides its tree.
pub ghost struct ModalView {
    pub sequence: Seq<char>,
    pub since_last_key_us: u64,
    pub hints_visible: bool,
    pub active: bool,
    pub show_help: bool,
}

impl<A> View for ModalState<A> {
    type V = ModalView;

    open spec fn view(&self) -> ModalView {
        ModalView {
            sequence: self.sequence@,
            since_last_key_us: self.since_last_key_us,
            hints_visible: self.hints_visible,
            active: self.active,
            show_help: self.show_help,
        }
    }
}

/// The state at rest: no sequence, nothing shown.
pub open spec fn rest_view() -> ModalView {
    ModalView {
        sequence: Seq::empty(),
        since_last_key_us: 0,
        hints_visible: false,
        active: false,
        show_help: false,
    }
}

/// The node the keys `seq` lead to from `root`.
pub open spec fn current_of<A>(root: ModalNode<A>, seq: Seq<char>) -> Option<ModalNode<A>> {
    node_at(root, seq)
}

/// What pressing `key` after `seq` leads to: the keys the sequence grows
/// by, and the action of the terminal node reached (taken from the tree).
/// `None` when the key leads nowhere.
pub open spec fn press_outcome<A>(root: ModalNode<A>, seq: Seq<char>, key: char) -> Option<(Seq<char>, Option<A>)> {
    match node_at(root, seq) {
        None => None,
        Some(c) => match child_of(c.children@, key) {
            None => None,
            Some(nx) => if nx.action is Some {
                Some((seq![key], nx.action))
            } else {
                let adv = advance(nx);
                Some((seq![key] + adv.0, adv.1))
            },
        },
    }
}

/// The state after pressing `key`, and the action fired.
pub open spec fn pressed<A>(root: ModalNode<A>, v: ModalView, key: char) -> (ModalView, Option<A>) {
    match press_outcome(root, v.sequence, key) {
        None => (v, None),
        Some(o) => match o.1 {
            Some(a) => (rest_view(), Some(a)),
            None => (
                ModalView {
                    sequence: v.sequence + o.0,
                    since_last_key_us: 0,
                    hints_visible: false,
                    active: true,
                    show_help: v.show_help,
                },
                None,
            ),
        },
    }
}

/// Whether `key` leads on from where `v` stands (from the root when the
/// sequence leads nowhere).
pub open spec fn valid_key<A>(root: ModalNode<A>, v: ModalView, key: char) -> bool {
    match node_at(root, v.sequence) {
        Some(c) => child_of(c.children@, key) is Some,
        None => child_of(root.children@, key) is Some,
    }
}

/// One key of a frame: in a sequence, a key that leads on is pressed and
/// any other key ends the sequence; at rest only a key of the root starts one.
pub open spec fn key_step<A>(root: ModalNode<A>, v: ModalView, key: char) -> (ModalView, Option<A>) {
    if v.active {
        if valid_key(root, v, key) {
            pressed(root, v, key)
        } else {
            (rest_view(), None)
        }
    } else if child_of(root.children@, key) is Some {
        pressed(root, v, key)
    } else {
        (v, None)
    }
}

/// The keys of a frame, one after another: the state after them, and the
/// actions fired, in order.
pub open spec fn run_keys<A>(root: ModalNode<A>, v: ModalView, keys: Seq<char>) -> (ModalView, Seq<A>)
    decreases keys.len(),
{
    if keys.len() == 0 {
        (v, Seq::empty())
    } else {
        let before = run_keys(root, v, keys.drop_last());
        let step = key_step(root, before.0, keys.last());
        (
            step.0,
            match step.1 {
                Some(a) => before.1.push(a),
                None => before.1,
            },
        )
    }
}

/// The state before the keys of a frame: help is dismissed by any key, and
/// a running sequence ages by `delta_us`, its hints showing once the
/// timeout is reached.
pub open spec fn frame_start(v: ModalView, any_key: bool, delta_us: u64) -> ModalView {
    let v1 = if v.show_help && any_key {
        rest_view()
    } else {
        v
    };
    if v1.active {
        let t = if v1.since_last_key_us + delta_us > u64::MAX {
            u64::MAX
        } else {
            (v1.since_last_key_us + delta_us) as u64
        };
        ModalView { since_last_key_us: t, hints_visible: v1.hints_visible || t >= MODAL_HINT_TIMEOUT_US, ..v1 }
    } else {
        v1
    }
}

/// A whole frame: Escape during a sequence or help goes back to rest and
/// ignores the frame's keys; otherwise see [`frame_start`] and [`run_keys`].
pub open spec fn frame<A>(root: ModalNode<A>, v: ModalView, escape: bool, keys: Seq<char>, delta_us: u64) -> (ModalView, Seq<A>) {
    if escape && (v.active || v.show_help) {
        (rest_view(), Seq::empty())
    } else {
        run_keys(root, frame_start(v, keys.len() > 0, delta_us), keys)
    }
}

impl<A: Clone> ModalState<A> {
    /// A state at rest over the tree `root`.
    pub fn new(root: ModalNode<A>) -> (r: ModalState<A>)
        ensures
            r.root == root,
            r@ == rest_view(),
    {
        ModalState {
            root,
            sequence: Vec::new(),
            since_last_key_us: 0,
            hints_visible: false,
            active: false,
            show_help: false,
        }
    }

    /// The node of the keys pressed so far; `None` when they lead nowhere.
    pub fn current_node(&self) -> (r: Option<&ModalNode<A>>)
        ensures
            current_of(self.root, self.sequence@) is None ==> r is None,
            current_of(self.root, self.sequence@) is Some ==> r is Some && *r->0 == current_of(
                self.root,
                self.sequence@,
            )->0,
    {
        let mut node: &ModalNode<A> = &self.root;
        let mut i: usize = 0;
        while i < self.sequence.len()
            invariant
                i <= self.sequence@.len(),
                node_at(self.root, self.sequence@.take(i as int)) == Some(*node),
            decreases self.sequence@.len() - i,
        {
            let key = self.sequence[i];
            assert(self.sequence@.take(i + 1).drop_last() =~= self.sequence@.take(i as int));
            match node.child_ref(key) {
                Some(next) => {
                    node = next;
                },
                None => {
                    proof {
                        lemma_node_at_none(self.root, self.sequence@, i + 1);
                    }
                    return None;
                },
            }
            i = i + 1;
        }
        assert(self.sequence@.take(i as int) =~= self.sequence@);
        Some(node)
    }

    /// Back to rest: the sequence cleared, nothing shown.
    pub fn reset(&mut self)
        ensures
            final(self).root == old(self).root,
            final(self)@ == rest_view(),
    {
        self.sequence.clear();
        self.since_last_key_us = 0;
        self.hints_visible = false;
        self.active = false;
        self.show_help = false;
    }

    /// Presses `key`. When it leads on from the current node, the sequence
    /// grows by it and then walks on through nodes with a single child; on
    /// reaching a terminal node the state goes back to rest and a copy of
    /// that node's action comes back. A key that leads nowhere changes
    /// nothing.
    pub fn process_key(&mut self, key: char) -> (r: Option<A>)
        ensures
            final(self).root == old(self).root,
            final(self)@ == pressed(old(self).root, old(self)@, key).0,
            pressed(old(self).root, old(self)@, key).1 is None ==> r is None,
            pressed(old(self).root, old(self)@, key).1 is Some ==> r is Some && cloned(
                pressed(old(self).root, old(self)@, key).1->0,
                r->0,
            ),
    {
        let (fired, mut keys): (Option<A>, Vec<char>) = {
            let cur = match self.current_node() {
                Some(c) => c,
                None => return None,
            };
            let next = match cur.child_ref(key) {
                Some(n) => n,
                None => return None,
            };
            let mut ks: Vec<char> = Vec::new();
            ks.push(key);
            if next.action.is_some() {
                (action_of(next), ks)
            } else {
                let a = advance_into(next, &mut ks);
                (a, ks)
            }
        };
        self.sequence.append(&mut keys);
        self.since_last_key_us = 0;
        self.hints_visible = false;
        self.active = true;
        if fired.is_some() {
            self.reset();
        }
        fired
    }

    /// Whether `key` leads on from where the sequence stands (from the root
    /// when the sequence leads nowhere).
    pub fn is_valid_key(&self, key: char) -> (r: bool)
        ensures
            r == valid_key(self.root, self@, key),
    {
        match self.current_node() {
            Some(cur) => cur.child_ref(key).is_some(),
            None => self.root.child_ref(key).is_some(),
        }
    }
}

/// A copy of the action a node carries.
fn action_of<A: Clone>(n: &ModalNode<A>) -> (r: Option<A>)
    ensures
        n.action is None ==> r is None,
        n.action is Some ==> r is Some && cloned(n.action->0, r->0),
{
    match &n.action {
        Some(a) => Some(a.clone()),
        None => None,
    }
}

/// Walks single-child nodes down from `node`, pushing their keys onto
/// `keys`; returns a copy of the action of the terminal node it ends on.
fn advance_into<A: Clone>(node: &ModalNode<A>, keys: &mut Vec<char>) -> (r: Option<A>)
    ensures
        final(keys)@ == old(keys)@ + advance(*node).0,
        advance(*node).1 is None ==> r is None,
        advance(*node).1 is Some ==> r is Some && cloned(advance(*node).1->0, r->0),
    decreases node,
{
    if node.children.len() != 1 {
        assert(old(keys)@ + Seq::<char>::empty() =~= old(keys)@);
        return None;
    }
    let k = node.children[0].0;
    let child = &node.children[0].1;
    keys.push(k);
    if child.action.is_some() {
        return action_of(child);
    }
    proof {
        assert(decreases_to!(node => node.children));
        assert(decreases_to!(node.children => node.children@));
        assert(decreases_to!(node.children@ => node.children@[0]));
        assert(decreases_to!(node.children@[0] => node.children@[0].1));
    }
    let ghost mid = keys@;
    let r = advance_into(child, keys);
    assert(old(keys)@ + (seq![k] + advance(*child).0) =~= mid + advance(*child).0);
    r
}

/// Whether Escape is among `keys`.
fn has_escape(keys: &Vec<KeyCode>) -> (r: bool)
    ensures
        r == keys@.contains(KeyCode::Escape),
{
    let mut i: usize = 0;
    while i < keys.len()
        invariant
            i <= keys@.len(),
            forall|j: int| 0 <= j < i ==> keys@[j] != KeyCode::Escape,
        decreases keys@.len() - i,
    {
        if keys[i] == KeyCode::Escape {
            assert(keys@[i as int] == KeyCode::Escape);
            return true;
        }
        i = i + 1;
    }
    false
}

/// Drives `modal_state` through one frame of input: `delta_us` is the time
/// since the last frame, in microseconds. Returns copies of the actions the
/// frame's keys fired, in order; see [`frame`].
pub fn update_modal_state<A: Clone>(delta_us: u64, pressed_chars: &PressedChars, modal_state: &mut ModalState<A>) -> (r: Vec<A>)
    ensures
        final(modal_state).root == old(modal_state).root,
        final(modal_state)@ == frame(
            old(modal_state).root,
            old(modal_state)@,
            pressed_chars.logical_keys_just_pressed@.contains(KeyCode::Escape),
            pressed_chars.just_pressed@,
            delta_us,
        ).0,
        r@.len() == frame(
            old(modal_state).root,
            old(modal_state)@,
            pressed_chars.logical_keys_just_pressed@.contains(KeyCode::Escape),
            pressed_chars.just_pressed@,
            delta_us,
        ).1.len(),
        forall|i: int|
            0 <= i < r@.len() ==> cloned(
                #[trigger] frame(
                    old(modal_state).root,
                    old(modal_state)@,
                    pressed_chars.logical_keys_just_pressed@.contains(KeyCode::Escape),
                    pressed_chars.just_pressed@,
                    delta_us,
                ).1[i],
                r@[i],
            ),
{
    let escape = has_escape(&pressed_chars.logical_keys_just_pressed);
    if escape && (modal_state.active || modal_state.show_help) {
        modal_state.reset();
        return Vec::new();
    }
    let keys = &pressed_chars.just_pressed;
    if modal_state.show_help && keys.len() > 0 {
        modal_state.reset();
    }
    if modal_state.active {
        modal_state.since_last_key_us = modal_state.since_last_key_us.saturating_add(delta_us);
        if modal_state.since_last_key_us >= MODAL_HINT_TIMEOUT_US && !modal_state.hints_visible {
            modal_state.hints_visible = true;
        }
    }
    let ghost root = old(modal_state).root;
    let ghost start = modal_state@;
    assert(start == frame_start(old(modal_state)@, keys@.len() > 0, delta_us));
    let mut fired: Vec<A> = Vec::new();
    let mut i: usize = 0;
    while i < keys.len()
        invariant
            i <= keys@.len(),
            modal_state.root == root,
            modal_state@ == run_keys(root, start, keys@.take(i as int)).0,
            fired@.len() == run_keys(root, start, keys@.take(i as int)).1.len(),
            forall|j: int|
                0 <= j < fired@.len() ==> cloned(#[trigger] run_keys(root, start, keys@.take(i as int)).1[j], fired@[j]),
        decreases keys@.len() - i,
    {
        let key = keys[i];
        let ghost before = run_keys(root, start, keys@.take(i as int));
        assert(keys@.take(i + 1).drop_last() =~= keys@.take(i as int));
        assert(keys@.take(i + 1).last() == key);
        if modal_state.active {
            if modal_state.is_valid_key(key) {
                if let Some(a) = modal_state.process_key(key) {
                    fired.push(a);
                }
            } else {
                modal_state.reset();
            }
        } else if modal_state.root.child_ref(key).is_some() {
            if let Some(a) = modal_state.process_key(key) {
                fired.push(a);
            }
        }
        i = i + 1;
    }
    assert(keys@.take(i as int) =~= keys@);
    fired
}

/// Following `a` then `b` is following `a + b`.
proof fn lemma_node_at_concat<A>(n: ModalNode<A>, a: Seq<char>, b: Seq<char>)
    ensures
        node_at(n, a + b) == match node_at(n, a) {
            Some(m) => node_at(m, b),
            None => None,
        },
    decreases b.len(),
{
    if b.len() == 0 {
        assert(a + b =~= a);
    } else {
        assert((a + b).drop_last() =~= a + b.drop_last());
        assert((a + b).last() == b.last());
        lemma_node_at_concat(n, a, b.drop_last());
    }
}

/// The keys an advance walks lead to a node.
proof fn lemma_advance_path<A>(n: ModalNode<A>)
    ensures
        node_at(n, advance(n).0) is Some,
    decreases n,
{
    if n.children@.len() == 1 {
        let entry = n.children@[0];
        let k = seq![entry.0];
        assert(k.drop_last() =~= Seq::<char>::empty());
        assert(node_at(n, k.drop_last()) == Some(n));
        assert(child_of(n.children@, entry.0) == Some(entry.1));
        assert(node_at(n, k) == Some(entry.1));
        if entry.1.action is None {
            assert(decreases_to!(n => n.children));
            assert(decreases_to!(n.children => n.children@));
            assert(decreases_to!(n.children@ => n.children@[0]));
            assert(decreases_to!(n.children@[0] => n.children@[0].1));
            lemma_advance_path(entry.1);
            lemma_node_at_concat(n, k, advance(entry.1).0);
        }
    } else {
        assert(advance(n).0 =~= Seq::<char>::empty());
    }
}

/// A key step keeps the sequence on a path of the tree.
proof fn lemma_key_step_in_tree<A>(root: ModalNode<A>, v: ModalView, key: char)
    requires
        node_at(root, v.sequence) is Some,
    ensures
        node_at(root, key_step(root, v, key).0.sequence) is Some,
{
    assert(rest_view().sequence.len() == 0);
    match press_outcome(root, v.sequence, key) {
        None => {},
        Some(o) => {
            let c = node_at(root, v.sequence)->0;
            let nx = child_of(c.children@, key)->0;
            let k = seq![key];
            assert(k.drop_last() =~= Seq::<char>::empty());
            assert(node_at(c, k.drop_last()) == Some(c));
            assert(node_at(c, k) == Some(nx));
            lemma_node_at_concat(root, v.sequence, k);
            if nx.action is None {
                lemma_advance_path(nx);
                lemma_node_at_concat(c, k, advance(nx).0);
                lemma_node_at_concat(root, v.sequence, o.0);
            }
        },
    }
}

/// Law: the keys of a modal sequence always lead to a node of its tree:
/// every frame keeps this of a state that starts with it.
pub proof fn law_sequence_stays_in_tree<A>(
    root: ModalNode<A>,
    v: ModalView,
    escape: bool,
    keys: Seq<char>,
    delta_us: u64,
)
    requires
        node_at(root, v.sequence) is Some,
    ensures
        node_at(root, frame(root, v, escape, keys, delta_us).0.sequence) is Some,
{
    assert(rest_view().sequence.len() == 0);
    lemma_run_keys_in_tree(root, frame_start(v, keys.len() > 0, delta_us), keys);
}

/// The keys of a frame keep the sequence on a path of the tree.
proof fn lemma_run_keys_in_tree<A>(root: ModalNode<A>, v: ModalView, keys: Seq<char>)
    requires
        node_at(root, v.sequence) is Some,
    ensures
        node_at(root, run_keys(root, v, keys).0.sequence) is Some,
    decreases keys.len(),
{
    if keys.len() > 0 {
        lemma_run_keys_in_tree(root, v, keys.drop_last());
        lemma_key_step_in_tree(root, run_keys(root, v, keys.drop_last()).0, keys.last());
    }
}

/// Once the keys lead nowhere, longer sequences lead nowhere either.
proof fn lemma_node_at_none<A>(n: ModalNode<A>, keys: Seq<char>, i: int)
    requires
        0 < i <= keys.len(),
        node_at(n, keys.take(i)) is None,
    ensures
        node_at(n, keys) is None,
    decreases keys.len() - i,
{
    if i < keys.len() {
        assert(keys.take(i + 1).drop_last() =~= keys.take(i));
        lemma_node_at_none(n, keys, i + 1);
    } else {
        assert(keys.take(i) =~= keys);
    }
}

/// The action a completed key sequence fired.
#[derive(Clone, Debug, PartialEq, Eq)]
pub struct ModalActionFired<A>(pub A);

} // verus!
