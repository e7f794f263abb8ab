//! The chat client's state and its update rules.
//!
//! The state is a roster of user profiles, an ordered message feed,
//! and a dark-mode flag.  One step function, `step`, says for every
//! UI event and every inbound frame what the next state is, whether
//! the view must be redrawn, and what the unverified shell has to do
//! next; `Chat::update` implements exactly that function.

use vstd::prelude::*;
use crate::envelope::{
    MessageData, MessageView, MsgTypes, parse_envelope, parse_envelope_str, parse_message_data,
    parse_message_data_str,
};
use crate::ui::{avatar_url, avatar_url_spec, str_eq};

verus! {

// ---------------------------------------------------------------------
// Events and state
// ---------------------------------------------------------------------

/// A UI event or an inbound socket frame.
pub enum Msg {
    HandleMsg(String),
    SubmitMessage,
    ToggleDarkMode,
    ReactToMessage(usize, String),
}

/// Mathematical model of an event.
pub enum MsgView {
    HandleMsg(Seq<char>),
    SubmitMessage,
    ToggleDarkMode,
    ReactToMessage(int, Seq<char>),
}

impl View for Msg {
    type V = MsgView;

    open spec fn view(&self) -> MsgView {
        match self {
            Msg::HandleMsg(s) => MsgView::HandleMsg(s@),
            Msg::SubmitMessage => MsgView::SubmitMessage,
            Msg::ToggleDarkMode => MsgView::ToggleDarkMode,
            Msg::ReactToMessage(i, e) => MsgView::ReactToMessage(*i as int, e@),
        }
    }
}

/// A roster entry: display name and derived avatar URL.
pub struct UserProfile {
    pub name: String,
    pub avatar: String,
}

/// Mathematical model of a roster entry.
#[verifier::ext_equal]
pub struct UserView {
    pub name: Seq<char>,
    pub avatar: Seq<char>,
}

impl View for UserProfile {
    type V = UserView;

    open spec fn view(&self) -> UserView {
        UserView { name: self.name@, avatar: self.avatar@ }
    }
}

/// The chat client's state.
pub struct Chat {
    pub users: Vec<UserProfile>,
    pub messages: Vec<MessageData>,
    pub is_dark_mode: bool,
}

/// Mathematical model of the client's state.
#[verifier::ext_equal]
pub struct ChatView {
    pub users: Seq<UserView>,
    pub messages: Seq<MessageView>,
    pub is_dark_mode: bool,
}

impl View for Chat {
    type V = ChatView;

    open spec fn view(&self) -> ChatView {
        ChatView {
            users: self.users@.map_values(|u: UserProfile| u@),
            messages: self.messages@.map_values(|m: MessageData| m@),
            is_dark_mode: self.is_dark_mode,
        }
    }
}

/// What the unverified shell must do after an update.
#[derive(Debug, Clone, Copy, PartialEq, Eq, Structural)]
pub enum Effect {
    /// Nothing beyond redrawing, if asked to.
    Nothing,
    /// Read the input box; if it holds text, send it with
    /// `message_frame` and clear the box.
    SubmitInput,
}

// ---------------------------------------------------------------------
// The step function
// ---------------------------------------------------------------------

/// The state a fresh client starts in.
pub open spec fn init_chat() -> ChatView {
    ChatView { users: Seq::empty(), messages: Seq::empty(), is_dark_mode: false }
}

/// The state with the dark-mode flag flipped.
pub open spec fn toggled(v: ChatView) -> ChatView {
    ChatView { is_dark_mode: !v.is_dark_mode, ..v }
}

/// A message's reaction list, the empty list when it has none yet.
pub open spec fn reactions_or_empty(m: MessageView) -> Seq<Seq<char>> {
    match m.reactions {
        Some(r) => r,
        None => Seq::empty(),
    }
}

/// The state after one emoji is appended to the message at `i`; a
/// stale index leaves the state as it was.
pub open spec fn with_reaction(v: ChatView, i: int, emoji: Seq<char>) -> ChatView {
    if 0 <= i < v.messages.len() {
        let m = v.messages[i];
        ChatView {
            messages: v.messages.update(
                i,
                MessageView { reactions: Some(reactions_or_empty(m).push(emoji)), ..m },
            ),
            ..v
        }
    } else {
        v
    }
}

/// The profile shown for a display name.
pub open spec fn profile_for(name: Seq<char>) -> UserView {
    UserView { name: name, avatar: avatar_url_spec(name) }
}

/// The state with the roster rebuilt wholesale from `names`.
pub open spec fn with_roster(v: ChatView, names: Seq<Seq<char>>) -> ChatView {
    ChatView { users: names.map_values(|n: Seq<char>| profile_for(n)), ..v }
}

/// The state with one message appended to the feed.
pub open spec fn with_message(v: ChatView, m: MessageView) -> ChatView {
    ChatView { messages: v.messages.push(m), ..v }
}

/// What an inbound frame does to the state: a `users` frame replaces
/// the roster, a `message` frame appends one message, everything
/// else — other tags, malformed text — is dropped without a redraw.
pub open spec fn frame_step(v: ChatView, s: Seq<char>) -> (ChatView, bool) {
    match parse_envelope(s) {
        None => (v, false),
        Some(env) => match env.message_type {
            MsgTypes::Users => (
                with_roster(
                    v,
                    match env.data_array {
                        Some(a) => a,
                        None => Seq::empty(),
                    },
                ),
                true,
            ),
            MsgTypes::Message => match env.data {
                Some(d) => match parse_message_data(d) {
                    Some(m) => (with_message(v, m), true),
                    None => (v, false),
                },
                None => (v, false),
            },
            _ => (v, false),
        },
    }
}

/// The full update rule: next state, redraw flag, and the effect the
/// shell must perform.
pub open spec fn step(v: ChatView, m: MsgView) -> (ChatView, bool, Effect) {
    match m {
        MsgView::HandleMsg(s) => {
            let r = frame_step(v, s);
            (r.0, r.1, Effect::Nothing)
        },
        MsgView::SubmitMessage => (v, false, Effect::SubmitInput),
        MsgView::ToggleDarkMode => (toggled(v), true, Effect::Nothing),
        MsgView::ReactToMessage(i, e) => (with_reaction(v, i, e), true, Effect::Nothing),
    }
}

// ---------------------------------------------------------------------
// The client
// ---------------------------------------------------------------------

impl Chat {
    /// A fresh client: empty roster, empty feed, light mode.
    pub fn new() -> (c: Chat)
        ensures
            c@ == init_chat(),
    {
        let c = Chat { users: Vec::new(), messages: Vec::new(), is_dark_mode: false };
        proof {
            assert(c@ =~~= init_chat());
        }
        c
    }

    /// Applies an inbound frame's text to the state.
    pub fn handle_frame(&mut self, s: &str) -> (redraw: bool)
        ensures
            final(self)@ == frame_step(old(self)@, s@).0,
            redraw == frame_step(old(self)@, s@).1,
    {
        match parse_envelope_str(s) {
            None => false,
            Some(env) => {
                let ghost ev = env@;
                match env.message_type {
                    MsgTypes::Users => {
                        let names: Vec<String> = match env.data_array {
                            Some(a) => a,
                            None => Vec::new(),
                        };
                        let ghost names_v = match ev.data_array {
                            Some(a) => a,
                            None => Seq::<Seq<char>>::empty(),
                        };
                        proof {
                            assert(names.deep_view() =~~= names_v);
                        }
                        let mut roster: Vec<UserProfile> = Vec::new();
                        let mut k: usize = 0;
                        while k < names.len()
                            invariant
                                k <= names@.len(),
                                roster@.len() == k,
                                forall|j: int|
                                    0 <= j < k ==> #[trigger] roster@[j]@ == profile_for(
                                        names@[j]@,
                                    ),
                            decreases names@.len() - k,
                        {
                            let prof = UserProfile {
                                name: names[k].clone(),
                                avatar: avatar_url(names[k].as_str()),
                            };
                            roster.push(prof);
                            k = k + 1;
                        }
                        self.users = roster;
                        proof {
                            assert(self@ =~~= with_roster(old(self)@, names_v));
                        }
                        true
                    },
                    MsgTypes::Message => {
                        match env.data {
                            Some(d) => {
                                match parse_message_data_str(d.as_str()) {
                                    Some(m) => {
                                        let ghost mv = m@;
                                        self.messages.push(m);
                                        proof {
                                            assert(self@ =~~= with_message(old(self)@, mv));
                                        }
                                        true
                                    },
                                    None => false,
                                }
                            },
                            None => false,
                        }
                    },
                    MsgTypes::Register => false,
                    MsgTypes::Reaction => false,
                }
            },
        }
    }

    /// Appends one emoji to the message at `index`; a stale index is
    /// ignored.
    pub fn react_to_message(&mut self, index: usize, emoji: String)
        ensures
            final(self)@ == with_reaction(old(self)@, index as int, emoji@),
    {
        if index < self.messages.len() {
            let m = self.messages.remove(index);
            let MessageData { from, message, reactions } = m;
            let mut rs: Vec<String> = match reactions {
                Some(v) => v,
                None => Vec::new(),
            };
            rs.push(emoji);
            let m2 = MessageData { from, message, reactions: Some(rs) };
            self.messages.insert(index, m2);
            proof {
                let ghost old_msgs = old(self).messages@;
                assert(self.messages@ =~= old_msgs.update(index as int, m2));
                assert(m2@.reactions->Some_0 =~~= reactions_or_empty(
                    old_msgs[index as int]@,
                ).push(emoji@));
                assert(self@ =~~= with_reaction(old(self)@, index as int, emoji@));
            }
        }
    }

    /// Flips the colour mode.
    pub fn toggle_dark_mode(&mut self)
        ensures
            final(self)@ == toggled(old(self)@),
    {
        self.is_dark_mode = !self.is_dark_mode;
        proof {
            assert(self@ =~~= toggled(old(self)@));
        }
    }

    /// One step of the client: applies `msg` to the state and returns
    /// the redraw flag and the effect the shell must perform.
    pub fn update(&mut self, msg: Msg) -> (r: (bool, Effect))
        ensures
            final(self)@ == step(old(self)@, msg@).0,
            r.0 == step(old(self)@, msg@).1,
            r.1 == step(old(self)@, msg@).2,
    {
        match msg {
            Msg::HandleMsg(s) => {
                let redraw = self.handle_frame(s.as_str());
                (redraw, Effect::Nothing)
            },
            Msg::SubmitMessage => (false, Effect::SubmitInput),
            Msg::ToggleDarkMode => {
                self.toggle_dark_mode();
                (true, Effect::Nothing)
            },
            Msg::ReactToMessage(index, emoji) => {
                self.react_to_message(index, emoji);
                (true, Effect::Nothing)
            },
        }
    }
}

// ---------------------------------------------------------------------
// Roster lookup for the message feed
// ---------------------------------------------------------------------

/// The first roster entry with the given name, if any; the feed shows
/// its avatar beside the message, or a placeholder when there is none.
pub open spec fn first_user_match(users: Seq<UserView>, name: Seq<char>) -> Option<UserView>
    decreases users.len(),
{
    if users.len() == 0 {
        None
    } else if users[0].name == name {
        Some(users[0])
    } else {
        first_user_match(users.drop_first(), name)
    }
}

/// Finds the first roster entry whose name matches the sender.
pub fn find_user<'a>(users: &'a Vec<UserProfile>, name: &str) -> (r: Option<&'a UserProfile>)
    ensures
        (match r {
            Some(u) => first_user_match(users@.map_values(|p: UserProfile| p@), name@) == Some(u@),
            None => first_user_match(users@.map_values(|p: UserProfile| p@), name@) is None,
        }),
{
    let ghost uv = users@.map_values(|p: UserProfile| p@);
    proof {
        assert(uv.skip(0) =~= uv);
    }
    let n = users.len();
    let mut k: usize = 0;
    while k < n
        invariant
            n == users@.len(),
            k <= n,
            uv == users@.map_values(|p: UserProfile| p@),
            uv.len() == n,
            first_user_match(uv, name@) == first_user_match(uv.skip(k as int), name@),
        decreases n - k,
    {
        if str_eq(users[k].name.as_str(), name) {
            proof {
                assert(uv.skip(k as int)[0] == uv[k as int]);
                assert(uv[k as int].name == name@);
            }
            return Some(&users[k]);
        }
        proof {
            assert(uv.skip(k as int)[0] == uv[k as int]);
            assert(uv.skip(k as int).drop_first() =~= uv.skip(k as int + 1));
        }
        k = k + 1;
    }
    proof {
        assert(uv.skip(n as int) =~= Seq::<UserView>::empty());
    }
    None
}

// ---------------------------------------------------------------------
// Laws
// ---------------------------------------------------------------------

/// Toggling dark mode twice returns the state it started from.
pub proof fn lemma_toggle_twice(v: ChatView)
    ensures
        toggled(toggled(v)) == v,
{
    assert(toggled(toggled(v)) =~~= v);
}

/// A reaction on a message with no prior reactions creates a
/// singleton list holding exactly that emoji.
pub proof fn lemma_first_reaction(v: ChatView, i: int, emoji: Seq<char>)
    requires
        0 <= i < v.messages.len(),
        v.messages[i].reactions is None,
    ensures
        with_reaction(v, i, emoji).messages[i].reactions == Some(seq![emoji]),
{
    assert(reactions_or_empty(v.messages[i]).push(emoji) =~~= seq![emoji]);
}

/// A roster frame rebuilds the user list wholesale: one profile per
/// name, in order, and nothing else changes.  An empty list of names
/// clears the roster.
pub proof fn lemma_roster_wholesale(v: ChatView, names: Seq<Seq<char>>)
    ensures
        with_roster(v, names).users.len() == names.len(),
        forall|j: int| 0 <= j < names.len() ==> with_roster(v, names).users[j] == profile_for(
            names[j],
        ),
        with_roster(v, names).messages == v.messages,
        with_roster(v, names).is_dark_mode == v.is_dark_mode,
        names.len() == 0 ==> with_roster(v, names).users =~= Seq::<UserView>::empty(),
{
}

/// A reaction lands on exactly the message it indexes: the rest of
/// the feed, the sender and text of that message, the roster and the
/// colour mode are untouched; a stale index changes nothing.
pub proof fn lemma_reaction_targets_index(v: ChatView, i: int, emoji: Seq<char>)
    ensures
        !(0 <= i < v.messages.len()) ==> with_reaction(v, i, emoji) == v,
        0 <= i < v.messages.len() ==> {
            let w = with_reaction(v, i, emoji);
            &&& w.messages.len() == v.messages.len()
            &&& forall|j: int| 0 <= j < v.messages.len() && j != i ==> w.messages[j]
                == v.messages[j]
            &&& w.messages[i].from == v.messages[i].from
            &&& w.messages[i].message == v.messages[i].message
            &&& w.messages[i].reactions == Some(reactions_or_empty(v.messages[i]).push(emoji))
            &&& w.users == v.users
            &&& w.is_dark_mode == v.is_dark_mode
        },
{
}

} // verus!
