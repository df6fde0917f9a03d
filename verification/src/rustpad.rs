//! The per-document collaborative session: message types and the state
//! machine at the heart of the server.
//!
//! A session holds the committed operation history, the current text (always
//! the fold of that history), the editor language, and per-connection
//! presence data. Connection handlers feed decoded client messages into
//! [`Session::handle_message`]; the returned actions tell the surrounding
//! (unverified) transport layer what to broadcast, persist or signal.

use vstd::prelude::*;
use operational_transform::OperationSeq;
use crate::ot::SpecOp;
use crate::ot::Prim;
use crate::ot::ops_of;
use crate::ot::base_len_of;
use crate::ot::target_len_of;
use crate::ot::apply_of;
use crate::ot::fold_apply;
use crate::ot::chain_wf;
use crate::ot::rebased;
use crate::ot::shape_of;
use crate::ot::xform_u32;
use crate::ot::MAX_TARGET_LEN;
use crate::database::PersistedDocument;

verus! {

/// The sentinel user id carried by the synthetic seed operation of a
/// document loaded from the store.
pub const SEED_OP_ID: u64 = 0xffff_ffff_ffff_ffff;

/// The view of an optional owned string: its character sequence, if present.
pub open spec fn opt_str_view(o: Option<String>) -> Option<Seq<char>> {
    match o {
        Option::None => Option::None,
        Option::Some(s) => Option::Some(s@),
    }
}

/// Volatile presence data for one connected user.
pub struct UserInfo {
    /// Display name chosen by the user.
    pub name: String,
    /// Display hue chosen by the user, in degrees.
    pub hue: u32,
}

/// Mathematical view of [`UserInfo`].
pub struct UserInfoV {
    /// Display name as a character sequence.
    pub name: Seq<char>,
    /// Display hue in degrees.
    pub hue: u32,
}

impl View for UserInfo {
    type V = UserInfoV;

    open spec fn view(&self) -> UserInfoV {
        UserInfoV { name: self.name@, hue: self.hue }
    }
}

/// Cursor and selection positions for one connected user, as character
/// offsets into the current text.
pub struct CursorData {
    /// Single-caret positions.
    pub cursors: Vec<u32>,
    /// Selected ranges, as (start, end) offset pairs.
    pub selections: Vec<(u32, u32)>,
}

/// Mathematical view of [`CursorData`].
pub struct CursorDataV {
    /// Single-caret positions.
    pub cursors: Seq<u32>,
    /// Selected ranges, as (start, end) offset pairs.
    pub selections: Seq<(u32, u32)>,
}

impl View for CursorData {
    type V = CursorDataV;

    open spec fn view(&self) -> CursorDataV {
        CursorDataV { cursors: self.cursors@, selections: self.selections@ }
    }
}

/// One committed operation together with its author.
pub struct UserOperation {
    /// Connection id of the author, or [`SEED_OP_ID`] for the seed operation.
    pub id: u64,
    /// The committed edit operation.
    pub operation: OperationSeq,
    /// Authenticated email of the author, when known.
    pub email: Option<String>,
}

/// Mathematical view of [`UserOperation`].
pub struct UserOperationV {
    /// Connection id of the author.
    pub id: u64,
    /// The committed operation's primitives.
    pub operation: Seq<SpecOp>,
    /// Authenticated email of the author, when known.
    pub email: Option<Seq<char>>,
}

impl View for UserOperation {
    type V = UserOperationV;

    open spec fn view(&self) -> UserOperationV {
        UserOperationV {
            id: self.id,
            operation: ops_of(self.operation),
            email: opt_str_view(self.email),
        }
    }
}

/// A message received from a client.
pub enum ClientMsg {
    /// A local edit made against the given revision.
    Edit {
        /// Revision the operation was produced against.
        revision: usize,
        /// The edit operation itself.
        operation: OperationSeq,
    },
    /// Sets the language of the editor; last writer wins.
    SetLanguage(String),
    /// Sets the sending user's presence information.
    ClientInfo(UserInfo),
    /// Sets the sending user's cursor and selection positions.
    CursorData(CursorData),
    /// Sets the authenticated user's persistent color preference.
    SetColor(u32),
}

/// A message sent to clients.
pub enum ServerMsg {
    /// Tells a client its unique connection id.
    Identity(u64),
    /// Tells a client the authenticated email attached to its connection.
    AuthenticatedEmail(Option<String>),
    /// A run of committed operations, starting at revision `start`.
    History {
        /// Revision of the first operation carried.
        start: usize,
        /// The committed operations, in order.
        operations: Vec<UserOperation>,
    },
    /// The current editor language.
    Language(String),
    /// A user's presence information, or `None` when the user disconnects.
    UserInfo {
        /// Connection id the information belongs to.
        id: u64,
        /// The information, or `None` on disconnect.
        info: Option<UserInfo>,
    },
    /// A user's cursor and selection positions.
    UserCursor {
        /// Connection id the positions belong to.
        id: u64,
        /// The positions themselves.
        data: CursorData,
    },
    /// An authenticated user's persistent color preference.
    UserColor {
        /// The user's email.
        email: String,
        /// The chosen hue in degrees.
        hue: u32,
    },
}

/// Mathematical view of [`ServerMsg`].
pub enum ServerMsgV {
    /// View of `ServerMsg::Identity`.
    Identity(u64),
    /// View of `ServerMsg::AuthenticatedEmail`.
    AuthenticatedEmail(Option<Seq<char>>),
    /// View of `ServerMsg::History`.
    History {
        /// Revision of the first operation carried.
        start: usize,
        /// Views of the carried operations.
        operations: Seq<UserOperationV>,
    },
    /// View of `ServerMsg::Language`.
    Language(Seq<char>),
    /// View of `ServerMsg::UserInfo`.
    UserInfo {
        /// Connection id the information belongs to.
        id: u64,
        /// The information, or `None` on disconnect.
        info: Option<UserInfoV>,
    },
    /// View of `ServerMsg::UserCursor`.
    UserCursor {
        /// Connection id the positions belong to.
        id: u64,
        /// The positions themselves.
        data: CursorDataV,
    },
    /// View of `ServerMsg::UserColor`.
    UserColor {
        /// The user's email.
        email: Seq<char>,
        /// The chosen hue in degrees.
        hue: u32,
    },
}

impl View for ServerMsg {
    type V = ServerMsgV;

    open spec fn view(&self) -> ServerMsgV {
        match self {
            ServerMsg::Identity(id) => ServerMsgV::Identity(*id),
            ServerMsg::AuthenticatedEmail(e) => ServerMsgV::AuthenticatedEmail(opt_str_view(*e)),
            ServerMsg::History { start, operations } => (ServerMsgV::History {
                start: *start,
                operations: operations@.map_values(|u: UserOperation| u@),
            }),
            ServerMsg::Language(l) => ServerMsgV::Language(l@),
            ServerMsg::UserInfo { id, info } => (ServerMsgV::UserInfo {
                id: *id,
                info: match info {
                    Option::None => Option::None,
                    Option::Some(u) => Option::Some(u@),
                },
            }),
            ServerMsg::UserCursor { id, data } => (ServerMsgV::UserCursor {
                id: *id,
                data: data@,
            }),
            ServerMsg::UserColor { email, hue } => (ServerMsgV::UserColor {
                email: email@,
                hue: *hue,
            }),
        }
    }
}

/// Why an edit was rejected.
#[derive(Clone, Copy, PartialEq, Eq, Structural, Debug)]
pub enum EditError {
    /// The edit claimed a revision beyond the current history.
    InvalidRevision,
    /// The edit would grow the document past [`MAX_TARGET_LEN`] characters.
    DocumentTooLarge,
    /// The edit's base length does not fit the document it claims to edit.
    OTFailure,
}

/// An instruction handed back to the transport layer after a message is
/// dispatched.
pub enum Action {
    /// Send this message to every subscriber of the broadcast channel.
    Broadcast(ServerMsg),
    /// Wake every connection waiting on the edit notifier.
    NotifyEdits,
    /// Write this color preference to the durable store, fire-and-forget.
    PersistColor {
        /// The authenticated user's email.
        email: String,
        /// The chosen hue in degrees.
        hue: u32,
    },
}

/// Mathematical view of [`Action`].
pub enum ActionV {
    /// View of `Action::Broadcast`.
    Broadcast(ServerMsgV),
    /// View of `Action::NotifyEdits`.
    NotifyEdits,
    /// View of `Action::PersistColor`.
    PersistColor {
        /// The authenticated user's email.
        email: Seq<char>,
        /// The chosen hue in degrees.
        hue: u32,
    },
}

impl View for Action {
    type V = ActionV;

    open spec fn view(&self) -> ActionV {
        match self {
            Action::Broadcast(m) => ActionV::Broadcast(m@),
            Action::NotifyEdits => ActionV::NotifyEdits,
            Action::PersistColor { email, hue } => (ActionV::PersistColor {
                email: email@,
                hue: *hue,
            }),
        }
    }
}

/// Views of a sequence of actions.
pub open spec fn acts_view(s: Seq<Action>) -> Seq<ActionV> {
    s.map_values(|a: Action| a@)
}

// ---------------------------------------------------------------------------
// Association lists with unique keys, used for the per-connection maps.
// ---------------------------------------------------------------------------

/// No two entries share a key.
pub open spec fn pair_keys_unique<V>(s: Seq<(u64, V)>) -> bool {
    forall|i: int, j: int| 0 <= i < j < s.len() ==> (#[trigger] s[i]).0 != (#[trigger] s[j]).0
}

/// The mapping an association list denotes.
pub open spec fn pair_map<V>(s: Seq<(u64, V)>) -> Map<u64, V>
    decreases s.len(),
{
    if s.len() == 0 {
        Map::empty()
    } else {
        pair_map(s.drop_last()).insert(s.last().0, s.last().1)
    }
}

proof fn lemma_pair_map_contains<V>(s: Seq<(u64, V)>, k: u64)
    ensures
        pair_map(s).contains_key(k) <==> exists|i: int| 0 <= i < s.len() && (#[trigger] s[i]).0 == k,
    decreases s.len(),
{
    if s.len() > 0 {
        lemma_pair_map_contains(s.drop_last(), k);
        if pair_map(s).contains_key(k) {
            if s.last().0 == k {
                assert(s[s.len() - 1].0 == k);
            } else {
                let i = choose|i: int| 0 <= i < s.drop_last().len() && (#[trigger] s.drop_last()[i]).0 == k;
                assert(s[i].0 == k);
            }
        }
        if exists|i: int| 0 <= i < s.len() && (#[trigger] s[i]).0 == k {
            let i = choose|i: int| 0 <= i < s.len() && (#[trigger] s[i]).0 == k;
            if i < s.len() - 1 {
                assert(s.drop_last()[i].0 == k);
            }
        }
    }
}

proof fn lemma_pair_map_push<V>(s: Seq<(u64, V)>, e: (u64, V))
    ensures
        pair_map(s.push(e)) == pair_map(s).insert(e.0, e.1),
{
    assert(s.push(e).drop_last() =~= s);
    assert(s.push(e).last() == e);
}

proof fn lemma_pair_map_remove_at<V>(s: Seq<(u64, V)>, i: int)
    requires
        pair_keys_unique(s),
        0 <= i < s.len(),
    ensures
        pair_map(s.remove(i)) =~= pair_map(s).remove(s[i].0),
    decreases s.len(),
{
    let k = s[i].0;
    if i == s.len() - 1 {
        assert(s.remove(i) =~= s.drop_last());
        lemma_pair_map_contains(s.drop_last(), k);
        assert forall|t: int| 0 <= t < s.drop_last().len() implies (#[trigger] s.drop_last()[t]).0
            != k by {
            assert(s[t].0 == s.drop_last()[t].0);
        }
        assert(!pair_map(s.drop_last()).contains_key(k));
        assert(pair_map(s.drop_last()).insert(k, s.last().1).remove(k) =~= pair_map(
            s.drop_last(),
        ));
    } else {
        assert(s.remove(i).drop_last() =~= s.drop_last().remove(i));
        assert(s.remove(i).last() == s.last());
        assert forall|a: int, b: int| 0 <= a < b < s.drop_last().len() implies (
        #[trigger] s.drop_last()[a]).0 != (#[trigger] s.drop_last()[b]).0 by {
            assert(s[a].0 == s.drop_last()[a].0 && s[b].0 == s.drop_last()[b].0);
        }
        assert(s.drop_last()[i] == s[i]);
        lemma_pair_map_remove_at(s.drop_last(), i);
        assert(s[i].0 != s.last().0);
        assert(pair_map(s.remove(i)) == pair_map(s.drop_last().remove(i)).insert(
            s.last().0,
            s.last().1,
        ));
        assert(pair_map(s.drop_last()).remove(k).insert(s.last().0, s.last().1) =~= pair_map(
            s.drop_last(),
        ).insert(s.last().0, s.last().1).remove(k));
    }
}

/// Stores `(key, val)` in the list, replacing any entry with the same key.
fn pair_set<V>(v: &mut Vec<(u64, V)>, key: u64, val: V)
    requires
        pair_keys_unique(old(v)@),
    ensures
        pair_keys_unique(final(v)@),
        pair_map(final(v)@) == pair_map(old(v)@).insert(key, val),
        final(v)@.len() <= old(v)@.len() + 1,
{
    let ghost s0 = v@;
    let mut i: usize = 0;
    while i < v.len()
        invariant
            s0 == old(v)@,
            0 <= i <= v@.len(),
            v@ == s0,
            pair_keys_unique(s0),
            forall|t: int| 0 <= t < i ==> (#[trigger] s0[t]).0 != key,
        decreases v@.len() - i,
    {
        if v[i].0 == key {
            v.remove(i);
            proof {
                lemma_pair_map_remove_at(s0, i as int);
            }
            v.push((key, val));
            proof {
                lemma_pair_map_push(s0.remove(i as int), (key, val));
                assert(pair_map(s0).remove(key).insert(key, val) =~= pair_map(s0).insert(
                    key,
                    val,
                ));
                let t = s0.remove(i as int).push((key, val));
                assert forall|a: int, b: int| 0 <= a < b < t.len() implies (#[trigger] t[a]).0 != (
                #[trigger] t[b]).0 by {
                    if b < t.len() - 1 {
                        if a < i && b < i {
                            assert(t[a] == s0[a] && t[b] == s0[b]);
                        } else if a < i {
                            assert(t[a] == s0[a] && t[b] == s0[b + 1]);
                        } else {
                            assert(t[a] == s0[a + 1] && t[b] == s0[b + 1]);
                        }
                    } else {
                        if a < i {
                            assert(t[a] == s0[a]);
                        } else {
                            assert(t[a] == s0[a + 1]);
                        }
                    }
                }
            }
            return ;
        }
        i = i + 1;
    }
    v.push((key, val));
    proof {
        lemma_pair_map_push(s0, (key, val));
        let t = s0.push((key, val));
        assert forall|a: int, b: int| 0 <= a < b < t.len() implies (#[trigger] t[a]).0 != (
        #[trigger] t[b]).0 by {
            if b < t.len() - 1 {
                assert(t[a] == s0[a] && t[b] == s0[b]);
            } else {
                assert(t[a] == s0[a]);
            }
        }
    }
}

/// Removes the entry with the given key, if any.
fn pair_del<V>(v: &mut Vec<(u64, V)>, key: u64)
    requires
        pair_keys_unique(old(v)@),
    ensures
        pair_keys_unique(final(v)@),
        pair_map(final(v)@) == pair_map(old(v)@).remove(key),
        final(v)@.len() <= old(v)@.len(),
{
    let ghost s0 = v@;
    let mut i: usize = 0;
    while i < v.len()
        invariant
            s0 == old(v)@,
            0 <= i <= v@.len(),
            v@ == s0,
            pair_keys_unique(s0),
            forall|t: int| 0 <= t < i ==> (#[trigger] s0[t]).0 != key,
        decreases v@.len() - i,
    {
        if v[i].0 == key {
            v.remove(i);
            proof {
                lemma_pair_map_remove_at(s0, i as int);
                let t = s0.remove(i as int);
                assert forall|a: int, b: int| 0 <= a < b < t.len() implies (#[trigger] t[a]).0 != (
                #[trigger] t[b]).0 by {
                    if a < i && b < i {
                        assert(t[a] == s0[a] && t[b] == s0[b]);
                    } else if a < i {
                        assert(t[a] == s0[a] && t[b] == s0[b + 1]);
                    } else {
                        assert(t[a] == s0[a + 1] && t[b] == s0[b + 1]);
                    }
                }
            }
            return ;
        }
        i = i + 1;
    }
    proof {
        lemma_pair_map_contains(s0, key);
        assert(pair_map(s0).remove(key) =~= pair_map(s0));
    }
}

/// No two color entries share an email.
pub open spec fn color_keys_unique(s: Seq<(String, u32)>) -> bool {
    forall|i: int, j: int| 0 <= i < j < s.len() ==> (#[trigger] s[i]).0@ != (#[trigger] s[j]).0@
}

/// The email-to-hue mapping a color list denotes.
pub open spec fn colors_map(s: Seq<(String, u32)>) -> Map<Seq<char>, u32>
    decreases s.len(),
{
    if s.len() == 0 {
        Map::empty()
    } else {
        colors_map(s.drop_last()).insert(s.last().0@, s.last().1)
    }
}

proof fn lemma_colors_map_contains(s: Seq<(String, u32)>, k: Seq<char>)
    ensures
        colors_map(s).contains_key(k) <==> exists|i: int|
            0 <= i < s.len() && (#[trigger] s[i]).0@ == k,
    decreases s.len(),
{
    if s.len() > 0 {
        lemma_colors_map_contains(s.drop_last(), k);
        if colors_map(s).contains_key(k) {
            if s.last().0@ == k {
                assert(s[s.len() - 1].0@ == k);
            } else {
                let i = choose|i: int|
                    0 <= i < s.drop_last().len() && (#[trigger] s.drop_last()[i]).0@ == k;
                assert(s[i].0@ == k);
            }
        }
        if exists|i: int| 0 <= i < s.len() && (#[trigger] s[i]).0@ == k {
            let i = choose|i: int| 0 <= i < s.len() && (#[trigger] s[i]).0@ == k;
            if i < s.len() - 1 {
                assert(s.drop_last()[i].0@ == k);
            }
        }
    }
}

proof fn lemma_colors_map_push(s: Seq<(String, u32)>, e: (String, u32))
    ensures
        colors_map(s.push(e)) == colors_map(s).insert(e.0@, e.1),
{
    assert(s.push(e).drop_last() =~= s);
    assert(s.push(e).last() == e);
}

proof fn lemma_colors_map_remove_at(s: Seq<(String, u32)>, i: int)
    requires
        color_keys_unique(s),
        0 <= i < s.len(),
    ensures
        colors_map(s.remove(i)) =~= colors_map(s).remove(s[i].0@),
    decreases s.len(),
{
    let k = s[i].0@;
    if i == s.len() - 1 {
        assert(s.remove(i) =~= s.drop_last());
        lemma_colors_map_contains(s.drop_last(), k);
        assert forall|t: int| 0 <= t < s.drop_last().len() implies (#[trigger] s.drop_last()[t]).0@
            != k by {
            assert(s[t].0@ == s.drop_last()[t].0@);
        }
        assert(!colors_map(s.drop_last()).contains_key(k));
        assert(colors_map(s.drop_last()).insert(k, s.last().1).remove(k) =~= colors_map(
            s.drop_last(),
        ));
    } else {
        assert(s.remove(i).drop_last() =~= s.drop_last().remove(i));
        assert(s.remove(i).last() == s.last());
        assert forall|a: int, b: int| 0 <= a < b < s.drop_last().len() implies (
        #[trigger] s.drop_last()[a]).0@ != (#[trigger] s.drop_last()[b]).0@ by {
            assert(s[a].0@ == s.drop_last()[a].0@ && s[b].0@ == s.drop_last()[b].0@);
        }
        assert(s.drop_last()[i] == s[i]);
        lemma_colors_map_remove_at(s.drop_last(), i);
        assert(s[i].0@ != s.last().0@);
        assert(colors_map(s.remove(i)) == colors_map(s.drop_last().remove(i)).insert(
            s.last().0@,
            s.last().1,
        ));
        assert(colors_map(s.drop_last()).remove(k).insert(s.last().0@, s.last().1) =~= colors_map(
            s.drop_last(),
        ).insert(s.last().0@, s.last().1).remove(k));
    }
}

/// Stores `(email, hue)` in the color list, replacing any entry with the
/// same email.
fn colors_set(v: &mut Vec<(String, u32)>, email: String, hue: u32)
    requires
        color_keys_unique(old(v)@),
    ensures
        color_keys_unique(final(v)@),
        colors_map(final(v)@) == colors_map(old(v)@).insert(email@, hue),
        final(v)@.len() <= old(v)@.len() + 1,
{
    let ghost s0 = v@;
    let mut i: usize = 0;
    while i < v.len()
        invariant
            s0 == old(v)@,
            0 <= i <= v@.len(),
            v@ == s0,
            color_keys_unique(s0),
            forall|t: int| 0 <= t < i ==> (#[trigger] s0[t]).0@ != email@,
        decreases v@.len() - i,
    {
        if v[i].0 == email {
            v.remove(i);
            proof {
                lemma_colors_map_remove_at(s0, i as int);
            }
            v.push((email, hue));
            proof {
                lemma_colors_map_push(s0.remove(i as int), (email, hue));
                assert(colors_map(s0).remove(email@).insert(email@, hue) =~= colors_map(
                    s0,
                ).insert(email@, hue));
                let t = s0.remove(i as int).push((email, hue));
                assert forall|a: int, b: int| 0 <= a < b < t.len() implies (#[trigger] t[a]).0@
                    != (#[trigger] t[b]).0@ by {
                    if b < t.len() - 1 {
                        if a < i && b < i {
                            assert(t[a] == s0[a] && t[b] == s0[b]);
                        } else if a < i {
                            assert(t[a] == s0[a] && t[b] == s0[b + 1]);
                        } else {
                            assert(t[a] == s0[a + 1] && t[b] == s0[b + 1]);
                        }
                    } else {
                        if a < i {
                            assert(t[a] == s0[a]);
                        } else {
                            assert(t[a] == s0[a + 1]);
                        }
                    }
                }
            }
            return ;
        }
        i = i + 1;
    }
    v.push((email, hue));
    proof {
        lemma_colors_map_push(s0, (email, hue));
        let t = s0.push((email, hue));
        assert forall|a: int, b: int| 0 <= a < b < t.len() implies (#[trigger] t[a]).0@ != (
        #[trigger] t[b]).0@ by {
            if b < t.len() - 1 {
                assert(t[a] == s0[a] && t[b] == s0[b]);
            } else {
                assert(t[a] == s0[a]);
            }
        }
    }
}

// ---------------------------------------------------------------------------
// The session itself.
// ---------------------------------------------------------------------------

/// The primitive list of the synthetic seed operation for a document loaded
/// with the given text.
pub open spec fn seed_ops(t: Seq<char>) -> Seq<SpecOp> {
    if t.len() == 0 {
        Seq::empty()
    } else {
        seq![SpecOp::Insert(t)]
    }
}

/// All offsets in one cursor record lie within a text of length `n`.
pub open spec fn cursor_data_wf(d: CursorData, n: nat) -> bool {
    &&& forall|i: int| 0 <= i < d.cursors@.len() ==> (#[trigger] d.cursors@[i]) as nat <= n
    &&& forall|i: int|
        0 <= i < d.selections@.len() ==> (#[trigger] d.selections@[i]).0 as nat <= n
            && d.selections@[i].1 as nat <= n
}

/// The state of one collaborative document session: everything the server
/// keeps behind the per-document lock.
pub struct Session {
    /// Committed operations, in order; the history length is the revision.
    pub operations: Vec<UserOperation>,
    /// Current text, always equal to the history folded over the empty
    /// string.
    pub text: String,
    /// Editor language hint; last writer wins.
    pub language: Option<String>,
    /// Presence information per connection id.
    pub users: Vec<(u64, UserInfo)>,
    /// Cursor data per connection id.
    pub cursors: Vec<(u64, CursorData)>,
    /// Persistent color preference per authenticated email.
    pub user_colors: Vec<(String, u32)>,
    /// The next connection id to hand out; strictly increasing.
    pub next_id: u64,
    /// Set when the session is destroyed; a killed session takes no more
    /// work.
    pub killed: bool,
}

impl Session {
    /// The committed history as primitive lists.
    pub open spec fn hist(self) -> Seq<Seq<SpecOp>> {
        self.operations@.map_values(|u: UserOperation| ops_of(u.operation))
    }

    /// Length of the document text after the first `k` committed operations.
    pub open spec fn doc_len_at(self, k: int) -> nat {
        fold_apply(self.hist().take(k)).len()
    }

    /// Internal invariant: the history is chained, the text is its fold, and
    /// the per-connection maps have unique keys.
    pub open spec fn wf(self) -> bool {
        &&& chain_wf(self.hist())
        &&& self.text@ == fold_apply(self.hist())
        &&& pair_keys_unique(self.users@)
        &&& pair_keys_unique(self.cursors@)
        &&& color_keys_unique(self.user_colors@)
    }

    /// Every stored cursor and selection offset lies within the current
    /// text. Not part of [`Session::wf`]: clients are free to send offsets
    /// that were never valid, and the server stores them untouched.
    pub open spec fn cursor_wf(self) -> bool {
        forall|j: int|
            0 <= j < self.cursors@.len() ==> cursor_data_wf(
                (#[trigger] self.cursors@[j]).1,
                self.text@.len(),
            )
    }

    /// A fresh, empty session.
    pub fn new() -> (s: Session)
        ensures
            s.wf(),
            s.operations@.len() == 0,
            s.text@.len() == 0,
            s.language.is_none(),
            s.users@.len() == 0,
            s.cursors@.len() == 0,
            s.user_colors@.len() == 0,
            s.next_id == 0,
            !s.killed,
    {
        let s = Session {
            operations: Vec::new(),
            text: String::new(),
            language: None,
            users: Vec::new(),
            cursors: Vec::new(),
            user_colors: Vec::new(),
            next_id: 0,
            killed: false,
        };
        proof {
            assert(s.hist() =~= Seq::<Seq<SpecOp>>::empty());
            assert(s.text@ =~= fold_apply(s.hist()));
        }
        s
    }

    /// A session seeded from a persisted document: its history is one
    /// synthetic insert of the stored text, carrying the reserved id
    /// [`SEED_OP_ID`], so the revision of a loaded document starts at 1.
    pub fn from_document(document: PersistedDocument) -> (s: Session)
        ensures
            s.wf(),
            s.operations@.len() == 1,
            s.operations@[0].id == SEED_OP_ID,
            s.operations@[0].email.is_none(),
            ops_of(s.operations@[0].operation) == seed_ops(document.text@),
            s.text@ == document.text@,
            s.language == document.language,
            s.users@.len() == 0,
            s.cursors@.len() == 0,
            s.user_colors@.len() == 0,
            s.next_id == 0,
            !s.killed,
    {
        let mut operation = crate::ot::ot_empty();
        crate::ot::ot_insert(&mut operation, document.text.as_str());
        let mut operations: Vec<UserOperation> = Vec::new();
        operations.push(UserOperation { id: SEED_OP_ID, operation, email: None });
        let s = Session {
            operations,
            text: document.text,
            language: document.language,
            users: Vec::new(),
            cursors: Vec::new(),
            user_colors: Vec::new(),
            next_id: 0,
            killed: false,
        };
        proof {
            let t = s.text@;
            let h = s.hist();
            assert(h =~= seq![seed_ops(t)]);
            assert(h.drop_last() =~= Seq::<Seq<SpecOp>>::empty());
            assert(h.last() == seed_ops(t));
            assert(fold_apply(h.drop_last()) =~= Seq::<char>::empty());
            assert(fold_apply(h) == apply_of(seed_ops(t), Seq::<char>::empty()));
            if t.len() == 0 {
                assert(fold_apply(h) =~= t);
            } else {
                let ops = seed_ops(t);
                assert(ops.first() == SpecOp::Insert(t));
                assert(ops.drop_first() =~= Seq::<SpecOp>::empty());
                assert(apply_of(ops, Seq::<char>::empty()) == t + apply_of(
                    Seq::<SpecOp>::empty(),
                    Seq::<char>::empty(),
                ));
                assert(apply_of(ops, Seq::<char>::empty()) =~= t);
                assert(base_len_of(ops.drop_first()) == 0);
                assert(base_len_of(ops) == 0);
            }
            assert forall|k: int| 0 <= k < h.len() implies base_len_of(#[trigger] h[k])
                == fold_apply(h.take(k)).len() by {
                assert(h.take(0) =~= Seq::<Seq<SpecOp>>::empty());
            }
        }
        s
    }

    /// The current revision: how many operations have been committed.
    pub fn revision(&self) -> (r: usize)
        ensures
            r == self.operations@.len(),
    {
        self.operations.len()
    }

    /// A snapshot of the current text.
    pub fn text(&self) -> (r: String)
        ensures
            r@ == self.text@,
    {
        self.text.clone()
    }

    /// A snapshot of text and language, fit for the durable store.
    pub fn snapshot(&self) -> (r: PersistedDocument)
        ensures
            r.text@ == self.text@,
            opt_str_view(r.language) == opt_str_view(self.language),
    {
        PersistedDocument { text: self.text.clone(), language: clone_opt_string(&self.language) }
    }

    /// Marks the session as destroyed. The surrounding layer must wake all
    /// waiters afterwards so that every handler observes the flag and exits.
    pub fn kill(&mut self)
        ensures
            final(self).killed,
            final(self).operations == old(self).operations,
            final(self).text == old(self).text,
            final(self).language == old(self).language,
            final(self).users == old(self).users,
            final(self).cursors == old(self).cursors,
            final(self).user_colors == old(self).user_colors,
            final(self).next_id == old(self).next_id,
    {
        self.killed = true;
    }

    /// Whether the session has been destroyed.
    pub fn killed(&self) -> (r: bool)
        ensures
            r == self.killed,
    {
        self.killed
    }

    /// Hands out the next connection id. Ids are strictly increasing within
    /// one session.
    pub fn connect(&mut self) -> (id: u64)
        requires
            old(self).next_id < 0xffff_ffff_ffff_ffff,
        ensures
            id == old(self).next_id,
            final(self).next_id == old(self).next_id + 1,
            final(self).operations == old(self).operations,
            final(self).text == old(self).text,
            final(self).language == old(self).language,
            final(self).users == old(self).users,
            final(self).cursors == old(self).cursors,
            final(self).user_colors == old(self).user_colors,
            final(self).killed == old(self).killed,
    {
        let id = self.next_id;
        self.next_id = self.next_id + 1;
        id
    }

    /// Forgets a connection's presence and cursor data. Returns the one
    /// message that must be broadcast: `UserInfo { id, info: None }`.
    pub fn disconnect(&mut self, id: u64) -> (msg: ServerMsg)
        requires
            old(self).wf(),
        ensures
            final(self).wf(),
            pair_map(final(self).users@) == pair_map(old(self).users@).remove(id),
            pair_map(final(self).cursors@) == pair_map(old(self).cursors@).remove(id),
            final(self).operations == old(self).operations,
            final(self).text == old(self).text,
            final(self).language == old(self).language,
            final(self).user_colors == old(self).user_colors,
            final(self).next_id == old(self).next_id,
            final(self).killed == old(self).killed,
            msg == (ServerMsg::UserInfo { id, info: None }),
    {
        pair_del(&mut self.users, id);
        pair_del(&mut self.cursors, id);
        ServerMsg::UserInfo { id, info: None }
    }

    /// Sets the editor language; last writer wins.
    pub fn set_language(&mut self, language: String)
        requires
            old(self).wf(),
        ensures
            final(self).wf(),
            final(self).language == Some(language),
            final(self).operations == old(self).operations,
            final(self).text == old(self).text,
            final(self).users == old(self).users,
            final(self).cursors == old(self).cursors,
            final(self).user_colors == old(self).user_colors,
            final(self).next_id == old(self).next_id,
            final(self).killed == old(self).killed,
    {
        self.language = Some(language);
    }

    /// Stores a user's presence information.
    pub fn set_user_info(&mut self, id: u64, info: UserInfo)
        requires
            old(self).wf(),
        ensures
            final(self).wf(),
            pair_map(final(self).users@) == pair_map(old(self).users@).insert(id, info),
            final(self).operations == old(self).operations,
            final(self).text == old(self).text,
            final(self).language == old(self).language,
            final(self).cursors == old(self).cursors,
            final(self).user_colors == old(self).user_colors,
            final(self).next_id == old(self).next_id,
            final(self).killed == old(self).killed,
    {
        pair_set(&mut self.users, id, info);
    }

    /// Stores a user's cursor and selection positions. Offsets are not
    /// validated here: they are trusted and transformed by future edits.
    pub fn set_cursor(&mut self, id: u64, data: CursorData)
        requires
            old(self).wf(),
        ensures
            final(self).wf(),
            pair_map(final(self).cursors@) == pair_map(old(self).cursors@).insert(id, data),
            final(self).operations == old(self).operations,
            final(self).text == old(self).text,
            final(self).language == old(self).language,
            final(self).users == old(self).users,
            final(self).user_colors == old(self).user_colors,
            final(self).next_id == old(self).next_id,
            final(self).killed == old(self).killed,
    {
        pair_set(&mut self.cursors, id, data);
    }

    /// Stores an authenticated user's color preference.
    pub fn set_color(&mut self, email: String, hue: u32)
        requires
            old(self).wf(),
        ensures
            final(self).wf(),
            colors_map(final(self).user_colors@) == colors_map(old(self).user_colors@).insert(
                email@,
                hue,
            ),
            final(self).operations == old(self).operations,
            final(self).text == old(self).text,
            final(self).language == old(self).language,
            final(self).users == old(self).users,
            final(self).cursors == old(self).cursors,
            final(self).next_id == old(self).next_id,
            final(self).killed == old(self).killed,
    {
        colors_set(&mut self.user_colors, email, hue);
    }

    /// Bulk-loads color preferences from the store, in order; run once at
    /// session birth.
    pub fn load_colors(&mut self, colors: &Vec<(String, u32)>)
        requires
            old(self).wf(),
        ensures
            final(self).wf(),
            colors_map(final(self).user_colors@) == colors_loaded(
                colors_map(old(self).user_colors@),
                colors@,
            ),
            final(self).operations == old(self).operations,
            final(self).text == old(self).text,
            final(self).language == old(self).language,
            final(self).users == old(self).users,
            final(self).cursors == old(self).cursors,
            final(self).next_id == old(self).next_id,
            final(self).killed == old(self).killed,
    {
        let mut i: usize = 0;
        proof {
            assert(colors@.skip(0) =~= colors@);
        }
        while i < colors.len()
            invariant
                old(self).wf(),
                self.wf(),
                0 <= i <= colors@.len(),
                colors_loaded(colors_map(self.user_colors@), colors@.skip(i as int))
                    == colors_loaded(colors_map(old(self).user_colors@), colors@),
                self.operations == old(self).operations,
                self.text == old(self).text,
                self.language == old(self).language,
                self.users == old(self).users,
                self.cursors == old(self).cursors,
                self.next_id == old(self).next_id,
                self.killed == old(self).killed,
            decreases colors@.len() - i,
        {
            proof {
                assert(colors@.skip(i as int).first() == colors@[i as int]);
                assert(colors@.skip(i as int).drop_first() =~= colors@.skip(i as int + 1));
            }
            let entry = &colors[i];
            self.set_color(entry.0.clone(), entry.1);
            i = i + 1;
        }
        proof {
            assert(colors@.skip(colors@.len() as int) =~= Seq::<(String, u32)>::empty());
        }
    }

    /// The committed operations from revision `start` on; empty when `start`
    /// is at or past the current revision.
    pub fn history_since(&self, start: usize) -> (r: Vec<UserOperation>)
        ensures
            start < self.operations@.len() ==> r@.map_values(|u: UserOperation| u@)
                == self.operations@.skip(start as int).map_values(|u: UserOperation| u@),
            start >= self.operations@.len() ==> r@.len() == 0,
    {
        let mut r: Vec<UserOperation> = Vec::new();
        if start >= self.operations.len() {
            return r;
        }
        let mut j: usize = start;
        while j < self.operations.len()
            invariant
                start <= j <= self.operations@.len(),
                r@.map_values(|u: UserOperation| u@) =~= self.operations@.subrange(
                    start as int,
                    j as int,
                ).map_values(|u: UserOperation| u@),
            decreases self.operations@.len() - j,
        {
            let ghost prev = r@;
            r.push(clone_user_operation(&self.operations[j]));
            proof {
                let f = |u: UserOperation| u@;
                assert(r@.map_values(f) =~= prev.map_values(f).push(r@.last()@));
                assert(self.operations@.subrange(start as int, j as int + 1).map_values(f)
                    =~= self.operations@.subrange(start as int, j as int).map_values(f).push(
                    f(self.operations@[j as int]),
                ));
            }
            j = j + 1;
        }
        proof {
            assert(self.operations@.subrange(start as int, self.operations@.len() as int)
                =~= self.operations@.skip(start as int));
        }
        r
    }
}

/// Clones an optional string; the views agree.
fn clone_opt_string(o: &Option<String>) -> (r: Option<String>)
    ensures
        opt_str_view(r) == opt_str_view(*o),
{
    match o {
        Option::None => None,
        Option::Some(s) => Some(s.clone()),
    }
}

/// Clones a committed operation; the views agree.
fn clone_user_operation(u: &UserOperation) -> (r: UserOperation)
    ensures
        r@ == u@,
{
    UserOperation {
        id: u.id,
        operation: crate::ot::ot_clone(&u.operation),
        email: clone_opt_string(&u.email),
    }
}

/// The color map after the entries of `s` are loaded over `m`, in order.
pub open spec fn colors_loaded(m: Map<Seq<char>, u32>, s: Seq<(String, u32)>) -> Map<Seq<char>, u32>
    decreases s.len(),
{
    if s.len() == 0 {
        m
    } else {
        colors_loaded(m.insert(s.first().0@, s.first().1), s.drop_first())
    }
}

/// The cursor record obtained by mapping every stored offset through the
/// shape of a committed operation.
pub open spec fn xformed_data(ps: Seq<Prim>, d: CursorData) -> CursorDataV {
    CursorDataV {
        cursors: d.cursors@.map_values(|c: u32| xform_u32(ps, c)),
        selections: d.selections@.map_values(
            |p: (u32, u32)| (xform_u32(ps, p.0), xform_u32(ps, p.1)),
        ),
    }
}

/// Maps every offset of one cursor record through an operation shape.
fn xform_cursor_data(prims: &Vec<Prim>, d: &CursorData) -> (r: CursorData)
    requires
        crate::ot::shape_target_len(prims@) <= u32::MAX,
    ensures
        r@ == xformed_data(prims@, *d),
{
    let mut cursors: Vec<u32> = Vec::new();
    let mut i: usize = 0;
    while i < d.cursors.len()
        invariant
            crate::ot::shape_target_len(prims@) <= u32::MAX,
            0 <= i <= d.cursors@.len(),
            cursors@ =~= d.cursors@.take(i as int).map_values(|c: u32| xform_u32(prims@, c)),
        decreases d.cursors@.len() - i,
    {
        cursors.push(crate::ot::xform_prims(prims, d.cursors[i]));
        proof {
            let f = |c: u32| xform_u32(prims@, c);
            assert(d.cursors@.take(i as int + 1).map_values(f) =~= d.cursors@.take(
                i as int,
            ).map_values(f).push(f(d.cursors@[i as int])));
        }
        i = i + 1;
    }
    let mut selections: Vec<(u32, u32)> = Vec::new();
    let mut j: usize = 0;
    while j < d.selections.len()
        invariant
            crate::ot::shape_target_len(prims@) <= u32::MAX,
            0 <= j <= d.selections@.len(),
            selections@ =~= d.selections@.take(j as int).map_values(
                |p: (u32, u32)| (xform_u32(prims@, p.0), xform_u32(prims@, p.1)),
            ),
        decreases d.selections@.len() - j,
    {
        let s = crate::ot::xform_prims(prims, d.selections[j].0);
        let e = crate::ot::xform_prims(prims, d.selections[j].1);
        selections.push((s, e));
        proof {
            let f = |p: (u32, u32)| (xform_u32(prims@, p.0), xform_u32(prims@, p.1));
            assert(d.selections@.take(j as int + 1).map_values(f) =~= d.selections@.take(
                j as int,
            ).map_values(f).push(f(d.selections@[j as int])));
        }
        j = j + 1;
    }
    let r = CursorData { cursors, selections };
    proof {
        assert(d.cursors@.take(d.cursors@.len() as int) =~= d.cursors@);
        assert(d.selections@.take(d.selections@.len() as int) =~= d.selections@);
    }
    r
}

/// The committed state after a successful edit: the client operation,
/// rebased over the history tail it had not seen, is appended; the text is
/// advanced by it; every stored cursor offset is mapped through it; nothing
/// else changes.
pub open spec fn edit_committed(
    pre: Session,
    post: Session,
    id: u64,
    revision: int,
    op: Seq<SpecOp>,
    email: Option<String>,
) -> bool {
    let rop = rebased(op, pre.hist().skip(revision));
    &&& post.operations@.len() == pre.operations@.len() + 1
    &&& post.operations@.subrange(0, pre.operations@.len() as int) == pre.operations@
    &&& post.operations@.last().id == id
    &&& post.operations@.last().email == email
    &&& ops_of(post.operations@.last().operation) == rop
    &&& post.text@ == apply_of(rop, pre.text@)
    &&& target_len_of(rop) <= MAX_TARGET_LEN as nat
    &&& base_len_of(op) == pre.doc_len_at(revision)
    &&& post.cursors@.len() == pre.cursors@.len()
    &&& forall|j: int|
        0 <= j < pre.cursors@.len() ==> (#[trigger] post.cursors@[j]).0 == pre.cursors@[j].0
            && post.cursors@[j].1@ == xformed_data(shape_of(rop), pre.cursors@[j].1)
    &&& post.language == pre.language
    &&& post.users == pre.users
    &&& post.user_colors == pre.user_colors
    &&& post.next_id == pre.next_id
    &&& post.killed == pre.killed
}

impl Session {
    /// What an edit against the given revision produces: the exact
    /// acceptance condition and error taxonomy of the edit path.
    pub open spec fn edit_result(self, revision: int, op: Seq<SpecOp>) -> Result<(), EditError> {
        let n = self.hist().len() as int;
        if revision > n {
            Err(EditError::InvalidRevision)
        } else if revision < n && base_len_of(op) != self.doc_len_at(revision) {
            Err(EditError::OTFailure)
        } else if target_len_of(rebased(op, self.hist().skip(revision))) > MAX_TARGET_LEN as nat {
            Err(EditError::DocumentTooLarge)
        } else if base_len_of(op) != self.doc_len_at(revision) {
            Err(EditError::OTFailure)
        } else {
            Ok(())
        }
    }

    /// Commits a client edit made against `revision`: the operation is
    /// rebased over every later committed operation, checked against the
    /// size cap, applied to the text, and appended to the history, while
    /// every stored cursor offset is mapped through it. On any error the
    /// session is unchanged. Committed edits stay within the size cap, and
    /// cursors that were in bounds stay in bounds.
    #[verifier::rlimit(100)]
    pub fn apply_edit(
        &mut self,
        id: u64,
        revision: usize,
        operation: OperationSeq,
        email: Option<String>,
    ) -> (r: Result<(), EditError>)
        requires
            old(self).wf(),
        ensures
            final(self).wf(),
            r == old(self).edit_result(revision as int, ops_of(operation)),
            r.is_err() ==> *final(self) == *old(self),
            r.is_ok() ==> edit_committed(
                *old(self),
                *final(self),
                id,
                revision as int,
                ops_of(operation),
                email,
            ),
            old(self).cursor_wf() && r.is_ok() ==> final(self).cursor_wf(),
    {
        let ghost h = old(self).hist();
        let ghost orig = ops_of(operation);
        let n = self.operations.len();
        if revision > n {
            return Err(EditError::InvalidRevision);
        }
        if revision < n {
            let expected = crate::ot::ot_base_len(&self.operations[revision].operation);
            proof {
                assert(base_len_of(h[revision as int]) == fold_apply(
                    h.take(revision as int),
                ).len());
            }
            if crate::ot::ot_base_len(&operation) != expected {
                return Err(EditError::OTFailure);
            }
        }
        let mut op = operation;
        proof {
            assert(h.skip(revision as int).take(0) =~= Seq::<Seq<SpecOp>>::empty());
            assert(h.take(n as int) =~= h);
        }
        let mut j: usize = revision;
        while j < n
            invariant
                old(self).wf(),
                *self == *old(self),
                h == old(self).hist(),
                orig == ops_of(operation),
                n == h.len(),
                revision <= j <= n,
                ops_of(op) == rebased(orig, h.skip(revision as int).take(j - revision as int)),
                revision < n ==> base_len_of(ops_of(op)) == old(self).doc_len_at(j as int),
            decreases n - j,
        {
            let hop = &self.operations[j];
            proof {
                assert(base_len_of(h[j as int]) == fold_apply(h.take(j as int)).len());
            }
            match crate::ot::ot_transform(&op, &hop.operation) {
                Ok(pair) => {
                    proof {
                        crate::ot::lemma_fold_step(h, j as int);
                        crate::ot::lemma_rebased_push(
                            orig,
                            h.skip(revision as int).take(j - revision as int),
                            h[j as int],
                        );
                        assert(h.skip(revision as int).take(j - revision as int).push(h[j as int])
                            =~= h.skip(revision as int).take(j + 1 - revision as int));
                    }
                    op = pair.0;
                }
                Err(_) => {
                    // Unreachable: the chained history invariant makes the
                    // base lengths match, so the transform cannot fail here.
                    proof {
                        assert(false);
                    }
                    return Err(EditError::OTFailure);
                }
            }
            j = j + 1;
        }
        let ghost rop = rebased(orig, h.skip(revision as int));
        proof {
            assert(h.skip(revision as int).take(n - revision as int) =~= h.skip(revision as int));
            if revision == n {
                assert(h.skip(n as int) =~= Seq::<Seq<SpecOp>>::empty());
            }
            assert(ops_of(op) == rop);
        }
        let t = crate::ot::ot_target_len(&op);
        if t > MAX_TARGET_LEN {
            return Err(EditError::DocumentTooLarge);
        }
        let new_text = match crate::ot::ot_apply(&op, self.text.as_str()) {
            Ok(tx) => tx,
            Err(_) => {
                // Reachable only for an edit against the newest revision
                // whose base length does not fit the current text.
                proof {
                    if revision < n {
                        assert(false);
                    }
                }
                return Err(EditError::OTFailure);
            }
        };
        let prims = crate::ot::ot_ops(&op);
        let mut new_cursors: Vec<(u64, CursorData)> = Vec::new();
        let mut i: usize = 0;
        while i < self.cursors.len()
            invariant
                crate::ot::shape_target_len(prims@) <= u32::MAX,
                0 <= i <= self.cursors@.len(),
                new_cursors@.len() == i,
                forall|t2: int|
                    0 <= t2 < i ==> (#[trigger] new_cursors@[t2]).0 == self.cursors@[t2].0
                        && new_cursors@[t2].1@ == xformed_data(prims@, self.cursors@[t2].1),
            decreases self.cursors@.len() - i,
    {
            let entry_id = self.cursors[i].0;
            let nd = xform_cursor_data(&prims, &self.cursors[i].1);
            new_cursors.push((entry_id, nd));
            i = i + 1;
        }
        self.cursors = new_cursors;
        self.operations.push(UserOperation { id, operation: op, email });
        self.text = new_text;
        proof {
            assert(self.hist() =~= h.push(rop));
            let h2 = self.hist();
            assert(h2.drop_last() =~= h);
            assert(h2.last() == rop);
            assert(fold_apply(h2) == apply_of(rop, fold_apply(h)));
            assert forall|k: int| 0 <= k < h2.len() implies base_len_of(#[trigger] h2[k])
                == fold_apply(h2.take(k)).len() by {
                if k < h.len() {
                    assert(h2.take(k) =~= h.take(k));
                    assert(h2[k] == h[k]);
                    assert(base_len_of(h[k]) == fold_apply(h.take(k)).len());
                } else {
                    assert(h2.take(k) =~= h);
                }
            }
            assert forall|a: int, b: int| 0 <= a < b < self.cursors@.len() implies (
            #[trigger] self.cursors@[a]).0 != (#[trigger] self.cursors@[b]).0 by {
                assert(old(self).cursors@[a].0 != old(self).cursors@[b].0);
            }
            assert(self.operations@.subrange(0, h.len() as int) =~= old(self).operations@);
            if old(self).cursor_wf() {
                crate::ot::lemma_apply_len(rop, fold_apply(h));
                assert forall|jj: int| 0 <= jj < self.cursors@.len() implies cursor_data_wf(
                    (#[trigger] self.cursors@[jj]).1,
                    self.text@.len(),
                ) by {
                    let dold = old(self).cursors@[jj].1;
                    assert(cursor_data_wf(dold, old(self).text@.len()));
                    let dnew = self.cursors@[jj].1;
                    assert(dnew@ == xformed_data(prims@, dold));
                    assert forall|i2: int| 0 <= i2 < dnew.cursors@.len() implies (
                    #[trigger] dnew.cursors@[i2]) as nat <= self.text@.len() by {
                        assert(dold.cursors@[i2] as nat <= old(self).text@.len());
                        crate::ot::lemma_xform_index_bound(prims@, dold.cursors@[i2] as nat);
                        assert(dnew.cursors@[i2] == xform_u32(prims@, dold.cursors@[i2]));
                    }
                    assert forall|i2: int| 0 <= i2 < dnew.selections@.len() implies (
                    #[trigger] dnew.selections@[i2]).0 as nat <= self.text@.len()
                        && dnew.selections@[i2].1 as nat <= self.text@.len() by {
                        assert(dold.selections@[i2].0 as nat <= old(self).text@.len());
                        assert(dold.selections@[i2].1 as nat <= old(self).text@.len());
                        crate::ot::lemma_xform_index_bound(prims@, dold.selections@[i2].0 as nat);
                        crate::ot::lemma_xform_index_bound(prims@, dold.selections@[i2].1 as nat);
                        assert(dnew.selections@[i2] == (
                            xform_u32(prims@, dold.selections@[i2].0),
                            xform_u32(prims@, dold.selections@[i2].1),
                        ));
                    }
                }
            }
        }
        Ok(())
    }
}

/// Clones presence information; the views agree.
fn clone_user_info(u: &UserInfo) -> (r: UserInfo)
    ensures
        r@ == u@,
{
    UserInfo { name: u.name.clone(), hue: u.hue }
}

/// Clones a cursor record; the views agree.
fn clone_cursor_data(d: &CursorData) -> (r: CursorData)
    ensures
        r@ == d@,
{
    let mut cursors: Vec<u32> = Vec::new();
    let mut i: usize = 0;
    while i < d.cursors.len()
        invariant
            0 <= i <= d.cursors@.len(),
            cursors@ =~= d.cursors@.take(i as int),
        decreases d.cursors@.len() - i,
    {
        cursors.push(d.cursors[i]);
        proof {
            assert(d.cursors@.take(i as int + 1) =~= d.cursors@.take(i as int).push(
                d.cursors@[i as int],
            ));
        }
        i = i + 1;
    }
    let mut selections: Vec<(u32, u32)> = Vec::new();
    let mut j: usize = 0;
    while j < d.selections.len()
        invariant
            0 <= j <= d.selections@.len(),
            selections@ =~= d.selections@.take(j as int),
        decreases d.selections@.len() - j,
    {
        selections.push(d.selections[j]);
        proof {
            assert(d.selections@.take(j as int + 1) =~= d.selections@.take(j as int).push(
                d.selections@[j as int],
            ));
        }
        j = j + 1;
    }
    proof {
        assert(d.cursors@.take(d.cursors@.len() as int) =~= d.cursors@);
        assert(d.selections@.take(d.selections@.len() as int) =~= d.selections@);
    }
    CursorData { cursors, selections }
}

/// At any quiescent moment the current text equals the committed history
/// folded, in order, over the empty document.
pub proof fn lemma_text_is_history_fold(s: Session)
    requires
        s.wf(),
    ensures
        s.text@ == fold_apply(s.hist()),
{
}

/// Two sessions that have committed the same history agree on the text:
/// whatever order concurrent edits arrived in, the committed history alone
/// determines what every client ends up seeing.
pub proof fn lemma_same_history_same_text(a: Session, b: Session)
    requires
        a.wf(),
        b.wf(),
        a.hist() == b.hist(),
    ensures
        a.text@ == b.text@,
{
}

impl Session {
    /// Dispatches one decoded client message against the session state.
    /// Returns the actions the transport layer must carry out, in order, or
    /// the edit error that terminates the connection. Only an `Edit` can
    /// fail; every other message is absorbed, and an anonymous `SetColor`
    /// is ignored entirely.
    pub fn handle_message(&mut self, id: u64, msg: ClientMsg, email: Option<String>) -> (r: Result<
        Vec<Action>,
        EditError,
    >)
        requires
            old(self).wf(),
        ensures
            final(self).wf(),
            (msg matches ClientMsg::Edit { revision, operation } ==> (r.is_ok() <==> old(
                self,
            ).edit_result(revision as int, ops_of(operation)).is_ok()) && (r matches Err(e)
                ==> old(self).edit_result(revision as int, ops_of(operation)) == Err::<
                (),
                EditError,
            >(e) && *final(self) == *old(self)) && (r matches Ok(acts) ==> edit_committed(
                *old(self),
                *final(self),
                id,
                revision as int,
                ops_of(operation),
                email,
            ) && acts@ =~= seq![Action::NotifyEdits]) && (old(self).cursor_wf() && r.is_ok()
                ==> final(self).cursor_wf())),
            (msg matches ClientMsg::SetLanguage(l) ==> r matches Ok(acts) && opt_str_view(
                final(self).language,
            ) == Some(l@) && acts_view(acts@) =~= seq![ActionV::Broadcast(ServerMsgV::Language(l@))]
                && final(self).operations == old(self).operations && final(self).text == old(
                self,
            ).text && final(self).users == old(self).users && final(self).cursors == old(
                self,
            ).cursors && final(self).user_colors == old(self).user_colors && final(self).next_id
                == old(self).next_id && final(self).killed == old(self).killed),
            (msg matches ClientMsg::ClientInfo(info) ==> r matches Ok(acts) && pair_map(
                final(self).users@,
            ) == pair_map(old(self).users@).insert(id, info) && acts_view(acts@) =~= seq![
                ActionV::Broadcast((ServerMsgV::UserInfo { id, info: Some(info@) })),
            ] && final(self).operations == old(self).operations && final(self).text == old(
                self,
            ).text && final(self).language == old(self).language && final(self).cursors == old(
                self,
            ).cursors && final(self).user_colors == old(self).user_colors && final(self).next_id
                == old(self).next_id && final(self).killed == old(self).killed),
            (msg matches ClientMsg::CursorData(data) ==> r matches Ok(acts) && pair_map(
                final(self).cursors@,
            ) == pair_map(old(self).cursors@).insert(id, data) && acts_view(acts@) =~= seq![
                ActionV::Broadcast((ServerMsgV::UserCursor { id, data: data@ })),
            ] && final(self).operations == old(self).operations && final(self).text == old(
                self,
            ).text && final(self).language == old(self).language && final(self).users == old(
                self,
            ).users && final(self).user_colors == old(self).user_colors && final(self).next_id
                == old(self).next_id && final(self).killed == old(self).killed),
            (msg matches ClientMsg::SetColor(hue) ==> (email matches Some(e) ==> r matches Ok(acts)
                && colors_map(final(self).user_colors@) == colors_map(
                old(self).user_colors@,
            ).insert(e@, hue) && acts_view(acts@) =~= seq![
                ActionV::Broadcast((ServerMsgV::UserColor { email: e@, hue })),
                (ActionV::PersistColor { email: e@, hue }),
            ] && final(self).operations == old(self).operations && final(self).text == old(
                self,
            ).text && final(self).language == old(self).language && final(self).users == old(
                self,
            ).users && final(self).cursors == old(self).cursors && final(self).next_id == old(
                self,
            ).next_id && final(self).killed == old(self).killed) && (email.is_none() ==> r.is_ok()
                && *final(self) == *old(self) && (r matches Ok(acts) ==> acts@.len() == 0))),
    {
        match msg {
            ClientMsg::Edit { revision, operation } => {
                match self.apply_edit(id, revision, operation, email) {
                    Ok(_) => {
                        let mut actions: Vec<Action> = Vec::new();
                        actions.push(Action::NotifyEdits);
                        proof {
                            assert(actions@ =~= seq![Action::NotifyEdits]);
                        }
                        Ok(actions)
                    },
                    Err(e) => Err(e),
                }
            },
            ClientMsg::SetLanguage(language) => {
                let mut actions: Vec<Action> = Vec::new();
                actions.push(Action::Broadcast(ServerMsg::Language(language.clone())));
                self.set_language(language);
                proof {
                    assert(acts_view(actions@) =~= seq![
                        ActionV::Broadcast(ServerMsgV::Language(final(self).language->0@)),
                    ]);
                }
                Ok(actions)
            },
            ClientMsg::ClientInfo(info) => {
                let mut actions: Vec<Action> = Vec::new();
                actions.push(
                    Action::Broadcast(
                        ServerMsg::UserInfo { id, info: Some(clone_user_info(&info)) },
                    ),
                );
                let ghost iv = info@;
                self.set_user_info(id, info);
                proof {
                    assert(acts_view(actions@) =~= seq![
                        ActionV::Broadcast((ServerMsgV::UserInfo { id, info: Some(iv) })),
                    ]);
                }
                Ok(actions)
            },
            ClientMsg::CursorData(data) => {
                let mut actions: Vec<Action> = Vec::new();
                actions.push(
                    Action::Broadcast(ServerMsg::UserCursor { id, data: clone_cursor_data(&data) }),
                );
                let ghost dv = data@;
                self.set_cursor(id, data);
                proof {
                    assert(acts_view(actions@) =~= seq![
                        ActionV::Broadcast((ServerMsgV::UserCursor { id, data: dv })),
                    ]);
                }
                Ok(actions)
            },
            ClientMsg::SetColor(hue) => {
                let mut actions: Vec<Action> = Vec::new();
                match email {
                    Option::Some(e) => {
                        actions.push(
                            Action::Broadcast(ServerMsg::UserColor { email: e.clone(), hue }),
                        );
                        actions.push(Action::PersistColor { email: e.clone(), hue });
                        let ghost ev = e@;
                        self.set_color(e, hue);
                        proof {
                            assert(acts_view(actions@) =~= seq![
                                ActionV::Broadcast((ServerMsgV::UserColor { email: ev, hue })),
                                (ActionV::PersistColor { email: ev, hue }),
                            ]);
                        }
                    },
                    Option::None => {},
                }
                Ok(actions)
            },
        }
    }

    /// The views of the messages a fresh connection must receive, in order,
    /// before it starts multiplexing: its identity, its authenticated email,
    /// then the full history, the language, and one message per stored user,
    /// cursor and color entry, each section omitted when empty.
    pub open spec fn dump_view(self, id: u64, email: Option<Seq<char>>) -> Seq<ServerMsgV> {
        seq![ServerMsgV::Identity(id), ServerMsgV::AuthenticatedEmail(email)] + (
        if self.operations@.len() > 0 {
            seq![
                (ServerMsgV::History {
                    start: 0usize,
                    operations: self.operations@.map_values(|u: UserOperation| u@),
                }),
            ]
        } else {
            Seq::<ServerMsgV>::empty()
        }) + (match opt_str_view(self.language) {
            Option::Some(l) => seq![ServerMsgV::Language(l)],
            Option::None => Seq::<ServerMsgV>::empty(),
        }) + self.users@.map_values(
            |e: (u64, UserInfo)| (ServerMsgV::UserInfo { id: e.0, info: Some(e.1@) }),
        ) + self.cursors@.map_values(
            |e: (u64, CursorData)| (ServerMsgV::UserCursor { id: e.0, data: e.1@ }),
        ) + self.user_colors@.map_values(
            |e: (String, u32)| (ServerMsgV::UserColor { email: e.0@, hue: e.1 }),
        )
    }

    /// Builds the initial dump for a fresh connection: exactly the messages
    /// of [`Session::dump_view`], in that order.
    pub fn initial_messages(&self, id: u64, email: Option<String>) -> (r: Vec<ServerMsg>)
        ensures
            r@.map_values(|m: ServerMsg| m@) == self.dump_view(id, opt_str_view(email)),
    {
        let ghost f = |m: ServerMsg| m@;
        let ghost ev = opt_str_view(email);
        let mut r: Vec<ServerMsg> = Vec::new();
        r.push(ServerMsg::Identity(id));
        r.push(ServerMsg::AuthenticatedEmail(email));
        let ghost d0 = seq![ServerMsgV::Identity(id), ServerMsgV::AuthenticatedEmail(ev)];
        proof {
            assert(r@.map_values(f) =~= d0);
        }
        if self.operations.len() > 0 {
            let history = self.history_since(0);
            proof {
                assert(self.operations@.skip(0) =~= self.operations@);
            }
            r.push(ServerMsg::History { start: 0, operations: history });
        }
        let ghost d1 = d0 + (if self.operations@.len() > 0 {
            seq![
                (ServerMsgV::History {
                    start: 0usize,
                    operations: self.operations@.map_values(|u: UserOperation| u@),
                }),
            ]
        } else {
            Seq::<ServerMsgV>::empty()
        });
        proof {
            assert(r@.map_values(f) =~= d1);
        }
        match &self.language {
            Option::Some(l) => {
                r.push(ServerMsg::Language(l.clone()));
            },
            Option::None => {},
        }
        let ghost d2 = d1 + (match opt_str_view(self.language) {
            Option::Some(l) => seq![ServerMsgV::Language(l)],
            Option::None => Seq::<ServerMsgV>::empty(),
        });
        proof {
            assert(r@.map_values(f) =~= d2);
        }
        let ghost gu = |e: (u64, UserInfo)| (ServerMsgV::UserInfo { id: e.0, info: Some(e.1@) });
        let mut i: usize = 0;
        while i < self.users.len()
            invariant
                0 <= i <= self.users@.len(),
                gu == (|e: (u64, UserInfo)| (ServerMsgV::UserInfo { id: e.0, info: Some(e.1@) })),
                f == (|m: ServerMsg| m@),
                r@.map_values(f) =~= d2 + self.users@.take(i as int).map_values(gu),
            decreases self.users@.len() - i,
        {
            let entry = &self.users[i];
            let ghost prev = r@;
            r.push(ServerMsg::UserInfo { id: entry.0, info: Some(clone_user_info(&entry.1)) });
            proof {
                assert(r@.map_values(f) =~= prev.map_values(f).push(f(r@.last())));
                assert(f(r@.last()) == gu(self.users@[i as int]));
                assert(self.users@.take(i as int + 1).map_values(gu) =~= self.users@.take(
                    i as int,
                ).map_values(gu).push(gu(self.users@[i as int])));
                assert((d2 + self.users@.take(i as int).map_values(gu)).push(
                    gu(self.users@[i as int]),
                ) =~= d2 + self.users@.take(i as int + 1).map_values(gu));
            }
            i = i + 1;
        }
        let ghost d3 = d2 + self.users@.map_values(gu);
        proof {
            assert(self.users@.take(self.users@.len() as int) =~= self.users@);
            assert(r@.map_values(f) =~= d3);
        }
        let ghost gc = |e: (u64, CursorData)| (ServerMsgV::UserCursor { id: e.0, data: e.1@ });
        let mut j: usize = 0;
        while j < self.cursors.len()
            invariant
                0 <= j <= self.cursors@.len(),
                gc == (|e: (u64, CursorData)| (ServerMsgV::UserCursor { id: e.0, data: e.1@ })),
                f == (|m: ServerMsg| m@),
                r@.map_values(f) =~= d3 + self.cursors@.take(j as int).map_values(gc),
            decreases self.cursors@.len() - j,
        {
            let entry = &self.cursors[j];
            let ghost prev = r@;
            r.push(ServerMsg::UserCursor { id: entry.0, data: clone_cursor_data(&entry.1) });
            proof {
                assert(r@.map_values(f) =~= prev.map_values(f).push(f(r@.last())));
                assert(f(r@.last()) == gc(self.cursors@[j as int]));
                assert(self.cursors@.take(j as int + 1).map_values(gc) =~= self.cursors@.take(
                    j as int,
                ).map_values(gc).push(gc(self.cursors@[j as int])));
                assert((d3 + self.cursors@.take(j as int).map_values(gc)).push(
                    gc(self.cursors@[j as int]),
                ) =~= d3 + self.cursors@.take(j as int + 1).map_values(gc));
            }
            j = j + 1;
        }
        let ghost d4 = d3 + self.cursors@.map_values(gc);
        proof {
            assert(self.cursors@.take(self.cursors@.len() as int) =~= self.cursors@);
            assert(r@.map_values(f) =~= d4);
        }
        let ghost gk = |e: (String, u32)| (ServerMsgV::UserColor { email: e.0@, hue: e.1 });
        let mut k: usize = 0;
        while k < self.user_colors.len()
            invariant
                0 <= k <= self.user_colors@.len(),
                gk == (|e: (String, u32)| (ServerMsgV::UserColor { email: e.0@, hue: e.1 })),
                f == (|m: ServerMsg| m@),
                r@.map_values(f) =~= d4 + self.user_colors@.take(k as int).map_values(gk),
            decreases self.user_colors@.len() - k,
        {
            let entry = &self.user_colors[k];
            let ghost prev = r@;
            r.push(ServerMsg::UserColor { email: entry.0.clone(), hue: entry.1 });
            proof {
                assert(r@.map_values(f) =~= prev.map_values(f).push(f(r@.last())));
                assert(f(r@.last()) == gk(self.user_colors@[k as int]));
                assert(self.user_colors@.take(k as int + 1).map_values(gk)
                    =~= self.user_colors@.take(k as int).map_values(gk).push(
                    gk(self.user_colors@[k as int]),
                ));
                assert((d4 + self.user_colors@.take(k as int).map_values(gk)).push(
                    gk(self.user_colors@[k as int]),
                ) =~= d4 + self.user_colors@.take(k as int + 1).map_values(gk));
            }
            k = k + 1;
        }
        proof {
            assert(self.user_colors@.take(self.user_colors@.len() as int) =~= self.user_colors@);
            assert(r@.map_values(f) =~= self.dump_view(id, ev));
        }
        r
    }
}

} // verus!
