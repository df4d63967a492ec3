//! Session messages: batched appends deduplicated by client message id,
//! listing, and the input for title generation.
use vstd::prelude::*;

use serde_json::Value;

use super::{SessionStore, StoreV};
use crate::error::{DatabaseFailure, SessionStoreError};
use crate::ids::{drawn_id, prefixed_id};
use crate::json::clone_json;
use crate::order::{in_key_order, is_permutation, key_less, reordered, sort_rows, KeyedRow};
use crate::records::{clone_json_vec, MessageV, SessionMessage, SessionMessageInput};
use crate::types::{opt_as_str, opt_clone, opt_string_view, opt_text_eq, text_eq, MessageRole, ThreadKey};

verus! {

/// Message ids are unique, and client message ids are unique per thread.
pub open spec fn messages_unique(s: Seq<MessageV>) -> bool {
    &&& forall|i: int, j: int|
        0 <= i < s.len() && 0 <= j < s.len() && i != j ==> s[i].message_id != s[j].message_id
    &&& forall|i: int, j: int|
        0 <= i < s.len() && 0 <= j < s.len() && i != j && s[i].thread_key == s[j].thread_key
            && s[i].client_message_id is Some ==> s[i].client_message_id != s[j].client_message_id
}

/// `m` is a message of thread `key` with id `id` and, when `client` is
/// given, that client message id.
pub open spec fn holds_id(m: MessageV, id: Seq<char>, key: Seq<char>, client: Option<Seq<char>>) -> bool {
    m.message_id == id && m.thread_key == key && (client is Some ==> m.client_message_id == client)
}

/// Some message of `s` holds id `id` for thread `key` (and `client`).
pub open spec fn id_stored(s: Seq<MessageV>, id: Seq<char>, key: Seq<char>, client: Option<Seq<char>>) -> bool {
    exists|p: int| 0 <= p < s.len() && holds_id(#[trigger] s[p], id, key, client)
}

/// The views of a list of messages.
pub open spec fn message_views(v: Seq<SessionMessage>) -> Seq<MessageV> {
    v.map_values(|m: SessionMessage| m@)
}

/// The messages of thread `key`.
pub open spec fn of_thread(key: Seq<char>) -> spec_fn(MessageV) -> bool {
    |m: MessageV| m.thread_key == key
}

/// The user messages of thread `key`.
pub open spec fn user_of_thread(key: Seq<char>) -> spec_fn(MessageV) -> bool {
    |m: MessageV| m.thread_key == key && m.role == MessageRole::User
}

/// The messages of thread `key`; with `user_only`, its user messages.
pub open spec fn msg_filter(key: Seq<char>, user_only: bool) -> spec_fn(MessageV) -> bool {
    if user_only {
        user_of_thread(key)
    } else {
        of_thread(key)
    }
}

/// The keys messages are listed by: when each was created, then its id.
pub open spec fn msg_keys(s: Seq<MessageV>) -> Seq<(i128, Seq<char>)> {
    s.map_values(|m: MessageV| (m.created_at, m.message_id))
}

impl KeyedRow for SessionMessage {
    open spec fn row_key(&self) -> (i128, Seq<char>) {
        (self.created_at, self.message_id@)
    }

    fn sorts_before(&self, other: &Self) -> (r: bool) {
        key_less(self.created_at, self.message_id.as_str(), other.created_at, other.message_id.as_str())
    }
}

/// The parts of each message, one list after another.
pub open spec fn all_parts(s: Seq<MessageV>) -> Seq<Value> {
    s.map_values(|m: MessageV| m.parts).flatten()
}

/// The id of the message of thread `key` with client id `c` among `s`.
pub open spec fn client_message_id_in(s: Seq<MessageV>, key: Seq<char>, c: Seq<char>) -> Option<Seq<char>> {
    if exists|i: int| 0 <= i < s.len() && s[i].thread_key == key && s[i].client_message_id == Some(c) {
        Some(
            s[choose|i: int|
                0 <= i < s.len() && s[i].thread_key == key && s[i].client_message_id
                    == Some(c)].message_id,
        )
    } else {
        None
    }
}

/// `input` repeats a client message id that thread `key` holds in `s`.
pub open spec fn is_repeat(s: Seq<MessageV>, key: Seq<char>, input: SessionMessageInput) -> bool {
    input.client_message_id matches Some(c) && client_message_id_in(s, key, c@) is Some
}

/// The message an input adds to thread `key` under id `id`.
pub open spec fn added_message(
    input: SessionMessageInput,
    id: Seq<char>,
    key: Seq<char>,
    now: i128,
) -> MessageV {
    MessageV {
        message_id: id,
        client_message_id: opt_string_view(input.client_message_id),
        thread_key: key,
        role: input.role,
        parts: input.parts@,
        metadata: input.metadata,
        created_at: now,
    }
}

/// The messages the first `n` inputs of a batch add after `stored`, given
/// the ids the batch returned: an input that repeats a client message id
/// the thread holds, stored or added earlier in the batch, adds nothing;
/// any other adds its message under its returned id.
pub open spec fn batch_added(
    stored: Seq<MessageV>,
    key: Seq<char>,
    inputs: Seq<SessionMessageInput>,
    ids: Seq<String>,
    now: i128,
    n: nat,
) -> Seq<MessageV>
    decreases n,
{
    if n == 0 {
        Seq::empty()
    } else {
        let prev = batch_added(stored, key, inputs, ids, now, (n - 1) as nat);
        if is_repeat(stored + prev, key, inputs[n - 1]) {
            prev
        } else {
            prev.push(added_message(inputs[n - 1], ids[n - 1]@, key, now))
        }
    }
}

/// Input `q` of a batch is new to its thread, and the fresh id `fresh[q]`
/// drawn for it is already taken by a stored message or one the batch added
/// before it.
pub open spec fn fresh_collides_at(
    stored: Seq<MessageV>,
    key: Seq<char>,
    inputs: Seq<SessionMessageInput>,
    fresh: Seq<String>,
    now: i128,
    q: int,
) -> bool {
    let all = stored + batch_added(stored, key, inputs, fresh, now, q as nat);
    &&& !is_repeat(all, key, inputs[q])
    &&& exists|j: int| 0 <= j < all.len() && #[trigger] all[j].message_id == fresh[q]@
}

/// Some input of the batch collides on its fresh id.
pub open spec fn fresh_collision(
    stored: Seq<MessageV>,
    key: Seq<char>,
    inputs: Seq<SessionMessageInput>,
    fresh: Seq<String>,
    now: i128,
) -> bool {
    exists|q: int| 0 <= q < inputs.len() && #[trigger] fresh_collides_at(stored, key, inputs, fresh, now, q)
}

/// What appending the batch `inputs` to thread `key` does, from store `s0`
/// to store `s1` with result `r`, when input `q` is given the fresh id
/// `fresh[q]` should it be new. An empty batch changes nothing; a batch for
/// a session that does not exist is refused whole; so is a batch whose
/// fresh id collides; any other adds the messages `batch_added` names and
/// returns, for each input, the id of its message.
pub open spec fn append_outcome(
    s0: StoreV,
    s1: StoreV,
    r: Result<Vec<String>, SessionStoreError>,
    key: Seq<char>,
    inputs: Seq<SessionMessageInput>,
    fresh: Seq<String>,
    now: i128,
) -> bool {
    let before = s0.messages;
    let n = inputs.len();
    &&& n == 0 ==> s1 == s0 && (r matches Ok(v) && v.len() == 0)
    &&& n > 0 && !s0.has_session(key) ==> s1 == s0 && (r matches Err(e)
        && e matches SessionStoreError::Sqlx(DatabaseFailure::ForeignKeyViolation))
    &&& r is Err ==> s1 == s0
    &&& n > 0 && s0.has_session(key) ==> (r is Err <==> fresh_collision(before, key, inputs, fresh, now))
    &&& n > 0 && s0.has_session(key) && r is Err ==> (r matches Err(e)
        && e matches SessionStoreError::Sqlx(DatabaseFailure::UniqueViolation))
    &&& r matches Ok(ids) ==> {
        let after = s1.messages;
        &&& ids.len() == n
        &&& after == before + batch_added(before, key, inputs, fresh, now, n)
        &&& after == before + batch_added(before, key, inputs, ids@, now, n)
        &&& forall|q: int|
            #![trigger ids[q]]
            0 <= q < n && !is_repeat(
                before + batch_added(before, key, inputs, fresh, now, q as nat),
                key,
                inputs[q],
            ) ==> ids[q]@ == fresh[q]@
        &&& forall|q: int|
            #![trigger ids[q]]
            0 <= q < n && is_repeat(
                before + batch_added(before, key, inputs, ids@, now, q as nat),
                key,
                inputs[q],
            ) ==> Some(ids[q]@) == client_message_id_in(
                before + batch_added(before, key, inputs, ids@, now, q as nat),
                key,
                inputs[q].client_message_id->0@,
            )
        &&& s1 == (StoreV { messages: after, ..s0 })
        &&& after.len() >= before.len()
        &&& after.subrange(0, before.len() as int) == before
        &&& forall|p: int|
            before.len() <= p < after.len() ==> after[p].thread_key == key && after[p].created_at == now
        &&& forall|k: int|
            #![trigger ids[k]]
            0 <= k < n ==> id_stored(after, ids[k]@, key, opt_string_view(inputs[k].client_message_id))
        &&& forall|k: int|
            #![trigger ids[k]]
            0 <= k < n && inputs[k].client_message_id is Some && client_message_id_in(
                before,
                key,
                inputs[k].client_message_id->0@,
            ) is Some ==> Some(ids[k]@) == client_message_id_in(
                before,
                key,
                inputs[k].client_message_id->0@,
            )
    }
}

/// Where each new input took its fresh id, the batch adds what it would
/// add under the fresh ids.
proof fn lemma_batch_fresh(
    stored: Seq<MessageV>,
    key: Seq<char>,
    inputs: Seq<SessionMessageInput>,
    ids: Seq<String>,
    fresh: Seq<String>,
    now: i128,
    n: nat,
)
    requires
        n <= ids.len(),
        n <= fresh.len(),
        forall|q: int|
            #![trigger ids[q]]
            0 <= q < n && !is_repeat(stored + batch_added(stored, key, inputs, ids, now, q as nat), key, inputs[q])
                ==> ids[q]@ == fresh[q]@,
    ensures
        batch_added(stored, key, inputs, ids, now, n) == batch_added(stored, key, inputs, fresh, now, n),
    decreases n,
{
    if n > 0 {
        lemma_batch_fresh(stored, key, inputs, ids, fresh, now, (n - 1) as nat);
        let m = (n - 1) as int;
        assert(ids[m] == ids[m]);
    }
}

/// What a batch adds depends only on the ids of the inputs taken.
proof fn lemma_batch_prefix(
    stored: Seq<MessageV>,
    key: Seq<char>,
    inputs: Seq<SessionMessageInput>,
    ids1: Seq<String>,
    ids2: Seq<String>,
    now: i128,
    n: nat,
)
    requires
        n <= ids1.len(),
        n <= ids2.len(),
        forall|i: int| 0 <= i < n ==> ids1[i] == ids2[i],
    ensures
        batch_added(stored, key, inputs, ids1, now, n) == batch_added(
            stored,
            key,
            inputs,
            ids2,
            now,
            n,
        ),
    decreases n,
{
    if n > 0 {
        lemma_batch_prefix(stored, key, inputs, ids1, ids2, now, (n - 1) as nat);
    }
}

/// The position of the message of thread `key` with client id `c` in `s`.
fn find_client_message_in(s: &Vec<SessionMessage>, key: &str, c: &str) -> (r: Option<usize>)
    ensures
        match r {
            Some(i) => i < s.len() && s@[i as int]@.thread_key == key@ && s@[i as int]@.client_message_id
                == Some(c@),
            None => forall|j: int|
                0 <= j < s.len() ==> !(s@[j]@.thread_key == key@ && s@[j]@.client_message_id == Some(
                    c@,
                )),
        },
{
    let mut i: usize = 0;
    while i < s.len()
        invariant
            0 <= i <= s.len(),
            forall|j: int|
                0 <= j < i ==> !(s@[j]@.thread_key == key@ && s@[j]@.client_message_id == Some(c@)),
        decreases s.len() - i,
    {
        let m = &s[i];
        if text_eq(m.thread_key.as_str(), key) && opt_text_eq(opt_as_str(&m.client_message_id), Some(c)) {
            return Some(i);
        }
        i = i + 1;
    }
    None
}

/// Looks a client message id up in `s`, then in `t`.
fn find_client_message(
    s: &Vec<SessionMessage>,
    t: &Vec<SessionMessage>,
    key: &str,
    c: &str,
) -> (r: Option<String>)
    requires
        messages_unique(message_views(s@) + message_views(t@)),
    ensures
        opt_string_view(r) == client_message_id_in(
            message_views(s@) + message_views(t@),
            key@,
            c@,
        ),
{
    let ghost all = message_views(s@) + message_views(t@);
    match find_client_message_in(s, key, c) {
        Some(i) => {
            assert(all[i as int] == s@[i as int]@);
            let ghost w = choose|j: int|
                0 <= j < all.len() && all[j].thread_key == key@ && all[j].client_message_id == Some(c@);
            assert(w == i as int);
            return Some(s[i].message_id.clone());
        },
        None => {},
    }
    match find_client_message_in(t, key, c) {
        Some(i) => {
            let ghost n = s.len() as int;
            assert(all[n + i] == t@[i as int]@);
            let ghost w = choose|j: int|
                0 <= j < all.len() && all[j].thread_key == key@ && all[j].client_message_id == Some(c@);
            assert(w == n + i);
            Some(t[i].message_id.clone())
        },
        None => {
            assert forall|j: int| 0 <= j < all.len() implies !(all[j].thread_key == key@
                && all[j].client_message_id == Some(c@)) by {
                if j < s.len() {
                    assert(all[j] == s@[j]@);
                } else {
                    assert(all[j] == t@[j - s.len()]@);
                }
            }
            None
        },
    }
}

/// True when some message of `s` has id `id`.
fn message_id_in(s: &Vec<SessionMessage>, id: &str) -> (r: bool)
    ensures
        r == exists|j: int| 0 <= j < s.len() && s@[j]@.message_id == id@,
{
    let mut i: usize = 0;
    while i < s.len()
        invariant
            0 <= i <= s.len(),
            forall|j: int| 0 <= j < i ==> s@[j]@.message_id != id@,
        decreases s.len() - i,
    {
        if text_eq(s[i].message_id.as_str(), id) {
            assert(s@[i as int]@.message_id == id@);
            return true;
        }
        i = i + 1;
    }
    false
}

/// True when some message in `s` or `t` has id `id`.
fn message_id_taken(s: &Vec<SessionMessage>, t: &Vec<SessionMessage>, id: &str) -> (r: bool)
    ensures
        r == exists|j: int|
            0 <= j < s.len() + t.len() && (message_views(s@) + message_views(t@))[j].message_id
                == id@,
{
    let ghost all = message_views(s@) + message_views(t@);
    let a = message_id_in(s, id);
    let b = message_id_in(t, id);
    proof {
        if a {
            let j = choose|j: int| 0 <= j < s.len() && s@[j]@.message_id == id@;
            assert(all[j] == s@[j]@);
        }
        if b {
            let j = choose|j: int| 0 <= j < t.len() && t@[j]@.message_id == id@;
            assert(all[s.len() + j] == t@[j]@);
        }
        if exists|j: int| 0 <= j < s.len() + t.len() && all[j].message_id == id@ {
            let j = choose|j: int| 0 <= j < s.len() + t.len() && all[j].message_id == id@;
            if j < s.len() {
                assert(all[j] == s@[j]@);
            } else {
                assert(all[j] == t@[j - s.len()]@);
            }
        }
    }
    a || b
}

impl SessionStore {
    /// Appends `messages` to session `thread_key` in one transaction and
    /// returns their ids in order. A message whose client message id the
    /// thread already has is not stored again: the stored message's id is
    /// returned for it. A batch for a session that does not exist is
    /// refused whole, as is a batch whose fresh id collides with a stored
    /// one; a refused batch changes nothing.
    pub fn append_messages(
        &mut self,
        thread_key: &ThreadKey,
        messages: &Vec<SessionMessageInput>,
        now: i128,
    ) -> (r: Result<Vec<String>, SessionStoreError>)
        requires
            old(self)@.wf(),
        ensures
            final(self)@.wf(),
            exists|fresh: Seq<String>|
                fresh.len() == messages.len() && (forall|q: int|
                    0 <= q < fresh.len() ==> drawn_id(#[trigger] fresh[q]@, "msg"@))
                    && #[trigger] append_outcome(
                    old(self)@,
                    final(self)@,
                    r,
                    thread_key@,
                    messages@,
                    fresh,
                    now,
                ),
    {
        let mut fresh: Vec<String> = Vec::new();
        let mut k: usize = 0;
        while k < messages.len()
            invariant
                k <= messages.len(),
                fresh.len() == k,
                forall|q: int| 0 <= q < fresh.len() ==> drawn_id(#[trigger] fresh@[q]@, "msg"@),
            decreases messages.len() - k,
        {
            let id = prefixed_id("msg");
            proof {
                reveal_strlit("msg");
            }
            fresh.push(id);
            k = k + 1;
        }
        self.append_messages_with_ids(thread_key, messages, &fresh, now)
    }

    /// Appends a batch of messages to session `thread_key`, giving each new
    /// message the id `fresh` holds at its position; see `append_outcome`.
    pub fn append_messages_with_ids(
        &mut self,
        thread_key: &ThreadKey,
        messages: &Vec<SessionMessageInput>,
        fresh: &Vec<String>,
        now: i128,
    ) -> (r: Result<Vec<String>, SessionStoreError>)
        requires
            old(self)@.wf(),
            fresh.len() == messages.len(),
        ensures
            final(self)@.wf(),
            append_outcome(old(self)@, final(self)@, r, thread_key@, messages@, fresh@, now),
    {
        if messages.len() == 0 {
            let r: Vec<String> = Vec::new();
            proof {
                let before = self@.messages;
                assert(before + batch_added(before, thread_key@, messages@, fresh@, now, 0) =~= before);
                assert(before + batch_added(before, thread_key@, messages@, r@, now, 0) =~= before);
                assert(before.subrange(0, before.len() as int) =~= before);
                assert(self@ == (StoreV { messages: before, ..self@ }));
            }
            return Ok(r);
        }
        if self.find_session(thread_key.as_str()).is_none() {
            return Err(SessionStoreError::Sqlx(DatabaseFailure::ForeignKeyViolation));
        }
        let ghost before = self@;
        let ghost old_msgs = message_views(self.messages@);
        assert(self@.messages == old_msgs);
        let mut pending: Vec<SessionMessage> = Vec::new();
        let mut ids: Vec<String> = Vec::new();
        let mut k: usize = 0;
        assert(message_views(self.messages@) + message_views(pending@) =~= old_msgs);
        while k < messages.len()
            invariant
                0 <= k <= messages.len(),
                self@ == before,
                before == old(self)@,
                before.has_session(thread_key@),
                old_msgs == message_views(self.messages@),
                old_msgs == before.messages,
                before.wf(),
                fresh.len() == messages.len(),
                messages_unique(old_msgs + message_views(pending@)),
                ids.len() == k,
                forall|q: int|
                    #![trigger ids[q]]
                    0 <= q < k && !is_repeat(
                        old_msgs + batch_added(old_msgs, thread_key@, messages@, ids@, now, q as nat),
                        thread_key@,
                        messages[q],
                    ) ==> ids[q]@ == fresh[q]@,
                forall|q: int|
                    0 <= q < k ==> !#[trigger] fresh_collides_at(old_msgs, thread_key@, messages@, fresh@, now, q),
                message_views(pending@) == batch_added(
                    old_msgs,
                    thread_key@,
                    messages@,
                    ids@,
                    now,
                    k as nat,
                ),
                forall|q: int|
                    #![trigger ids[q]]
                    0 <= q < k && is_repeat(
                        old_msgs + batch_added(old_msgs, thread_key@, messages@, ids@, now, q as nat),
                        thread_key@,
                        messages[q],
                    ) ==> Some(ids[q]@) == client_message_id_in(
                        old_msgs + batch_added(old_msgs, thread_key@, messages@, ids@, now, q as nat),
                        thread_key@,
                        messages[q].client_message_id->0@,
                    ),
                forall|p: int|
                    0 <= p < pending.len() ==> pending[p]@.thread_key == thread_key@
                        && pending[p]@.created_at == now,
                forall|q: int|
                    #![trigger ids[q]]
                    0 <= q < k ==> id_stored((old_msgs + message_views(pending@)), ids[q]@, thread_key@, opt_string_view(messages[q].client_message_id)),
                forall|q: int|
                    #![trigger ids[q]]
                    0 <= q < k && messages[q].client_message_id is Some && client_message_id_in(
                        old_msgs,
                        thread_key@,
                        messages[q].client_message_id->0@,
                    ) is Some ==> Some(ids[q]@) == client_message_id_in(
                        old_msgs,
                        thread_key@,
                        messages[q].client_message_id->0@,
                    ),
            decreases messages.len() - k,
        {
            let input = &messages[k];
            let ghost all = old_msgs + message_views(pending@);
            let ghost ids_before = ids@;
            proof {
                lemma_batch_fresh(old_msgs, thread_key@, messages@, ids@, fresh@, now, k as nat);
                assert(all == old_msgs + batch_added(old_msgs, thread_key@, messages@, fresh@, now, k as nat));
            }
            let existing = match &input.client_message_id {
                Some(c) => find_client_message(&self.messages, &pending, thread_key.as_str(), c.as_str()),
                None => None,
            };
            match existing {
                Some(id) => {
                    proof {
                        let c = input.client_message_id->0@;
                        let w = choose|i: int|
                            0 <= i < all.len() && all[i].thread_key == thread_key@
                                && all[i].client_message_id == Some(c);
                        assert(all[w].message_id == id@);
                        if client_message_id_in(old_msgs, thread_key@, c) is Some {
                            let v = choose|i: int|
                                0 <= i < old_msgs.len() && old_msgs[i].thread_key == thread_key@
                                    && old_msgs[i].client_message_id == Some(c);
                            assert(all[v] == old_msgs[v]);
                            assert(w == v);
                        }
                    }
                    ids.push(id);
                    proof {
                        lemma_batch_prefix(old_msgs, thread_key@, messages@, ids_before, ids@, now, k as nat);
                        assert(is_repeat(all, thread_key@, messages@[k as int]));
                        assert forall|q: int|
                            #![trigger ids[q]]
                            0 <= q < k + 1 && is_repeat(
                                old_msgs + batch_added(old_msgs, thread_key@, messages@, ids@, now, q as nat),
                                thread_key@,
                                messages[q],
                            ) implies Some(ids[q]@) == client_message_id_in(
                                old_msgs + batch_added(old_msgs, thread_key@, messages@, ids@, now, q as nat),
                                thread_key@,
                                messages[q].client_message_id->0@,
                            ) by {
                            lemma_batch_prefix(old_msgs, thread_key@, messages@, ids_before, ids@, now, q as nat);
                            if q < k {
                                assert(ids@[q] == ids_before[q]);
                            }
                        }
                        assert forall|q: int|
                            #![trigger ids[q]]
                            0 <= q < k + 1 && !is_repeat(
                                old_msgs + batch_added(old_msgs, thread_key@, messages@, ids@, now, q as nat),
                                thread_key@,
                                messages[q],
                            ) implies ids[q]@ == fresh[q]@ by {
                            lemma_batch_prefix(old_msgs, thread_key@, messages@, ids_before, ids@, now, q as nat);
                            if q < k {
                                assert(ids@[q] == ids_before[q]);
                            }
                        }
                        assert(!fresh_collides_at(old_msgs, thread_key@, messages@, fresh@, now, k as int));
                        assert forall|q: int|
                            #![trigger ids[q]]
                            0 <= q < k + 1 implies id_stored((old_msgs + message_views(pending@)), ids[q]@, thread_key@, opt_string_view(messages[q].client_message_id)) by {
                            if q == k {
                                let c = input.client_message_id->0@;
                                let w = choose|i: int|
                                    0 <= i < all.len() && all[i].thread_key == thread_key@
                                        && all[i].client_message_id == Some(c);
                                assert(holds_id(
                                    all[w],
                                    ids[q]@,
                                    thread_key@,
                                    opt_string_view(messages[q].client_message_id),
                                ));
                                assert(id_stored(all, ids[q]@, thread_key@, opt_string_view(messages[q].client_message_id)));
                            } else {
                                assert(ids@[q] == ids_before[q]);
                            }
                        }
                    }
                },
                None => {
                    let id = fresh[k].clone();
                    if message_id_taken(&self.messages, &pending, id.as_str()) {
                        proof {
                            let j = choose|j: int|
                                0 <= j < self.messages.len() + pending.len() && (message_views(
                                    self.messages@,
                                ) + message_views(pending@))[j].message_id == id@;
                            assert(all[j].message_id == fresh@[k as int]@);
                            assert(fresh_collides_at(old_msgs, thread_key@, messages@, fresh@, now, k as int));
                            assert(fresh_collision(old_msgs, thread_key@, messages@, fresh@, now));
                        }
                        return Err(SessionStoreError::Sqlx(DatabaseFailure::UniqueViolation));
                    }
                    proof {
                        assert(!fresh_collides_at(old_msgs, thread_key@, messages@, fresh@, now, k as int));
                    }
                    let m = SessionMessage {
                        message_id: id.clone(),
                        client_message_id: opt_clone(&input.client_message_id),
                        thread_key: thread_key.duplicate(),
                        role: input.role,
                        parts: clone_json_vec(&input.parts),
                        metadata: clone_json(&input.metadata),
                        created_at: now,
                    };
                    let ghost pending_before = pending@;
                    pending.push(m);
                    ids.push(id);
                    proof {
                        lemma_batch_prefix(old_msgs, thread_key@, messages@, ids_before, ids@, now, k as nat);
                        assert(!is_repeat(all, thread_key@, messages@[k as int]));
                        assert(m@ == added_message(messages@[k as int], ids@[k as int]@, thread_key@, now));
                        assert(message_views(pending@) =~= message_views(pending_before).push(m@));
                        assert forall|q: int|
                            #![trigger ids[q]]
                            0 <= q < k + 1 && is_repeat(
                                old_msgs + batch_added(old_msgs, thread_key@, messages@, ids@, now, q as nat),
                                thread_key@,
                                messages[q],
                            ) implies Some(ids[q]@) == client_message_id_in(
                                old_msgs + batch_added(old_msgs, thread_key@, messages@, ids@, now, q as nat),
                                thread_key@,
                                messages[q].client_message_id->0@,
                            ) by {
                            lemma_batch_prefix(old_msgs, thread_key@, messages@, ids_before, ids@, now, q as nat);
                            if q < k {
                                assert(ids@[q] == ids_before[q]);
                            }
                        }
                        assert forall|q: int|
                            #![trigger ids[q]]
                            0 <= q < k + 1 && !is_repeat(
                                old_msgs + batch_added(old_msgs, thread_key@, messages@, ids@, now, q as nat),
                                thread_key@,
                                messages[q],
                            ) implies ids[q]@ == fresh[q]@ by {
                            lemma_batch_prefix(old_msgs, thread_key@, messages@, ids_before, ids@, now, q as nat);
                            if q < k {
                                assert(ids@[q] == ids_before[q]);
                            }
                        }
                        assert forall|p: int|
                            0 <= p < pending.len() implies pending[p]@.thread_key == thread_key@
                                && pending[p]@.created_at == now by {
                            if p < pending_before.len() {
                                assert(pending@[p] == pending_before[p]);
                            }
                        }
                        let new_all = old_msgs + message_views(pending@);
                        assert(message_views(pending@) =~= message_views(pending_before).push(m@));
                        assert(new_all =~= all.push(m@));
                        assert(new_all[all.len() as int] == m@);
                        assert forall|i: int, j: int|
                            0 <= i < new_all.len() && 0 <= j < new_all.len() && i != j
                                implies new_all[i].message_id != new_all[j].message_id by {
                            if i == all.len() {
                                assert(all[j] == new_all[j]);
                            } else if j == all.len() {
                                assert(all[i] == new_all[i]);
                            } else {
                                assert(all[i] == new_all[i] && all[j] == new_all[j]);
                            }
                        }
                        assert forall|i: int, j: int|
                            0 <= i < new_all.len() && 0 <= j < new_all.len() && i != j
                                && new_all[i].thread_key == new_all[j].thread_key
                                && new_all[i].client_message_id is Some
                                implies new_all[i].client_message_id
                                != new_all[j].client_message_id by {
                            if i == all.len() {
                                assert(all[j] == new_all[j]);
                            } else if j == all.len() {
                                assert(all[i] == new_all[i]);
                            } else {
                                assert(all[i] == new_all[i] && all[j] == new_all[j]);
                            }
                        }
                        assert forall|q: int|
                            #![trigger ids[q]]
                            0 <= q < k + 1 implies id_stored(new_all, ids[q]@, thread_key@, opt_string_view(messages[q].client_message_id)) by {
                            if q == k {
                                assert(holds_id(
                                    new_all[all.len() as int],
                                    ids[q]@,
                                    thread_key@,
                                    opt_string_view(messages[q].client_message_id),
                                ));
                                assert(id_stored(new_all, ids[q]@, thread_key@, opt_string_view(messages[q].client_message_id)));
                            } else {
                                assert(ids@[q] == ids_before[q]);
                                assert(id_stored(all, ids_before[q]@, thread_key@, opt_string_view(messages[q].client_message_id)));
                                let p = choose|p: int|
                                    0 <= p < all.len() && holds_id(
                                        #[trigger] all[p],
                                        ids_before[q]@,
                                        thread_key@,
                                        opt_string_view(messages[q].client_message_id),
                                    );
                                assert(new_all[p] == all[p]);
                                assert(holds_id(new_all[p], ids[q]@, thread_key@, opt_string_view(messages[q].client_message_id)));
                            }
                        }
                        if input.client_message_id is Some {
                            let c = input.client_message_id->0@;
                            if client_message_id_in(old_msgs, thread_key@, c) is Some {
                                let v = choose|i: int|
                                    0 <= i < old_msgs.len() && old_msgs[i].thread_key == thread_key@
                                        && old_msgs[i].client_message_id == Some(c);
                                assert(all[v] == old_msgs[v]);
                            }
                        }
                    }
                },
            }
            k = k + 1;
        }
        let ghost pend = message_views(pending@);
        let ghost pending_final = pending@;
        let mut pending = pending;
        self.messages.append(&mut pending);
        proof {
            assert(message_views(self.messages@) =~= old_msgs + pend);
            assert(self@.messages =~= old_msgs + pend);
            assert(pend == batch_added(old_msgs, thread_key@, messages@, ids@, now, messages.len() as nat));
            assert(self@.messages.subrange(0, old_msgs.len() as int) =~= old_msgs);
            assert forall|q: int|
                #![trigger ids[q]]
                0 <= q < ids.len() implies id_stored(self@.messages, ids[q]@, thread_key@, opt_string_view(messages[q].client_message_id)) by {
                assert(id_stored(old_msgs + pend, ids[q]@, thread_key@, opt_string_view(messages[q].client_message_id)));
                let p = choose|p: int|
                    0 <= p < (old_msgs + pend).len() && holds_id(
                        #[trigger] (old_msgs + pend)[p],
                        ids[q]@,
                        thread_key@,
                        opt_string_view(messages[q].client_message_id),
                    );
                assert(self@.messages[p] == (old_msgs + pend)[p]);
                assert(holds_id(self@.messages[p], ids[q]@, thread_key@, opt_string_view(messages[q].client_message_id)));
            }
            assert forall|p: int|
                old_msgs.len() <= p < self@.messages.len() implies self@.messages[p].thread_key
                == thread_key@ && self@.messages[p].created_at == now by {
                assert(self@.messages[p] == pend[p - old_msgs.len()]);
                assert(pend[p - old_msgs.len()] == pending_final[p - old_msgs.len()]@);
            }
            lemma_batch_fresh(old_msgs, thread_key@, messages@, ids@, fresh@, now, messages.len() as nat);
            assert forall|q: int|
                #![trigger ids[q]]
                0 <= q < messages.len() && !is_repeat(
                    old_msgs + batch_added(old_msgs, thread_key@, messages@, fresh@, now, q as nat),
                    thread_key@,
                    messages[q],
                ) implies ids[q]@ == fresh[q]@ by {
                lemma_batch_fresh(old_msgs, thread_key@, messages@, ids@, fresh@, now, q as nat);
            }
            assert(!fresh_collision(old_msgs, thread_key@, messages@, fresh@, now));
        }
        Ok(ids)
    }

    /// The messages of thread `thread_key` (with `user_only`, its user
    /// messages), oldest first, ties by message id.
    fn messages_in_order(&self, thread_key: &ThreadKey, user_only: bool) -> (r: Vec<SessionMessage>)
        requires
            self@.wf(),
        ensures
            r.len() == self@.messages.filter(msg_filter(thread_key@, user_only)).len(),
            exists|p: Seq<usize>|
                #[trigger] in_key_order(p, msg_keys(self@.messages.filter(msg_filter(thread_key@, user_only))))
                    && forall|k: int|
                    0 <= k < r.len() ==> (#[trigger] r[k])@ == self@.messages.filter(
                        msg_filter(thread_key@, user_only),
                    )[p[k] as int],
    {
        let ghost pred = msg_filter(thread_key@, user_only);
        let mut out: Vec<SessionMessage> = Vec::new();
        let mut i: usize = 0;
        while i < self.messages.len()
            invariant
                pred == msg_filter(thread_key@, user_only),
                0 <= i <= self.messages.len(),
                self@.messages.len() == self.messages.len(),
                out.len() == self@.messages.subrange(0, i as int).filter(pred).len(),
                forall|k: int|
                    0 <= k < out.len() ==> out[k]@ == #[trigger] self@.messages.subrange(
                        0,
                        i as int,
                    ).filter(pred)[k],
            decreases self.messages.len() - i,
        {
            let ghost pre = self@.messages.subrange(0, i as int);
            let ghost m = self@.messages[i as int];
            assert(self@.messages.subrange(0, i + 1) =~= pre.push(m));
            proof {
                pre.lemma_filter_push(m, pred);
            }
            let msg = &self.messages[i];
            if text_eq(msg.thread_key.as_str(), thread_key.as_str()) && (!user_only || msg.role
                == MessageRole::User) {
                out.push(msg.duplicate());
            }
            i = i + 1;
        }
        assert(self@.messages.subrange(0, self.messages.len() as int) =~= self@.messages);
        let ghost found = out@;
        let r = sort_rows(out);
        proof {
            let f = self@.messages.filter(pred);
            let p = choose|p: Seq<usize>|
                #[trigger] is_permutation(p, found.len()) && forall|k: int|
                    0 <= k < r@.len() ==> r@[k] == found[p[k] as int];
            assert forall|k: int| 0 <= k < r.len() implies (#[trigger] r[k])@ == f[p[k] as int] by {
                assert(r@[k] == found[p[k] as int]);
            }
            assert forall|a: int, b: int| 0 <= a < b < p.len() implies !crate::order::key_lt(
                msg_keys(f)[p[b] as int].0,
                msg_keys(f)[p[b] as int].1,
                msg_keys(f)[p[a] as int].0,
                msg_keys(f)[p[a] as int].1,
            ) by {
                assert(r@[a] == found[p[a] as int] && r@[b] == found[p[b] as int]);
                assert(!crate::order::row_lt(r@[b], r@[a]));
            }
            assert(in_key_order(p, msg_keys(f)));
        }
        r
    }

    /// The messages of session `thread_key`, oldest first, ties by message
    /// id.
    pub fn list_messages(&self, thread_key: &ThreadKey) -> (r: Vec<SessionMessage>)
        requires
            self@.wf(),
        ensures
            r.len() == self@.messages.filter(of_thread(thread_key@)).len(),
            exists|p: Seq<usize>|
                #[trigger] in_key_order(p, msg_keys(self@.messages.filter(of_thread(thread_key@))))
                    && forall|k: int|
                    0 <= k < r.len() ==> (#[trigger] r[k])@ == self@.messages.filter(
                        of_thread(thread_key@),
                    )[p[k] as int],
    {
        self.messages_in_order(thread_key, false)
    }

    /// The parts of every user message of session `thread_key`, oldest
    /// message first (ties by message id), while the session has no title;
    /// `None` when the session does not exist, already has a title, or has
    /// no user message.
    pub fn title_generation_candidate(&self, thread_key: &ThreadKey) -> (r: Option<Vec<Value>>)
        requires
            self@.wf(),
        ensures
            r is None <==> !(self@.session_pos(thread_key@) matches Some(i)
                && self@.sessions[i].session.title is None && self@.messages.filter(
                user_of_thread(thread_key@),
            ).len() > 0),
            r matches Some(v) ==> exists|p: Seq<usize>|
                #[trigger] in_key_order(p, msg_keys(self@.messages.filter(user_of_thread(thread_key@))))
                    && v@ == all_parts(reordered(self@.messages.filter(user_of_thread(thread_key@)), p)),
    {
        match self.find_session(thread_key.as_str()) {
            Some(si) => {
                if self.sessions[si].session.title.is_some() {
                    return None;
                }
            },
            None => return None,
        }
        let msgs = self.messages_in_order(thread_key, true);
        if msgs.len() == 0 {
            return None;
        }
        let ghost f = self@.messages.filter(user_of_thread(thread_key@));
        let ghost p = choose|p: Seq<usize>|
            #[trigger] in_key_order(p, msg_keys(f)) && forall|k: int|
                0 <= k < msgs.len() ==> (#[trigger] msgs[k])@ == f[p[k] as int];
        let ghost sorted = reordered(f, p);
        let mut out: Vec<Value> = Vec::new();
        let mut i: usize = 0;
        assert(sorted.subrange(0, 0) =~= Seq::<MessageV>::empty());
        assert(all_parts(Seq::<MessageV>::empty()) =~= Seq::<Value>::empty()) by {
            assert(Seq::<MessageV>::empty().map_values(|x: MessageV| x.parts) =~= Seq::<Seq<Value>>::empty());
        }
        while i < msgs.len()
            invariant
                sorted == reordered(f, p),
                sorted.len() == msgs.len(),
                forall|k: int| 0 <= k < msgs.len() ==> (#[trigger] msgs[k])@ == f[p[k] as int],
                0 <= i <= msgs.len(),
                out@ == all_parts(sorted.subrange(0, i as int)),
            decreases msgs.len() - i,
        {
            let msg = &msgs[i];
            let ghost m = sorted[i as int];
            assert(msgs[i as int]@ == m);
            let ghost out_before = out@;
            let mut j: usize = 0;
            while j < msg.parts.len()
                invariant
                    0 <= j <= msg.parts.len(),
                    out@ == out_before + msg.parts@.subrange(0, j as int),
                decreases msg.parts.len() - j,
            {
                out.push(clone_json(&msg.parts[j]));
                j = j + 1;
                assert(out@ =~= out_before + msg.parts@.subrange(0, j as int));
            }
            proof {
                let pre = sorted.subrange(0, i as int);
                assert(msg.parts@.subrange(0, msg.parts.len() as int) =~= msg.parts@);
                assert(sorted.subrange(0, i + 1) =~= pre.push(m));
                assert(pre.push(m).map_values(|x: MessageV| x.parts) =~= pre.map_values(
                    |x: MessageV| x.parts,
                ).push(m.parts));
                pre.map_values(|x: MessageV| x.parts).lemma_flatten_push(m.parts);
            }
            i = i + 1;
        }
        assert(sorted.subrange(0, msgs.len() as int) =~= sorted);
        Some(out)
    }
}

} // verus!
