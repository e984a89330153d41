use vstd::prelude::*;
use vstd::assert_seqs_equal;
use vstd::seq_lib::to_multiset_build;
use vstd::seq_lib::to_multiset_insert;
use vstd::seq_lib::to_multiset_contains;

verus! {

/// A persisted conversation. Times are milliseconds since the Unix epoch.
pub struct Chat {
    pub id: String,
    pub title: String,
    pub created_at: i64,
    pub updated_at: i64,
    pub model: String,
}

/// One turn of a chat; immutable once stored.
pub struct Message {
    pub id: String,
    pub chat_id: String,
    pub role: String,
    pub content: String,
    pub created_at: i64,
}

/// One entry of the conversation history sent to the model server.
pub struct ChatMessage {
    pub role: String,
    pub content: String,
}

/// One model that the model server offers.
pub struct Tag {
    pub name: String,
}

/// Relies on `uuid::Uuid::new_v4` and its hyphenated text form: a fresh
/// random identifier of 36 characters.
#[verifier::external_body]
fn fresh_id() -> (r: String)
    ensures
        r@.len() == 36,
{
    uuid::Uuid::new_v4().to_string()
}

/// Relies on `chrono::Utc::now` and `DateTime::timestamp_millis`: the
/// current time, about which nothing is promised here.
#[verifier::external_body]
fn now_millis() -> (r: i64) {
    chrono::Utc::now().timestamp_millis()
}

/// A chat made at time `now`: created and last active then.
pub fn chat_record(id: String, title: &str, model: &str, now: i64) -> (r: Chat)
    ensures
        r.id@ == id@,
        r.title@ == title@,
        r.model@ == model@,
        r.created_at == now,
        r.updated_at == now,
{
    Chat {
        id,
        title: title.to_string(),
        created_at: now,
        updated_at: now,
        model: model.to_string(),
    }
}

/// A new chat with a fresh identifier, made now.
pub fn create_chat(title: &str, model: &str) -> (r: Chat)
    ensures
        r.id@.len() == 36,
        r.title@ == title@,
        r.model@ == model@,
        r.created_at == r.updated_at,
{
    let id = fresh_id();
    let now = now_millis();
    chat_record(id, title, model, now)
}

/// A message of chat `chat_id` made at time `now`.
pub fn message_record(id: String, chat_id: &str, role: &str, content: &str, now: i64) -> (r: Message)
    ensures
        r.id@ == id@,
        r.chat_id@ == chat_id@,
        r.role@ == role@,
        r.content@ == content@,
        r.created_at == now,
{
    Message {
        id,
        chat_id: chat_id.to_string(),
        role: role.to_string(),
        content: content.to_string(),
        created_at: now,
    }
}

/// A new message with a fresh identifier, made now.
pub fn add_message(chat_id: &str, role: &str, content: &str) -> (r: Message)
    ensures
        r.id@.len() == 36,
        r.chat_id@ == chat_id@,
        r.role@ == role@,
        r.content@ == content@,
{
    let id = fresh_id();
    let now = now_millis();
    message_record(id, chat_id, role, content, now)
}

/// The chat after a message was appended to it at `msg`'s time: its last
/// activity is that of the message.
pub fn touch_chat(chat: &mut Chat, msg: &Message)
    ensures
        final(chat).updated_at == msg.created_at,
        final(chat).id == old(chat).id,
        final(chat).title == old(chat).title,
        final(chat).created_at == old(chat).created_at,
        final(chat).model == old(chat).model,
{
    chat.updated_at = msg.created_at;
}

/// The chat with model `model`, last active at `now`.
pub fn set_chat_model(chat: &mut Chat, model: &str, now: i64)
    ensures
        final(chat).model@ == model@,
        final(chat).updated_at == now,
        final(chat).id == old(chat).id,
        final(chat).title == old(chat).title,
        final(chat).created_at == old(chat).created_at,
{
    chat.model = model.to_string();
    chat.updated_at = now;
}

/// The chat with model `model`, last active now.
pub fn change_model(chat: &mut Chat, model: &str)
    ensures
        final(chat).model@ == model@,
        final(chat).id == old(chat).id,
        final(chat).title == old(chat).title,
        final(chat).created_at == old(chat).created_at,
{
    let now = now_millis();
    set_chat_model(chat, model, now);
}

/// The conversation history that the model server is sent: role and
/// content of each message, in the same order.
pub fn history(msgs: &Vec<Message>) -> (r: Vec<ChatMessage>)
    ensures
        r@.len() == msgs@.len(),
        forall|i: int|
            0 <= i < msgs@.len() ==> #[trigger] r@[i].role@ == msgs@[i].role@ && r@[i].content@
                == msgs@[i].content@,
{
    let mut r: Vec<ChatMessage> = Vec::new();
    let mut i: usize = 0;
    while i < msgs.len()
        invariant
            0 <= i <= msgs@.len(),
            r@.len() == i,
            forall|k: int|
                0 <= k < i ==> #[trigger] r@[k].role@ == msgs@[k].role@ && r@[k].content@
                    == msgs@[k].content@,
        decreases msgs.len() - i,
    {
        let m = &msgs[i];
        r.push(ChatMessage { role: m.role.clone(), content: m.content.clone() });
        i = i + 1;
    }
    r
}

/// The names of the models, in the order the server gave them.
pub fn model_names(tags: Vec<Tag>) -> (r: Vec<String>)
    ensures
        r@.len() == tags@.len(),
        forall|i: int| 0 <= i < tags@.len() ==> #[trigger] r@[i]@ == tags@[i].name@,
{
    let mut r: Vec<String> = Vec::new();
    let mut i: usize = 0;
    while i < tags.len()
        invariant
            0 <= i <= tags@.len(),
            r@.len() == i,
            forall|k: int| 0 <= k < i ==> #[trigger] r@[k]@ == tags@[k].name@,
        decreases tags.len() - i,
    {
        r.push(tags[i].name.clone());
        i = i + 1;
    }
    r
}

/// Most recently active first.
pub open spec fn recent_first(s: Seq<Chat>) -> bool {
    forall|i: int, j: int| 0 <= i < j < s.len() ==> s[i].updated_at >= s[j].updated_at
}

/// Oldest first.
pub open spec fn oldest_first(s: Seq<Message>) -> bool {
    forall|i: int, j: int| 0 <= i < j < s.len() ==> s[i].created_at <= s[j].created_at
}

/// `p` tells where in `rows` each chat of `r` comes from, and chats that are
/// equally recent keep the order they had in `rows`.
pub open spec fn stable_chat_order(rows: Seq<Chat>, r: Seq<Chat>, p: Seq<int>) -> bool {
    &&& p.len() == r.len()
    &&& forall|k: int| 0 <= k < r.len() ==> 0 <= #[trigger] p[k] < rows.len() && r[k] == rows[p[k]]
    &&& forall|a: int, b: int|
        0 <= a < b < r.len() && r[a].updated_at == r[b].updated_at ==> #[trigger] p[a] < #[trigger] p[b]
}

/// Where `c` goes in `s`, searching from `j`: before the first entry that
/// it must precede.
pub open spec fn chat_insert_pos(s: Seq<Chat>, c: Chat, j: int) -> int
    decreases s.len() - j,
{
    if j < 0 || j >= s.len() || s[j].updated_at < c.updated_at {
        j
    } else {
        chat_insert_pos(s, c, j + 1)
    }
}

/// The chats in listing order: each put in turn into the list of those before it.
pub open spec fn ordered_chats(rows: Seq<Chat>) -> Seq<Chat>
    decreases rows.len(),
{
    if rows.len() == 0 {
        rows
    } else {
        let s = ordered_chats(rows.drop_last());
        s.insert(chat_insert_pos(s, rows.last(), 0), rows.last())
    }
}

/// Puts `c` into the ordered `out` after every chat at least as recent.
fn insert_chat(out: &mut Vec<Chat>, c: Chat) -> (pos: usize)
    requires
        recent_first(old(out)@),
    ensures
        pos <= old(out)@.len(),
        final(out)@ == old(out)@.insert(pos as int, c),
        recent_first(final(out)@),
        forall|k: int| 0 <= k < pos ==> old(out)@[k].updated_at >= c.updated_at,
        pos < old(out)@.len() ==> old(out)@[pos as int].updated_at < c.updated_at,
        pos == chat_insert_pos(old(out)@, c, 0),
{
    let mut j: usize = 0;
    while j < out.len() && out[j].updated_at >= c.updated_at
        invariant
            chat_insert_pos(out@, c, 0) == chat_insert_pos(out@, c, j as int),
            0 <= j <= out@.len(),
            forall|k: int| 0 <= k < j ==> out@[k].updated_at >= c.updated_at,
        decreases out.len() - j,
    {
        j = j + 1;
    }
    let ghost before = out@;
    out.insert(j, c);
    proof {
        assert forall|a: int, b: int| 0 <= a < b < out@.len() implies out@[a].updated_at
            >= out@[b].updated_at by {
            if j < before.len() {
                assert(before[j as int].updated_at < c.updated_at);
            }
        }
    }
    j
}

/// The chats, most recently active first; chats equally recent keep the
/// order they were given in.
pub fn order_chats(rows: Vec<Chat>) -> (r: Vec<Chat>)
    ensures
        recent_first(r@),
        r@.to_multiset() == rows@.to_multiset(),
        recent_first(rows@) ==> r@ == rows@,
        exists|p: Seq<int>| stable_chat_order(rows@, r@, p),
        r@ == ordered_chats(rows@),
{
    let mut out: Vec<Chat> = Vec::new();
    let mut rows = rows;
    let ghost all = rows@;
    let ghost mut p: Seq<int> = Seq::empty();
    let mut i: usize = 0;
    let n = rows.len();
    proof {
        assert(all.subrange(0, 0) =~= out@);
    }
    while i < n
        invariant
            n == all.len(),
            rows@ == all.subrange(i as int, n as int),
            out@ == ordered_chats(all.subrange(0, i as int)),
            0 <= i <= n,
            recent_first(out@),
            out@.to_multiset() == all.subrange(0, i as int).to_multiset(),
            recent_first(all) ==> out@ == all.subrange(0, i as int),
            stable_chat_order(all, out@, p),
            forall|k: int| 0 <= k < p.len() ==> #[trigger] p[k] < i,
        decreases n - i,
    {
        let ghost before = out@;
        let ghost pb = p;
        proof {
            assert(rows@[0] == all[i as int]);
        }
        let c = rows.remove(0);
        let pos = insert_chat(&mut out, c);
        proof {
            p = pb.insert(pos as int, i as int);
            assert forall|k: int| pos <= k < before.len() implies #[trigger] before[k].updated_at
                < c.updated_at by {
                assert(before[pos as int].updated_at >= before[k].updated_at);
            }
            assert forall|k: int| 0 <= k < out@.len() implies 0 <= #[trigger] p[k] < all.len()
                && out@[k] == all[p[k]] by {
                if k > pos {
                    assert(out@[k] == before[k - 1]);
                    assert(p[k] == pb[k - 1]);
                } else if k < pos {
                    assert(p[k] == pb[k]);
                }
            }
            assert forall|a: int, b: int|
                0 <= a < b < out@.len() && out@[a].updated_at == out@[b].updated_at implies p[a]
                < p[b] by {
                if b > pos {
                    assert(out@[b] == before[b - 1]);
                    assert(p[b] == pb[b - 1]);
                    if a > pos {
                        assert(out@[a] == before[a - 1]);
                        assert(p[a] == pb[a - 1]);
                    } else if a < pos {
                        assert(p[a] == pb[a]);
                    }
                } else if b < pos {
                    assert(p[a] == pb[a]);
                    assert(p[b] == pb[b]);
                } else {
                    assert(p[a] == pb[a]);
                }
            }
            assert forall|k: int| 0 <= k < p.len() implies #[trigger] p[k] < i + 1 by {
                if k > pos {
                    assert(p[k] == pb[k - 1]);
                } else if k < pos {
                    assert(p[k] == pb[k]);
                }
            }
        }
        proof {
            assert(all.subrange(0, i + 1).drop_last() =~= all.subrange(0, i as int));
            assert(rows@ =~= all.subrange(i + 1, n as int));
            assert(all.subrange(0, i + 1) =~= all.subrange(0, i as int).push(c));
            to_multiset_build(all.subrange(0, i as int), c);
            to_multiset_insert(before, pos as int, c);
            assert(all.subrange(0, i as int).push(c).to_multiset() == all.subrange(
                0,
                i as int,
            ).to_multiset().insert(c));
            assert(before.insert(pos as int, c).to_multiset() == before.to_multiset().insert(c));
            if recent_first(all) {
                if pos < before.len() {
                    assert(before[pos as int] == all[pos as int]);
                    assert(all[pos as int].updated_at >= all[i as int].updated_at);
                }
                assert(out@ =~= all.subrange(0, i + 1));
            }
        }
        i = i + 1;
    }
    proof {
        assert(all.subrange(0, n as int) =~= all);
    }
    out
}

/// `p` tells where in `rows` each message of `r` comes from, and messages of
/// the same time keep the order they had in `rows`.
pub open spec fn stable_message_order(rows: Seq<Message>, r: Seq<Message>, p: Seq<int>) -> bool {
    &&& p.len() == r.len()
    &&& forall|k: int| 0 <= k < r.len() ==> 0 <= #[trigger] p[k] < rows.len() && r[k] == rows[p[k]]
    &&& forall|a: int, b: int|
        0 <= a < b < r.len() && r[a].created_at == r[b].created_at ==> #[trigger] p[a] < #[trigger] p[b]
}

/// Where `c` goes in `s`, searching from `j`: before the first entry that
/// it must precede.
pub open spec fn message_insert_pos(s: Seq<Message>, c: Message, j: int) -> int
    decreases s.len() - j,
{
    if j < 0 || j >= s.len() || s[j].created_at > c.created_at {
        j
    } else {
        message_insert_pos(s, c, j + 1)
    }
}

/// The messages in listing order: each put in turn into the list of those before it.
pub open spec fn ordered_messages(rows: Seq<Message>) -> Seq<Message>
    decreases rows.len(),
{
    if rows.len() == 0 {
        rows
    } else {
        let s = ordered_messages(rows.drop_last());
        s.insert(message_insert_pos(s, rows.last(), 0), rows.last())
    }
}

/// Puts `c` into the ordered `out` after every message at least as old.
fn insert_message(out: &mut Vec<Message>, c: Message) -> (pos: usize)
    requires
        oldest_first(old(out)@),
    ensures
        pos <= old(out)@.len(),
        final(out)@ == old(out)@.insert(pos as int, c),
        oldest_first(final(out)@),
        forall|k: int| 0 <= k < pos ==> old(out)@[k].created_at <= c.created_at,
        pos < old(out)@.len() ==> old(out)@[pos as int].created_at > c.created_at,
        pos == message_insert_pos(old(out)@, c, 0),
{
    let mut j: usize = 0;
    while j < out.len() && out[j].created_at <= c.created_at
        invariant
            message_insert_pos(out@, c, 0) == message_insert_pos(out@, c, j as int),
            0 <= j <= out@.len(),
            forall|k: int| 0 <= k < j ==> out@[k].created_at <= c.created_at,
        decreases out.len() - j,
    {
        j = j + 1;
    }
    let ghost before = out@;
    out.insert(j, c);
    proof {
        assert forall|a: int, b: int| 0 <= a < b < out@.len() implies out@[a].created_at
            <= out@[b].created_at by {
            if j < before.len() {
                assert(before[j as int].created_at > c.created_at);
            }
        }
    }
    j
}

/// The last of `rows` is at least as late as every other one.
pub open spec fn newest_last(rows: Seq<Message>) -> bool {
    rows.len() > 0 && forall|k: int| 0 <= k < rows.len() ==> #[trigger] rows[k].created_at <= rows.last().created_at
}

/// The messages, oldest first; messages of the same time keep the order
/// they were given in.
pub fn order_messages(rows: Vec<Message>) -> (r: Vec<Message>)
    ensures
        oldest_first(r@),
        r@.to_multiset() == rows@.to_multiset(),
        oldest_first(rows@) ==> r@ == rows@,
        exists|p: Seq<int>| stable_message_order(rows@, r@, p),
        r@ == ordered_messages(rows@),
        newest_last(rows@) ==> r@.last() == rows@.last(),
{
    let mut out: Vec<Message> = Vec::new();
    let mut rows = rows;
    let ghost all = rows@;
    let ghost mut p: Seq<int> = Seq::empty();
    let mut i: usize = 0;
    let n = rows.len();
    proof {
        assert(all.subrange(0, 0) =~= out@);
    }
    while i < n
        invariant
            n == all.len(),
            rows@ == all.subrange(i as int, n as int),
            out@ == ordered_messages(all.subrange(0, i as int)),
            i == n && newest_last(all) ==> out@.last() == all.last(),
            0 <= i <= n,
            oldest_first(out@),
            out@.to_multiset() == all.subrange(0, i as int).to_multiset(),
            oldest_first(all) ==> out@ == all.subrange(0, i as int),
            stable_message_order(all, out@, p),
            forall|k: int| 0 <= k < p.len() ==> #[trigger] p[k] < i,
        decreases n - i,
    {
        let ghost before = out@;
        let ghost pb = p;
        proof {
            assert(rows@[0] == all[i as int]);
        }
        let c = rows.remove(0);
        let pos = insert_message(&mut out, c);
        proof {
            if i + 1 == n && newest_last(all) {
                assert(c == all.last());
                if pos < before.len() {
                    assert(before[pos as int] == all[pb[pos as int]]);
                    assert(pb[pos as int] < i);
                }
                assert(out@.last() == c);
            }
            p = pb.insert(pos as int, i as int);
            assert forall|k: int| pos <= k < before.len() implies #[trigger] before[k].created_at
                > c.created_at by {
                assert(before[pos as int].created_at <= before[k].created_at);
            }
            assert forall|k: int| 0 <= k < out@.len() implies 0 <= #[trigger] p[k] < all.len()
                && out@[k] == all[p[k]] by {
                if k > pos {
                    assert(out@[k] == before[k - 1]);
                    assert(p[k] == pb[k - 1]);
                } else if k < pos {
                    assert(p[k] == pb[k]);
                }
            }
            assert forall|a: int, b: int|
                0 <= a < b < out@.len() && out@[a].created_at == out@[b].created_at implies p[a]
                < p[b] by {
                if b > pos {
                    assert(out@[b] == before[b - 1]);
                    assert(p[b] == pb[b - 1]);
                    if a > pos {
                        assert(out@[a] == before[a - 1]);
                        assert(p[a] == pb[a - 1]);
                    } else if a < pos {
                        assert(p[a] == pb[a]);
                    }
                } else if b < pos {
                    assert(p[a] == pb[a]);
                    assert(p[b] == pb[b]);
                } else {
                    assert(p[a] == pb[a]);
                }
            }
            assert forall|k: int| 0 <= k < p.len() implies #[trigger] p[k] < i + 1 by {
                if k > pos {
                    assert(p[k] == pb[k - 1]);
                } else if k < pos {
                    assert(p[k] == pb[k]);
                }
            }
        }
        proof {
            assert(all.subrange(0, i + 1).drop_last() =~= all.subrange(0, i as int));
            assert(rows@ =~= all.subrange(i + 1, n as int));
            assert(all.subrange(0, i + 1) =~= all.subrange(0, i as int).push(c));
            to_multiset_build(all.subrange(0, i as int), c);
            to_multiset_insert(before, pos as int, c);
            assert(all.subrange(0, i as int).push(c).to_multiset() == all.subrange(
                0,
                i as int,
            ).to_multiset().insert(c));
            assert(before.insert(pos as int, c).to_multiset() == before.to_multiset().insert(c));
            if oldest_first(all) {
                if pos < before.len() {
                    assert(before[pos as int] == all[pos as int]);
                    assert(all[pos as int].created_at <= all[i as int].created_at);
                }
                assert(out@ =~= all.subrange(0, i + 1));
            }
        }
        i = i + 1;
    }
    proof {
        assert(all.subrange(0, n as int) =~= all);
    }
    out
}

/// A chat that is strictly more recently active than every other chat comes
/// first in the ordered list; this is where appending a message puts its chat.
pub proof fn lemma_most_recent_first(rows: Seq<Chat>, ordered: Seq<Chat>, x: Chat)
    requires
        recent_first(ordered),
        ordered.to_multiset() == rows.to_multiset(),
        rows.contains(x),
        forall|i: int| 0 <= i < rows.len() && rows[i] != x ==> rows[i].updated_at < x.updated_at,
    ensures
        ordered.len() > 0,
        ordered[0] == x,
{
    to_multiset_contains(rows, x);
    to_multiset_contains(ordered, x);
    to_multiset_contains(ordered, ordered[0]);
    to_multiset_contains(rows, ordered[0]);
    let k = choose|k: int| 0 <= k < ordered.len() && ordered[k] == x;
    if ordered[0] != x {
        let j = choose|j: int| 0 <= j < rows.len() && rows[j] == ordered[0];
        assert(ordered[0].updated_at >= ordered[k].updated_at);
        assert(rows[j].updated_at < x.updated_at);
    }
}

/// A created chat that was stored once is listed exactly once, with its
/// title, model, and equal creation and activity times.
pub proof fn lemma_created_chat_listed(rows: Seq<Chat>, ordered: Seq<Chat>, c: Chat)
    requires
        c.created_at == c.updated_at,
        rows.to_multiset().count(c) == 1,
        ordered.to_multiset() == rows.to_multiset(),
    ensures
        ordered.to_multiset().count(c) == 1,
        ordered.contains(c),
        c.created_at == c.updated_at,
{
    to_multiset_contains(ordered, c);
}

} // verus!
