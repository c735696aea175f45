//! The in-memory message store: messages by id, an index from
//! (conversation, tag) to the message carrying that tag, and the outbox.

use vstd::prelude::*;
use crate::id::{MessageId, ShortTag};
use crate::message::Message;
use crate::outbox::OutboxEntry;
use crate::peer::ConversationId;
use crate::text::{chars_lt, lemma_chars_lt_total, lemma_chars_lt_transitive, str_less};
use crate::seqs::{
    first_index, first_of, lemma_first_index_facts, lemma_first_index_none, lemma_first_of_after_remove,
    lemma_first_index_step, lemma_first_of_unaffected, lemma_replace_or_push_found, remove_first, replace_first,
    replace_or_push,
};

verus! {

/// An entry of the tag index: the message filed under (conversation, tag).
#[derive(Debug, PartialEq, Eq)]
pub struct TagIndexEntry {
    pub conversation: ConversationId,
    pub tag: ShortTag,
    pub id: MessageId,
}

/// What a store holds: its messages, its tag index and its outbox.
#[verifier::ext_equal]
pub struct StoreView {
    pub messages: Seq<Message>,
    pub index: Seq<TagIndexEntry>,
    pub outbox: Seq<OutboxEntry>,
}

pub open spec fn with_id(id: MessageId) -> spec_fn(Message) -> bool {
    |m: Message| m.id == id
}

pub open spec fn with_key(conversation: Seq<char>, tag: ShortTag) -> spec_fn(TagIndexEntry) -> bool {
    |e: TagIndexEntry| e.conversation@ == conversation && e.tag == tag
}

pub open spec fn entry_with_id(id: MessageId) -> spec_fn(OutboxEntry) -> bool {
    |e: OutboxEntry| e.id == id
}

pub open spec fn entry_other_than(id: MessageId) -> spec_fn(OutboxEntry) -> bool {
    |e: OutboxEntry| e.id != id
}

/// The index entry filing a message under its conversation and tag.
pub open spec fn index_entry_of(m: Message) -> TagIndexEntry {
    TagIndexEntry { conversation: m.conversation, tag: m.tag, id: m.id }
}

/// Storing a message: it replaces the message with its id, or joins the
/// store. If the message it replaces was filed under another conversation or
/// tag, that index entry goes; the message is then filed under its own.
pub open spec fn spec_upsert(v: StoreView, m: Message) -> StoreView {
    let index = match first_of(v.messages, with_id(m.id)) {
        Some(prev) => if prev.conversation@ == m.conversation@ && prev.tag == m.tag {
            v.index
        } else {
            remove_first(v.index, with_key(prev.conversation@, prev.tag))
        },
        None => v.index,
    };
    StoreView {
        messages: replace_or_push(v.messages, with_id(m.id), m),
        index: replace_or_push(index, with_key(m.conversation@, m.tag), index_entry_of(m)),
        outbox: v.outbox,
    }
}

/// The message filed under (conversation, tag), if any.
pub open spec fn spec_find_by_tag(v: StoreView, conversation: Seq<char>, tag: ShortTag) -> Option<
    Message,
> {
    match first_of(v.index, with_key(conversation, tag)) {
        Some(e) => first_of(v.messages, with_id(e.id)),
        None => None,
    }
}

/// Whether `a` comes before `b` in a thread: by compose time, then by id.
pub open spec fn thread_before(a: Message, b: Message) -> bool {
    a.origin_ts < b.origin_ts || (a.origin_ts == b.origin_ts && a.id.0 < b.id.0)
}

/// The store's own consistency: one message per id, one index entry per
/// (conversation, tag), and every index entry names a stored message filed
/// under that very conversation and tag.
pub open spec fn store_wf(v: StoreView) -> bool {
    &&& ids_unique(v.messages)
    &&& keys_unique(v.index)
    &&& index_names_messages(v.messages, v.index)
}

/// One index entry per (conversation, tag).
pub open spec fn keys_unique(index: Seq<TagIndexEntry>) -> bool {
    forall|i: int, j: int|
        0 <= i < index.len() && 0 <= j < index.len() && #[trigger] index[i].conversation@
            == #[trigger] index[j].conversation@ && index[i].tag == index[j].tag ==> i == j
}

/// Every index entry names a stored message filed under its key.
pub open spec fn index_names_messages(messages: Seq<Message>, index: Seq<TagIndexEntry>) -> bool {
    forall|i: int|
        0 <= i < index.len() ==> match first_of(messages, with_id(#[trigger] index[i].id)) {
            Some(m) => m.conversation@ == index[i].conversation@ && m.tag == index[i].tag,
            None => false,
        }
}

/// One message per id.
pub open spec fn ids_unique(messages: Seq<Message>) -> bool {
    forall|i: int, j: int|
        0 <= i < messages.len() && 0 <= j < messages.len() && #[trigger] messages[i].id
            == #[trigger] messages[j].id ==> i == j
}

/// A thread order: each message strictly before the next.
pub open spec fn thread_sorted(s: Seq<Message>) -> bool {
    forall|a: int, b: int| 0 <= a < b < s.len() ==> thread_before(#[trigger] s[a], #[trigger] s[b])
}

/// `r` is the thread of `conversation` in `messages`: exactly its messages,
/// ordered by compose time, then id.
pub open spec fn is_thread(messages: Seq<Message>, conversation: Seq<char>, r: Seq<Message>) -> bool {
    &&& thread_sorted(r)
    &&& forall|a: int| 0 <= a < r.len() ==> #[trigger] r[a].conversation@ == conversation
        && messages.contains(r[a])
    &&& forall|j: int|
        0 <= j < messages.len() && #[trigger] messages[j].conversation@ == conversation
            ==> r.contains(messages[j])
}

fn thread_before_exec(a: &Message, b: &Message) -> (r: bool)
    ensures
        r == thread_before(*a, *b),
{
    a.origin_ts < b.origin_ts || (a.origin_ts == b.origin_ts && a.id.0 < b.id.0)
}

/// Inserts `m` into a thread at its place.
fn insert_in_thread(out: &mut Vec<Message>, m: Message)
    requires
        thread_sorted(old(out)@),
        forall|a: int| 0 <= a < old(out)@.len() ==> #[trigger] old(out)@[a].id != m.id,
    ensures
        thread_sorted(final(out)@),
        exists|p: int| 0 <= p <= old(out)@.len() && final(out)@ == old(out)@.insert(p, m),
{
    let mut p: usize = 0;
    while p < out.len() && thread_before_exec(&out[p], &m)
        invariant
            p <= out@.len(),
            out@ == old(out)@,
            forall|a: int| 0 <= a < p ==> thread_before(#[trigger] out@[a], m),
        decreases out@.len() - p,
    {
        p += 1;
    }
    let ghost before = out@;
    proof {
        before.insert_ensures(p as int, m);
        if p < before.len() {
            assert(!thread_before(before[p as int], m));
            assert(before[p as int].id != m.id);
        }
    }
    out.insert(p, m);
    proof {
        let after = out@;
        assert forall|a: int, b: int| 0 <= a < b < after.len() implies thread_before(
            #[trigger] after[a],
            #[trigger] after[b],
        ) by {
            if b < p {
                assert(after[a] == before[a] && after[b] == before[b]);
            } else if b == p {
                assert(after[a] == before[a]);
            } else if a < p {
                assert(after[a] == before[a] && after[b] == before[b - 1]);
            } else if a == p {
                assert(after[b] == before[b - 1]);
                if b - 1 > p {
                    assert(thread_before(before[p as int], before[b - 1]));
                }
            } else {
                assert(after[a] == before[a - 1] && after[b] == before[b - 1]);
            }
        }
        assert(out@ == before.insert(p as int, m));
    }
}


/// The latest compose time among the messages of a conversation; 0 when it
/// has none.
pub open spec fn latest_ts(messages: Seq<Message>, conversation: Seq<char>) -> u64
    decreases messages.len(),
{
    if messages.len() == 0 {
        0
    } else {
        let t = latest_ts(messages.drop_last(), conversation);
        if messages.last().conversation@ == conversation && messages.last().origin_ts > t {
            messages.last().origin_ts
        } else {
            t
        }
    }
}

/// Whether conversation `a` is listed before `b`: most recent first, then
/// in string order.
pub open spec fn listed_before(messages: Seq<Message>, a: Seq<char>, b: Seq<char>) -> bool {
    latest_ts(messages, a) > latest_ts(messages, b) || (latest_ts(messages, a) == latest_ts(
        messages,
        b,
    ) && chars_lt(a, b))
}

/// Some message of `messages` is in conversation `c`.
pub open spec fn has_conversation(messages: Seq<Message>, c: Seq<char>) -> bool {
    exists|j: int| 0 <= j < messages.len() && #[trigger] messages[j].conversation@ == c
}

/// `r` lists conversation `c`.
pub open spec fn lists(r: Seq<ConversationId>, c: Seq<char>) -> bool {
    exists|a: int| 0 <= a < r.len() && #[trigger] r[a]@ == c
}

/// `r` lists every conversation of `messages` once, most recent first.
pub open spec fn is_conversation_list(messages: Seq<Message>, r: Seq<ConversationId>) -> bool {
    &&& forall|a: int, b: int|
        0 <= a < b < r.len() ==> listed_before(messages, #[trigger] r[a]@, #[trigger] r[b]@)
    &&& forall|a: int| 0 <= a < r.len() ==> has_conversation(messages, #[trigger] r[a]@)
    &&& forall|j: int| 0 <= j < messages.len() ==> lists(r, #[trigger] messages[j].conversation@)
}

/// A conversation and the latest compose time seen in it.
struct Latest {
    conversation: ConversationId,
    ts: u64,
}

spec fn latest_before(a: Latest, b: Latest) -> bool {
    a.ts > b.ts || (a.ts == b.ts && chars_lt(a.conversation@, b.conversation@))
}

spec fn latest_sorted(s: Seq<Latest>) -> bool {
    forall|a: int, b: int| 0 <= a < b < s.len() ==> latest_before(#[trigger] s[a], #[trigger] s[b])
}

proof fn lemma_latest_before_transitive(a: Latest, b: Latest, c: Latest)
    requires
        latest_before(a, b),
        latest_before(b, c),
    ensures
        latest_before(a, c),
{
    if a.ts == b.ts && b.ts == c.ts {
        lemma_chars_lt_transitive(a.conversation@, b.conversation@, c.conversation@);
    }
}

fn insert_latest(out: &mut Vec<Latest>, x: Latest)
    requires
        latest_sorted(old(out)@),
        forall|a: int| 0 <= a < old(out)@.len() ==> #[trigger] old(out)@[a].conversation@ != x.conversation@,
    ensures
        latest_sorted(final(out)@),
        exists|p: int| 0 <= p <= old(out)@.len() && final(out)@ == old(out)@.insert(p, x),
{
    let mut p: usize = 0;
    while p < out.len() && (out[p].ts > x.ts || (out[p].ts == x.ts && str_less(
        out[p].conversation.as_str(),
        x.conversation.as_str(),
    )))
        invariant
            p <= out@.len(),
            out@ == old(out)@,
            forall|a: int| 0 <= a < p ==> latest_before(#[trigger] out@[a], x),
        decreases out@.len() - p,
    {
        p += 1;
    }
    let ghost before = out@;
    proof {
        before.insert_ensures(p as int, x);
        if p < before.len() {
            assert(!latest_before(before[p as int], x));
            lemma_chars_lt_total(before[p as int].conversation@, x.conversation@);
            assert(latest_before(x, before[p as int]));
        }
    }
    out.insert(p, x);
    proof {
        let after = out@;
        assert forall|a: int, b: int| 0 <= a < b < after.len() implies latest_before(
            #[trigger] after[a],
            #[trigger] after[b],
        ) by {
            if b < p {
                assert(after[a] == before[a] && after[b] == before[b]);
            } else if b == p {
                assert(after[a] == before[a]);
            } else if a < p {
                assert(after[a] == before[a] && after[b] == before[b - 1]);
            } else if a == p {
                assert(after[b] == before[b - 1]);
                if b - 1 > p {
                    lemma_latest_before_transitive(x, before[p as int], before[b - 1]);
                }
            } else {
                assert(after[a] == before[a - 1] && after[b] == before[b - 1]);
            }
        }
        assert(out@ == before.insert(p as int, x));
    }
}

proof fn lemma_latest_absent(messages: Seq<Message>, c: Seq<char>)
    requires
        forall|k: int| 0 <= k < messages.len() ==> #[trigger] messages[k].conversation@ != c,
    ensures
        latest_ts(messages, c) == 0,
    decreases messages.len(),
{
    if messages.len() > 0 {
        let p = messages.drop_last();
        assert forall|k: int| 0 <= k < p.len() implies #[trigger] p[k].conversation@ != c by {
            assert(p[k] == messages[k]);
        }
        lemma_latest_absent(p, c);
    }
}


/// `groups` holds each conversation of `messages` once, with its latest
/// compose time.
spec fn groups_cover(groups: Seq<Latest>, messages: Seq<Message>) -> bool {
    &&& forall|g: int|
        #![trigger groups[g]]
        0 <= g < groups.len() ==> groups[g].ts == latest_ts(messages, groups[g].conversation@)
            && exists|k: int|
            0 <= k < messages.len() && #[trigger] messages[k].conversation@ == groups[g].conversation@
    &&& forall|k: int|
        #![trigger messages[k]]
        0 <= k < messages.len() ==> exists|g: int|
            0 <= g < groups.len() && #[trigger] groups[g].conversation@ == messages[k].conversation@
    &&& forall|g: int, h: int|
        0 <= g < groups.len() && 0 <= h < groups.len() && #[trigger] groups[g].conversation@
            == #[trigger] groups[h].conversation@ ==> g == h
}

/// Accounts for one more message in the conversation groups.
#[verifier::rlimit(40)]
fn note_message(groups: &mut Vec<Latest>, m: &Message, Ghost(pre): Ghost<Seq<Message>>)
    requires
        groups_cover(old(groups)@, pre),
    ensures
        groups_cover(final(groups)@, pre.push(*m)),
{
    let ghost before = groups@;
    let ghost next = pre.push(*m);
    proof {
        assert(next.drop_last() =~= pre);
        assert(next.last() == *m);
        assert forall|k: int| 0 <= k < pre.len() implies #[trigger] next[k] == pre[k] by {}
    }
    let mut g: usize = 0;
    while g < groups.len() && !groups[g].conversation.same_as(&m.conversation)
        invariant
            g <= groups@.len(),
            groups@ == before,
            forall|h: int| 0 <= h < g ==> #[trigger] groups@[h].conversation@ != m.conversation@,
        decreases groups@.len() - g,
    {
        g += 1;
    }
    if g < groups.len() {
        if m.origin_ts > groups[g].ts {
            let c = groups[g].conversation.clone();
            groups.set(g, Latest { conversation: c, ts: m.origin_ts });
        }
        proof {
            assert forall|h: int|
                #![trigger groups@[h]]
                0 <= h < groups@.len() implies groups@[h].ts == latest_ts(next, groups@[h].conversation@)
                    && exists|k: int|
                    0 <= k < next.len() && #[trigger] next[k].conversation@ == groups@[h].conversation@ by {
                assert(groups@[h].conversation@ == before[h].conversation@);
                let k = choose|k: int| 0 <= k < pre.len() && #[trigger] pre[k].conversation@ == before[h].conversation@;
                assert(next[k] == pre[k]);
            }
            assert forall|k: int|
                #![trigger next[k]]
                0 <= k < next.len() implies exists|h: int|
                    0 <= h < groups@.len() && #[trigger] groups@[h].conversation@ == next[k].conversation@ by {
                if k == pre.len() {
                    assert(groups@[g as int].conversation@ == next[k].conversation@);
                } else {
                    assert(next[k] == pre[k]);
                    let h = choose|h: int| 0 <= h < before.len() && #[trigger] before[h].conversation@ == pre[k].conversation@;
                    assert(groups@[h].conversation@ == before[h].conversation@);
                }
            }
            assert forall|a: int, b: int|
                0 <= a < groups@.len() && 0 <= b < groups@.len() && #[trigger] groups@[a].conversation@
                    == #[trigger] groups@[b].conversation@ implies a == b by {
                assert(groups@[a].conversation@ == before[a].conversation@);
                assert(groups@[b].conversation@ == before[b].conversation@);
            }
        }
    } else {
        proof {
            assert forall|k: int| 0 <= k < pre.len() implies #[trigger] pre[k].conversation@
                != m.conversation@ by {
                if pre[k].conversation@ == m.conversation@ {
                    let h = choose|h: int| 0 <= h < before.len() && #[trigger] before[h].conversation@ == pre[k].conversation@;
                }
            }
            lemma_latest_absent(pre, m.conversation@);
        }
        groups.push(Latest { conversation: m.conversation.clone(), ts: m.origin_ts });
        proof {
            assert forall|h: int|
                #![trigger groups@[h]]
                0 <= h < groups@.len() implies groups@[h].ts == latest_ts(next, groups@[h].conversation@)
                    && exists|k: int|
                    0 <= k < next.len() && #[trigger] next[k].conversation@ == groups@[h].conversation@ by {
                if h == before.len() {
                    assert(next[pre.len() as int].conversation@ == groups@[h].conversation@);
                } else {
                    assert(groups@[h] == before[h]);
                    let k = choose|k: int| 0 <= k < pre.len() && #[trigger] pre[k].conversation@ == before[h].conversation@;
                    assert(next[k] == pre[k]);
                }
            }
            assert forall|k: int|
                #![trigger next[k]]
                0 <= k < next.len() implies exists|h: int|
                    0 <= h < groups@.len() && #[trigger] groups@[h].conversation@ == next[k].conversation@ by {
                if k == pre.len() {
                    assert(groups@[before.len() as int].conversation@ == next[k].conversation@);
                } else {
                    assert(next[k] == pre[k]);
                    let h = choose|h: int| 0 <= h < before.len() && #[trigger] before[h].conversation@ == pre[k].conversation@;
                    assert(groups@[h] == before[h]);
                }
            }
        }
    }
}


/// The entries of `groups`, ordered most recent first, then by conversation.
fn sort_latest(groups: &Vec<Latest>) -> (sorted: Vec<Latest>)
    requires
        forall|g: int, h: int|
            0 <= g < groups@.len() && 0 <= h < groups@.len() && #[trigger] groups@[g].conversation@
                == #[trigger] groups@[h].conversation@ ==> g == h,
    ensures
        latest_sorted(sorted@),
        forall|a: int| 0 <= a < sorted@.len() ==> groups@.contains(#[trigger] sorted@[a]),
        forall|g: int| 0 <= g < groups@.len() ==> sorted@.contains(#[trigger] groups@[g]),
{
    let mut sorted: Vec<Latest> = Vec::new();
    let mut i: usize = 0;
    while i < groups.len()
        invariant
            i <= groups@.len(),
            latest_sorted(sorted@),
            forall|a: int|
                #![trigger sorted@[a]]
                0 <= a < sorted@.len() ==> exists|g: int| 0 <= g < i && #[trigger] groups@[g] == sorted@[a],
            forall|g: int| 0 <= g < i ==> sorted@.contains(#[trigger] groups@[g]),
            forall|g: int, h: int|
                0 <= g < groups@.len() && 0 <= h < groups@.len() && #[trigger] groups@[g].conversation@
                    == #[trigger] groups@[h].conversation@ ==> g == h,
        decreases groups@.len() - i,
    {
        let x = Latest { conversation: groups[i].conversation.clone(), ts: groups[i].ts };
        let ghost before = sorted@;
        proof {
            assert(x == groups@[i as int]);
            assert forall|a: int| 0 <= a < before.len() implies #[trigger] before[a].conversation@
                != x.conversation@ by {
                let g = choose|g: int| 0 <= g < i && #[trigger] groups@[g] == before[a];
            }
        }
        insert_latest(&mut sorted, x);
        proof {
            let p = choose|p: int| 0 <= p <= before.len() && sorted@ == before.insert(p, x);
            before.insert_ensures(p, x);
            assert forall|a: int|
                #![trigger sorted@[a]]
                0 <= a < sorted@.len() implies exists|g: int| 0 <= g < i + 1 && #[trigger] groups@[g] == sorted@[a] by {
                if a < p {
                    assert(sorted@[a] == before[a]);
                } else if a == p {
                    assert(groups@[i as int] == sorted@[a]);
                } else {
                    assert(sorted@[a] == before[a - 1]);
                }
            }
            assert forall|g: int| 0 <= g < i + 1 implies sorted@.contains(#[trigger] groups@[g]) by {
                if g == i {
                    assert(sorted@[p] == groups@[g]);
                } else {
                    let a = choose|a: int| 0 <= a < before.len() && before[a] == groups@[g];
                    if a < p {
                        assert(sorted@[a] == groups@[g]);
                    } else {
                        assert(sorted@[a + 1] == groups@[g]);
                    }
                }
            }
        }
        i += 1;
    }
    proof {
        assert(i == groups@.len());
        assert forall|a: int| 0 <= a < sorted@.len() implies groups@.contains(#[trigger] sorted@[a]) by {
            let g = choose|g: int| 0 <= g < i && #[trigger] groups@[g] == sorted@[a];
            assert(groups@[g] == sorted@[a]);
        }
    }
    sorted
}

fn conversation_ids(sorted: &Vec<Latest>) -> (out: Vec<ConversationId>)
    ensures
        out@.len() == sorted@.len(),
        forall|a: int| 0 <= a < out@.len() ==> #[trigger] out@[a]@ == sorted@[a].conversation@,
{
    let mut out: Vec<ConversationId> = Vec::new();
    let mut k: usize = 0;
    while k < sorted.len()
        invariant
            k <= sorted@.len(),
            out@.len() == k,
            forall|a: int| 0 <= a < k ==> #[trigger] out@[a]@ == sorted@[a].conversation@,
        decreases sorted@.len() - k,
    {
        out.push(sorted[k].conversation.clone());
        k += 1;
    }
    out
}

/// Messages, a tag index and an outbox, held in memory.
#[derive(Debug, Default)]
pub struct MemoryStore {
    messages: Vec<Message>,
    index: Vec<TagIndexEntry>,
    outbox: Vec<OutboxEntry>,
}

impl View for MemoryStore {
    type V = StoreView;

    closed spec fn view(&self) -> StoreView {
        StoreView { messages: self.messages@, index: self.index@, outbox: self.outbox@ }
    }
}

fn message_position(messages: &Vec<Message>, id: MessageId) -> (r: Option<usize>)
    ensures
        match r {
            Some(i) => first_index(messages@, with_id(id)) == Some(i as int),
            None => first_index(messages@, with_id(id)) is None,
        },
        r matches Some(i) ==> i < messages@.len() && with_id(id)(messages@[i as int]),
{
    proof {
        lemma_first_index_facts(messages@, with_id(id));
    }
    let mut i: usize = 0;
    while i < messages.len()
        invariant
            i <= messages@.len(),
            forall|j: int| 0 <= j < i ==> !with_id(id)(#[trigger] messages@[j]),
        decreases messages@.len() - i,
    {
        if messages[i].id == id {
            proof {
                lemma_first_index_step(messages@, with_id(id), i as int);
            }
            return Some(i);
        }
        i += 1;
    }
    proof {
        lemma_first_index_none(messages@, with_id(id));
    }
    None
}

fn index_position(index: &Vec<TagIndexEntry>, conversation: &ConversationId, tag: ShortTag) -> (r:
    Option<usize>)
    ensures
        match r {
            Some(i) => first_index(index@, with_key(conversation@, tag)) == Some(i as int),
            None => first_index(index@, with_key(conversation@, tag)) is None,
        },
        r matches Some(i) ==> i < index@.len() && with_key(conversation@, tag)(index@[i as int]),
{
    proof {
        lemma_first_index_facts(index@, with_key(conversation@, tag));
    }
    let mut i: usize = 0;
    while i < index.len()
        invariant
            i <= index@.len(),
            forall|j: int| 0 <= j < i ==> !with_key(conversation@, tag)(#[trigger] index@[j]),
        decreases index@.len() - i,
    {
        if index[i].tag == tag && index[i].conversation.same_as(conversation) {
            proof {
                lemma_first_index_step(index@, with_key(conversation@, tag), i as int);
            }
            return Some(i);
        }
        i += 1;
    }
    proof {
        lemma_first_index_none(index@, with_key(conversation@, tag));
    }
    None
}

fn outbox_position(outbox: &Vec<OutboxEntry>, id: MessageId) -> (r: Option<usize>)
    ensures
        match r {
            Some(i) => first_index(outbox@, entry_with_id(id)) == Some(i as int),
            None => first_index(outbox@, entry_with_id(id)) is None,
        },
        r matches Some(i) ==> i < outbox@.len() && entry_with_id(id)(outbox@[i as int]),
{
    proof {
        lemma_first_index_facts(outbox@, entry_with_id(id));
    }
    let mut i: usize = 0;
    while i < outbox.len()
        invariant
            i <= outbox@.len(),
            forall|j: int| 0 <= j < i ==> !entry_with_id(id)(#[trigger] outbox@[j]),
        decreases outbox@.len() - i,
    {
        if outbox[i].id == id {
            proof {
                lemma_first_index_step(outbox@, entry_with_id(id), i as int);
            }
            return Some(i);
        }
        i += 1;
    }
    proof {
        lemma_first_index_none(outbox@, entry_with_id(id));
    }
    None
}

impl MemoryStore {
    pub fn new() -> (s: MemoryStore)
        ensures
            s@.messages == Seq::<Message>::empty(),
            s@.index == Seq::<TagIndexEntry>::empty(),
            s@.outbox == Seq::<OutboxEntry>::empty(),
    {
        MemoryStore { messages: Vec::new(), index: Vec::new(), outbox: Vec::new() }
    }

    /// How many messages are stored.
    pub fn len(&self) -> (n: usize)
        ensures
            n == self@.messages.len(),
    {
        self.messages.len()
    }

    pub fn is_empty(&self) -> (b: bool)
        ensures
            b == (self@.messages.len() == 0),
    {
        self.len() == 0
    }

    /// Stores a message, replacing the one with the same id.
    pub fn upsert(&mut self, message: Message)
        ensures
            final(self)@ == spec_upsert(old(self)@, message),
    {
        let pos = message_position(&self.messages, message.id);
        match pos {
            Some(i) => {
                let stale = {
                    let prev = &self.messages[i];
                    prev.tag != message.tag || !prev.conversation.same_as(&message.conversation)
                };
                if stale {
                    let k = index_position(
                        &self.index,
                        &self.messages[i].conversation,
                        self.messages[i].tag,
                    );
                    match k {
                        Some(k) => {
                            self.index.remove(k);
                        },
                        None => {},
                    }
                }
            },
            None => {},
        }
        let entry = TagIndexEntry {
            conversation: message.conversation.clone(),
            tag: message.tag,
            id: message.id,
        };
        let j = index_position(&self.index, &message.conversation, message.tag);
        match j {
            Some(j) => {
                self.index.set(j, entry);
            },
            None => {
                self.index.push(entry);
            },
        }
        match pos {
            Some(i) => {
                self.messages.set(i, message);
            },
            None => {
                self.messages.push(message);
            },
        }
    }

    /// The message with id `id`.
    pub fn get(&self, id: &MessageId) -> (r: Option<Message>)
        ensures
            r == first_of(self@.messages, with_id(*id)),
    {
        match message_position(&self.messages, *id) {
            Some(i) => {
                Some(self.messages[i].clone())
            },
            None => None,
        }
    }


    /// The messages of a conversation, ordered by compose time, then id.
    pub fn thread(&self, conversation: &ConversationId) -> (r: Vec<Message>)
        requires
            ids_unique(self@.messages),
        ensures
            is_thread(self@.messages, conversation@, r@),
    {
        let ghost msgs = self@.messages;
        let mut out: Vec<Message> = Vec::new();
        let n = self.messages.len();
        let mut i: usize = 0;
        while i < n
            invariant
                n == msgs.len(),
                msgs == self.messages@,
                ids_unique(msgs),
                i <= n,
                thread_sorted(out@),
                forall|a: int|
                    #![trigger out@[a]]
                    0 <= a < out@.len() ==> exists|j: int|
                        0 <= j < i && #[trigger] msgs[j] == out@[a] && msgs[j].conversation@
                            == conversation@,
                forall|j: int|
                    0 <= j < i && #[trigger] msgs[j].conversation@ == conversation@
                        ==> out@.contains(msgs[j]),
            decreases n - i,
        {
            if self.messages[i].conversation.same_as(conversation) {
                let m = self.messages[i].clone();
                let ghost before = out@;
                proof {
                    assert forall|a: int| 0 <= a < before.len() implies #[trigger] before[a].id
                        != m.id by {
                        let j = choose|j: int|
                            0 <= j < i && #[trigger] msgs[j] == before[a] && msgs[j].conversation@
                                == conversation@;
                        assert(msgs[j].id == before[a].id);
                        assert(msgs[i as int].id == m.id);
                    }
                }
                insert_in_thread(&mut out, m);
                proof {
                    let p = choose|p: int| 0 <= p <= before.len() && out@ == before.insert(p, m);
                    before.insert_ensures(p, m);
                    assert forall|a: int| #![trigger out@[a]] 0 <= a < out@.len() implies exists|j: int|
                        0 <= j < i + 1 && #[trigger] msgs[j] == out@[a] && msgs[j].conversation@
                            == conversation@ by {
                        if a < p {
                            assert(out@[a] == before[a]);
                        } else if a == p {
                            assert(msgs[i as int] == out@[a]);
                        } else {
                            assert(out@[a] == before[a - 1]);
                        }
                    }
                    assert forall|j: int|
                        0 <= j < i + 1 && #[trigger] msgs[j].conversation@ == conversation@
                            implies out@.contains(msgs[j]) by {
                        if j == i {
                            assert(out@[p] == msgs[j]);
                        } else {
                            assert(before.contains(msgs[j]));
                            let a = choose|a: int| 0 <= a < before.len() && before[a] == msgs[j];
                            if a < p {
                                assert(out@[a] == msgs[j]);
                            } else {
                                assert(out@[a + 1] == msgs[j]);
                            }
                        }
                    }
                }
            }
            i += 1;
        }
        proof {
            assert forall|a: int| 0 <= a < out@.len() implies #[trigger] out@[a].conversation@
                == conversation@ && msgs.contains(out@[a]) by {
                let j = choose|j: int|
                    0 <= j < n && #[trigger] msgs[j] == out@[a] && msgs[j].conversation@
                        == conversation@;
            }
        }
        out
    }

    /// Every conversation with a stored message, most recent first, ties in
    /// string order.
    pub fn conversations(&self) -> (r: Vec<ConversationId>)
        ensures
            is_conversation_list(self@.messages, r@),
    {
        let ghost msgs = self@.messages;
        let n = self.messages.len();
        let mut groups: Vec<Latest> = Vec::new();
        let mut j: usize = 0;
        proof {
            assert(msgs.take(0) =~= Seq::<Message>::empty());
        }
        while j < n
            invariant
                n == msgs.len(),
                msgs == self.messages@,
                j <= n,
                groups_cover(groups@, msgs.take(j as int)),
            decreases n - j,
        {
            proof {
                assert(msgs.take(j + 1) =~= msgs.take(j as int).push(msgs[j as int]));
            }
            note_message(&mut groups, &self.messages[j], Ghost(msgs.take(j as int)));
            j += 1;
        }
        proof {
            assert(msgs.take(n as int) =~= msgs);
        }
        let sorted = sort_latest(&groups);
        let out = conversation_ids(&sorted);
        proof {
            assert forall|a: int, b: int| 0 <= a < b < out@.len() implies listed_before(msgs, #[trigger] out@[a]@, #[trigger] out@[b]@) by {
                assert(groups@.contains(sorted@[a]));
                assert(groups@.contains(sorted@[b]));
                assert(latest_before(sorted@[a], sorted@[b]));
            }
            assert forall|a: int| 0 <= a < out@.len() implies has_conversation(msgs, #[trigger] out@[a]@) by {
                assert(groups@.contains(sorted@[a]));
                let g = choose|g: int| 0 <= g < groups@.len() && groups@[g] == sorted@[a];
                assert(groups@[g].conversation@ == out@[a]@);
            }
            assert forall|j: int| 0 <= j < msgs.len() implies lists(out@, #[trigger] msgs[j].conversation@) by {
                let g = choose|g: int| 0 <= g < groups@.len() && #[trigger] groups@[g].conversation@ == msgs[j].conversation@;
                assert(sorted@.contains(groups@[g]));
                let a = choose|a: int| 0 <= a < sorted@.len() && sorted@[a] == groups@[g];
                assert(out@[a]@ == msgs[j].conversation@);
            }
        }
        out
    }

    /// The message filed under `tag` in `conversation`.
    pub fn find_by_tag(&self, conversation: &ConversationId, tag: ShortTag) -> (r: Option<Message>)
        ensures
            r == spec_find_by_tag(self@, conversation@, tag),
    {
        match index_position(&self.index, conversation, tag) {
            Some(k) => self.get(&self.index[k].id),
            None => None,
        }
    }

    /// Queues an entry, replacing the queued entry with the same id in place.
    pub fn enqueue(&mut self, entry: OutboxEntry)
        ensures
            final(self)@ == (StoreView {
                outbox: replace_or_push(old(self)@.outbox, entry_with_id(entry.id), entry),
                ..old(self)@
            }),
    {
        match outbox_position(&self.outbox, entry.id) {
            Some(i) => {
                self.outbox.set(i, entry);
            },
            None => {
                self.outbox.push(entry);
            },
        }
    }

    /// The queued entries, oldest first.
    pub fn outbox(&self) -> (v: Vec<OutboxEntry>)
        ensures
            v@ == self@.outbox,
    {
        self.outbox.clone()
    }

    /// Updates the queued entry with the same id in place; an entry not
    /// queued is not added.
    pub fn update_outbox(&mut self, entry: OutboxEntry)
        ensures
            final(self)@ == (StoreView {
                outbox: replace_first(old(self)@.outbox, entry_with_id(entry.id), entry),
                ..old(self)@
            }),
    {
        match outbox_position(&self.outbox, entry.id) {
            Some(i) => {
                self.outbox.set(i, entry);
            },
            None => {},
        }
    }

    /// Takes every entry with id `id` off the outbox.
    pub fn retire(&mut self, id: &MessageId)
        ensures
            final(self)@ == (StoreView {
                outbox: old(self)@.outbox.filter(entry_other_than(*id)),
                ..old(self)@
            }),
    {
        let ghost pred = entry_other_than(*id);
        let mut kept: Vec<OutboxEntry> = Vec::new();
        let mut i: usize = 0;
        let n = self.outbox.len();
        while i < n
            invariant
                n == self.outbox@.len(),
                i <= n,
                self.outbox@ == old(self).outbox@,
                pred == entry_other_than(*id),
                kept@ == self.outbox@.take(i as int).filter(pred),
            decreases n - i,
        {
            let ghost before = kept@;
            if self.outbox[i].id != *id {
                kept.push(self.outbox[i].clone());
            }
            proof {
                let t = self.outbox@.take(i + 1);
                assert(t.drop_last() =~= self.outbox@.take(i as int));
                assert(t.last() == self.outbox@[i as int]);
                reveal_with_fuel(Seq::filter, 1);
                assert(t.filter(pred) == if pred(t.last()) {
                    before.push(t.last())
                } else {
                    before
                });
            }
            i += 1;
        }
        proof {
            assert(self.outbox@.take(n as int) =~= self.outbox@);
        }
        self.outbox = kept;
    }
}

/// After a message is stored, looking up its id gives that message.
pub proof fn law_upsert_then_get(v: StoreView, m: Message)
    ensures
        first_of(spec_upsert(v, m).messages, with_id(m.id)) == Some(m),
{
    lemma_replace_or_push_found(v.messages, with_id(m.id), m);
}

/// After a message is stored, looking up its tag in its conversation gives
/// that message.
pub proof fn law_upsert_then_find_by_tag(v: StoreView, m: Message)
    ensures
        spec_find_by_tag(spec_upsert(v, m), m.conversation@, m.tag) == Some(m),
{
    let after = spec_upsert(v, m);
    let index = match first_of(v.messages, with_id(m.id)) {
        Some(prev) => if prev.conversation@ == m.conversation@ && prev.tag == m.tag {
            v.index
        } else {
            remove_first(v.index, with_key(prev.conversation@, prev.tag))
        },
        None => v.index,
    };
    lemma_replace_or_push_found(index, with_key(m.conversation@, m.tag), index_entry_of(m));
    lemma_replace_or_push_found(v.messages, with_id(m.id), m);
}

/// Storing a message with a known id replaces it; only a new id adds one.
pub proof fn law_upsert_replaces_rather_than_duplicates(v: StoreView, m: Message)
    ensures
        spec_upsert(v, m).messages.len() == v.messages.len() + if first_of(v.messages, with_id(m.id)) is Some {
            0int
        } else {
            1int
        },
{
    lemma_first_index_facts(v.messages, with_id(m.id));
}

/// Storing keeps one message per id.
pub proof fn law_upsert_keeps_ids_unique(v: StoreView, m: Message)
    requires
        ids_unique(v.messages),
    ensures
        ids_unique(spec_upsert(v, m).messages),
{
    lemma_first_index_facts(v.messages, with_id(m.id));
    let r = spec_upsert(v, m).messages;
    match first_index(v.messages, with_id(m.id)) {
        Some(i) => {
            assert forall|a: int, b: int|
                0 <= a < r.len() && 0 <= b < r.len() && #[trigger] r[a].id == #[trigger] r[b].id implies a == b by {
                if a != i && b != i {
                    assert(r[a] == v.messages[a] && r[b] == v.messages[b]);
                } else if a == i && b != i {
                    assert(r[b] == v.messages[b]);
                    assert(v.messages[i].id == m.id);
                } else if b == i && a != i {
                    assert(r[a] == v.messages[a]);
                    assert(v.messages[i].id == m.id);
                }
            }
        },
        None => {
            assert forall|a: int, b: int|
                0 <= a < r.len() && 0 <= b < r.len() && #[trigger] r[a].id == #[trigger] r[b].id implies a == b by {
                if a < v.messages.len() && b < v.messages.len() {
                    assert(r[a] == v.messages[a] && r[b] == v.messages[b]);
                } else if a < v.messages.len() {
                    assert(r[a] == v.messages[a]);
                    assert(!with_id(m.id)(v.messages[a]));
                } else if b < v.messages.len() {
                    assert(r[b] == v.messages[b]);
                    assert(!with_id(m.id)(v.messages[b]));
                }
            }
        },
    }
}

/// Every stored message is what its conversation and tag find: no thread
/// holds two messages with one tag.
pub open spec fn tags_resolve(v: StoreView) -> bool {
    forall|i: int|
        0 <= i < v.messages.len() ==> spec_find_by_tag(
            v,
            (#[trigger] v.messages[i]).conversation@,
            v.messages[i].tag,
        ) == Some(v.messages[i])
}

/// Where tags resolve, one conversation holds at most one message per tag.
pub proof fn law_one_message_per_tag(v: StoreView, i: int, j: int)
    requires
        ids_unique(v.messages),
        tags_resolve(v),
        0 <= i < v.messages.len(),
        0 <= j < v.messages.len(),
        v.messages[i].conversation@ == v.messages[j].conversation@,
        v.messages[i].tag == v.messages[j].tag,
    ensures
        i == j,
{
    assert(spec_find_by_tag(v, v.messages[i].conversation@, v.messages[i].tag) == Some(v.messages[i]));
    assert(spec_find_by_tag(v, v.messages[j].conversation@, v.messages[j].tag) == Some(v.messages[j]));
    assert(v.messages[i].id == v.messages[j].id);
}

/// Storing a message keeps tags resolving, as long as its conversation and
/// tag find nothing, or find the message itself: a message whose tag is new
/// in its conversation, or a new record of a stored message.
pub proof fn law_upsert_keeps_tags_resolving(v: StoreView, m: Message)
    requires
        store_wf(v),
        tags_resolve(v),
        match spec_find_by_tag(v, m.conversation@, m.tag) {
            Some(x) => x.id == m.id,
            None => true,
        },
    ensures
        tags_resolve(spec_upsert(v, m)),
{
    let after = spec_upsert(v, m);
    lemma_first_index_facts(v.messages, with_id(m.id));
    lemma_replace_or_push_found(v.messages, with_id(m.id), m);
    law_upsert_then_find_by_tag(v, m);
    let index1 = match first_of(v.messages, with_id(m.id)) {
        Some(prev) => if prev.conversation@ == m.conversation@ && prev.tag == m.tag {
            v.index
        } else {
            remove_first(v.index, with_key(prev.conversation@, prev.tag))
        },
        None => v.index,
    };
    assert forall|k: int| 0 <= k < after.messages.len() implies spec_find_by_tag(
        after,
        (#[trigger] after.messages[k]).conversation@,
        after.messages[k].tag,
    ) == Some(after.messages[k]) by {
        let y = after.messages[k];
        if y.id == m.id {
            lemma_first_index_facts(after.messages, with_id(m.id));
            assert(ids_unique(after.messages)) by {
                law_upsert_keeps_ids_unique(v, m);
            }
            assert(first_of(after.messages, with_id(m.id)) == Some(m));
            let f = first_index(after.messages, with_id(m.id)).unwrap();
            assert(after.messages[f].id == after.messages[k].id);
            assert(y == m);
        } else {
            // `y` is a stored message other than `m`, found under its own key.
            assert(k < v.messages.len() && v.messages[k] == y);
            assert(spec_find_by_tag(v, y.conversation@, y.tag) == Some(y));
            lemma_first_index_facts(v.index, with_key(y.conversation@, y.tag));
            let e = first_of(v.index, with_key(y.conversation@, y.tag)).unwrap();
            lemma_first_index_facts(v.messages, with_id(e.id));
            assert(e.id == y.id);
            // Its key is neither that of `m` nor that of the record `m` replaces.
            assert(!(y.conversation@ == m.conversation@ && y.tag == m.tag));
            match first_of(v.messages, with_id(m.id)) {
                Some(prev) => {
                    let pi = first_index(v.messages, with_id(m.id)).unwrap();
                    assert(spec_find_by_tag(v, v.messages[pi].conversation@, v.messages[pi].tag) == Some(v.messages[pi]));
                    if !(prev.conversation@ == m.conversation@ && prev.tag == m.tag) {
                        assert(!(y.conversation@ == prev.conversation@ && y.tag == prev.tag));
                        lemma_first_of_after_remove(
                            v.index,
                            with_key(prev.conversation@, prev.tag),
                            with_key(y.conversation@, y.tag),
                        );
                    }
                },
                None => {},
            }
            assert(first_of(index1, with_key(y.conversation@, y.tag)) == Some(e));
            lemma_first_of_unaffected(
                index1,
                with_key(m.conversation@, m.tag),
                with_key(y.conversation@, y.tag),
                index_entry_of(m),
            );
            lemma_first_of_unaffected(v.messages, with_id(m.id), with_id(y.id), m);
        }
    }
}

/// Two sequences sorted in thread order, holding the same messages of
/// distinct ids, are one sequence.
proof fn lemma_sorted_threads_equal(r1: Seq<Message>, r2: Seq<Message>)
    requires
        thread_sorted(r1),
        thread_sorted(r2),
        forall|x: Message| r1.contains(x) <==> r2.contains(x),
    ensures
        r1 == r2,
    decreases r1.len() + r2.len(),
{
    if r1.len() == 0 || r2.len() == 0 {
        if r1.len() > 0 {
            assert(r1.contains(r1[0]));
        }
        if r2.len() > 0 {
            assert(r2.contains(r2[0]));
        }
        assert(r1 =~= r2);
    } else {
        assert(r1.contains(r1[0]));
        assert(r2.contains(r2[0]));
        let i2 = choose|i: int| 0 <= i < r2.len() && r2[i] == r1[0];
        let i1 = choose|i: int| 0 <= i < r1.len() && r1[i] == r2[0];
        if i2 > 0 && i1 > 0 {
            assert(thread_before(r2[0], r2[i2]));
            assert(thread_before(r1[0], r1[i1]));
        }
        assert(r1[0] == r2[0]);
        let t1 = r1.drop_first();
        let t2 = r2.drop_first();
        assert(thread_sorted(t1)) by {
            assert forall|a: int, b: int| 0 <= a < b < t1.len() implies thread_before(#[trigger] t1[a], #[trigger] t1[b]) by {
                assert(t1[a] == r1[a + 1] && t1[b] == r1[b + 1]);
            }
        }
        assert(thread_sorted(t2)) by {
            assert forall|a: int, b: int| 0 <= a < b < t2.len() implies thread_before(#[trigger] t2[a], #[trigger] t2[b]) by {
                assert(t2[a] == r2[a + 1] && t2[b] == r2[b + 1]);
            }
        }
        assert forall|x: Message| t1.contains(x) <==> t2.contains(x) by {
            if t1.contains(x) {
                let a = choose|a: int| 0 <= a < t1.len() && t1[a] == x;
                assert(r1[a + 1] == x);
                assert(thread_before(r1[0], r1[a + 1]));
                assert(r2.contains(x));
                let b = choose|b: int| 0 <= b < r2.len() && r2[b] == x;
                assert(b != 0);
                assert(t2[b - 1] == x);
            }
            if t2.contains(x) {
                let a = choose|a: int| 0 <= a < t2.len() && t2[a] == x;
                assert(r2[a + 1] == x);
                assert(thread_before(r2[0], r2[a + 1]));
                assert(r1.contains(x));
                let b = choose|b: int| 0 <= b < r1.len() && r1[b] == x;
                assert(b != 0);
                assert(t1[b - 1] == x);
            }
        }
        lemma_sorted_threads_equal(t1, t2);
        assert(r1 =~= r2) by {
            assert forall|k: int| 0 <= k < r1.len() implies r1[k] == r2[k] by {
                if k > 0 {
                    assert(r1[k] == t1[k - 1] && r2[k] == t2[k - 1]);
                }
            }
        }
    }
}

/// A conversation has one thread: the stored messages of the conversation
/// in compose-time order, then by id. Two threads of one conversation of a
/// store are equal, position by position.
pub proof fn law_thread_is_unique(messages: Seq<Message>, conversation: Seq<char>, r1: Seq<Message>, r2: Seq<Message>)
    requires
        is_thread(messages, conversation, r1),
        is_thread(messages, conversation, r2),
    ensures
        r1 == r2,
{
    assert forall|x: Message| r1.contains(x) <==> r2.contains(x) by {
        if r1.contains(x) {
            let a = choose|a: int| 0 <= a < r1.len() && r1[a] == x;
            assert(r1[a].conversation@ == conversation);
            assert(messages.contains(r1[a]));
            let j = choose|j: int| 0 <= j < messages.len() && messages[j] == x;
            assert(messages[j].conversation@ == conversation);
        }
        if r2.contains(x) {
            let a = choose|a: int| 0 <= a < r2.len() && r2[a] == x;
            assert(r2[a].conversation@ == conversation);
            assert(messages.contains(r2[a]));
            let j = choose|j: int| 0 <= j < messages.len() && messages[j] == x;
            assert(messages[j].conversation@ == conversation);
        }
    }
    lemma_sorted_threads_equal(r1, r2);
}

/// Listing order is strict: no conversation is listed before one listed
/// before it.
proof fn lemma_listed_before_asymmetric(messages: Seq<Message>, a: Seq<char>, b: Seq<char>)
    ensures
        !(listed_before(messages, a, b) && listed_before(messages, b, a)),
{
    if listed_before(messages, a, b) && listed_before(messages, b, a) {
        crate::text::lemma_chars_lt_transitive(a, b, a);
        crate::text::lemma_chars_lt_irreflexive(a);
    }
}

proof fn lemma_sorted_lists_equal(messages: Seq<Message>, s1: Seq<Seq<char>>, s2: Seq<Seq<char>>)
    requires
        forall|a: int, b: int| 0 <= a < b < s1.len() ==> listed_before(messages, #[trigger] s1[a], #[trigger] s1[b]),
        forall|a: int, b: int| 0 <= a < b < s2.len() ==> listed_before(messages, #[trigger] s2[a], #[trigger] s2[b]),
        forall|x: Seq<char>| s1.contains(x) <==> s2.contains(x),
    ensures
        s1 == s2,
    decreases s1.len() + s2.len(),
{
    if s1.len() == 0 || s2.len() == 0 {
        if s1.len() > 0 {
            assert(s1.contains(s1[0]));
        }
        if s2.len() > 0 {
            assert(s2.contains(s2[0]));
        }
        assert(s1 =~= s2);
    } else {
        assert(s1.contains(s1[0]));
        assert(s2.contains(s2[0]));
        let i2 = choose|i: int| 0 <= i < s2.len() && s2[i] == s1[0];
        let i1 = choose|i: int| 0 <= i < s1.len() && s1[i] == s2[0];
        if i2 > 0 && i1 > 0 {
            assert(listed_before(messages, s2[0], s2[i2]));
            assert(listed_before(messages, s1[0], s1[i1]));
            lemma_listed_before_asymmetric(messages, s1[0], s2[0]);
        }
        assert(s1[0] == s2[0]);
        let t1 = s1.drop_first();
        let t2 = s2.drop_first();
        assert forall|a: int, b: int| 0 <= a < b < t1.len() implies listed_before(messages, #[trigger] t1[a], #[trigger] t1[b]) by {
            assert(t1[a] == s1[a + 1] && t1[b] == s1[b + 1]);
        }
        assert forall|a: int, b: int| 0 <= a < b < t2.len() implies listed_before(messages, #[trigger] t2[a], #[trigger] t2[b]) by {
            assert(t2[a] == s2[a + 1] && t2[b] == s2[b + 1]);
        }
        assert forall|x: Seq<char>| t1.contains(x) <==> t2.contains(x) by {
            if t1.contains(x) {
                let a = choose|a: int| 0 <= a < t1.len() && t1[a] == x;
                assert(s1[a + 1] == x);
                assert(listed_before(messages, s1[0], s1[a + 1]));
                assert(s2.contains(x));
                let b = choose|b: int| 0 <= b < s2.len() && s2[b] == x;
                lemma_listed_before_asymmetric(messages, x, x);
                assert(b != 0);
                assert(t2[b - 1] == x);
            }
            if t2.contains(x) {
                let a = choose|a: int| 0 <= a < t2.len() && t2[a] == x;
                assert(s2[a + 1] == x);
                assert(listed_before(messages, s2[0], s2[a + 1]));
                assert(s1.contains(x));
                let b = choose|b: int| 0 <= b < s1.len() && s1[b] == x;
                lemma_listed_before_asymmetric(messages, x, x);
                assert(b != 0);
                assert(t1[b - 1] == x);
            }
        }
        lemma_sorted_lists_equal(messages, t1, t2);
        assert(s1 =~= s2) by {
            assert forall|k: int| 0 <= k < s1.len() implies s1[k] == s2[k] by {
                if k > 0 {
                    assert(s1[k] == t1[k - 1] && s2[k] == t2[k - 1]);
                }
            }
        }
    }
}

/// There is one conversation list of a store: every conversation with a
/// message, once, the most recent first, then by id. Two lists of one store
/// name the same conversations in the same order.
pub proof fn law_conversation_list_is_unique(messages: Seq<Message>, r1: Seq<ConversationId>, r2: Seq<ConversationId>)
    requires
        is_conversation_list(messages, r1),
        is_conversation_list(messages, r2),
    ensures
        r1.len() == r2.len(),
        forall|k: int| 0 <= k < r1.len() ==> #[trigger] r1[k]@ == r2[k]@,
{
    let s1 = r1.map_values(|c: ConversationId| c@);
    let s2 = r2.map_values(|c: ConversationId| c@);
    assert forall|a: int, b: int| 0 <= a < b < s1.len() implies listed_before(messages, #[trigger] s1[a], #[trigger] s1[b]) by {
        assert(s1[a] == r1[a]@ && s1[b] == r1[b]@);
    }
    assert forall|a: int, b: int| 0 <= a < b < s2.len() implies listed_before(messages, #[trigger] s2[a], #[trigger] s2[b]) by {
        assert(s2[a] == r2[a]@ && s2[b] == r2[b]@);
    }
    assert forall|x: Seq<char>| s1.contains(x) <==> s2.contains(x) by {
        if s1.contains(x) {
            let a = choose|a: int| 0 <= a < s1.len() && s1[a] == x;
            assert(has_conversation(messages, r1[a]@));
            let j = choose|j: int| 0 <= j < messages.len() && #[trigger] messages[j].conversation@ == r1[a]@;
            assert(lists(r2, messages[j].conversation@));
            let b = choose|b: int| 0 <= b < r2.len() && #[trigger] r2[b]@ == messages[j].conversation@;
            assert(s2[b] == x);
        }
        if s2.contains(x) {
            let a = choose|a: int| 0 <= a < s2.len() && s2[a] == x;
            assert(has_conversation(messages, r2[a]@));
            let j = choose|j: int| 0 <= j < messages.len() && #[trigger] messages[j].conversation@ == r2[a]@;
            assert(lists(r1, messages[j].conversation@));
            let b = choose|b: int| 0 <= b < r1.len() && #[trigger] r1[b]@ == messages[j].conversation@;
            assert(s1[b] == x);
        }
    }
    lemma_sorted_lists_equal(messages, s1, s2);
    assert forall|k: int| 0 <= k < r1.len() implies #[trigger] r1[k]@ == r2[k]@ by {
        assert(s1[k] == r1[k]@ && s2[k] == r2[k]@);
    }
}

/// The ids of the messages of `s`.
pub open spec fn ids_of(s: Seq<Message>) -> Set<MessageId> {
    Set::new(|id: MessageId| exists|k: int| 0 <= k < s.len() && #[trigger] s[k].id == id)
}

/// The store `v` after storing each message of `ms` in turn.
pub open spec fn upsert_all(v: StoreView, ms: Seq<Message>) -> StoreView
    decreases ms.len(),
{
    if ms.len() == 0 {
        v
    } else {
        spec_upsert(upsert_all(v, ms.drop_last()), ms.last())
    }
}

/// With one message per id, there are as many messages as ids.
proof fn lemma_len_is_id_count(s: Seq<Message>)
    requires
        ids_unique(s),
    ensures
        s.len() == ids_of(s).len(),
        ids_of(s).finite(),
{
    let t = s.map_values(|m: Message| m.id);
    assert(t.no_duplicates()) by {
        assert forall|i: int, j: int| 0 <= i < t.len() && 0 <= j < t.len() && i != j implies t[i] != t[j] by {
            assert(t[i] == s[i].id && t[j] == s[j].id);
        }
    }
    t.unique_seq_to_set();
    assert(t.to_set() =~= ids_of(s)) by {
        assert forall|id: MessageId| t.to_set().contains(id) implies ids_of(s).contains(id) by {
            let k = choose|k: int| 0 <= k < t.len() && t[k] == id;
            assert(s[k].id == id);
        }
        assert forall|id: MessageId| ids_of(s).contains(id) implies t.to_set().contains(id) by {
            let k = choose|k: int| 0 <= k < s.len() && #[trigger] s[k].id == id;
            assert(t[k] == id);
        }
    }
}

/// Storing messages never duplicates one: however many are stored, the
/// store holds one message per distinct id among what it held and what was
/// stored.
pub proof fn law_upserts_count_distinct_ids(v: StoreView, ms: Seq<Message>)
    requires
        ids_unique(v.messages),
    ensures
        ids_unique(upsert_all(v, ms).messages),
        ids_of(upsert_all(v, ms).messages) == ids_of(v.messages).union(ids_of(ms)),
        upsert_all(v, ms).messages.len() == ids_of(v.messages).union(ids_of(ms)).len(),
    decreases ms.len(),
{
    if ms.len() == 0 {
        assert(ids_of(ms) =~= Set::<MessageId>::empty());
        assert(ids_of(v.messages).union(ids_of(ms)) =~= ids_of(v.messages));
    } else {
        let before = upsert_all(v, ms.drop_last());
        let m = ms.last();
        law_upserts_count_distinct_ids(v, ms.drop_last());
        law_upsert_keeps_ids_unique(before, m);
        let after = spec_upsert(before, m).messages;
        lemma_first_index_facts(before.messages, with_id(m.id));
        assert(ids_of(after) =~= ids_of(before.messages).insert(m.id)) by {
            assert forall|id: MessageId| ids_of(after).contains(id) implies ids_of(before.messages).insert(m.id).contains(id) by {
                let k = choose|k: int| 0 <= k < after.len() && #[trigger] after[k].id == id;
                if k < before.messages.len() && after[k] != m {
                    assert(after[k] == before.messages[k]);
                }
            }
            assert forall|id: MessageId| ids_of(before.messages).insert(m.id).contains(id) implies ids_of(after).contains(id) by {
                if id == m.id {
                    lemma_replace_or_push_found(before.messages, with_id(m.id), m);
                    lemma_first_index_facts(after, with_id(m.id));
                    let f = first_index(after, with_id(m.id)).unwrap();
                    assert(after[f].id == id);
                } else {
                    let k = choose|k: int| 0 <= k < before.messages.len() && #[trigger] before.messages[k].id == id;
                    assert(after[k] == before.messages[k]);
                }
            }
        }
        assert(ids_of(ms) =~= ids_of(ms.drop_last()).insert(m.id)) by {
            assert forall|id: MessageId| ids_of(ms).contains(id) implies ids_of(ms.drop_last()).insert(m.id).contains(id) by {
                let k = choose|k: int| 0 <= k < ms.len() && #[trigger] ms[k].id == id;
                if k < ms.len() - 1 {
                    assert(ms.drop_last()[k] == ms[k]);
                }
            }
            assert forall|id: MessageId| ids_of(ms.drop_last()).insert(m.id).contains(id) implies ids_of(ms).contains(id) by {
                if id == m.id {
                    assert(ms[ms.len() - 1].id == id);
                } else {
                    let k = choose|k: int| 0 <= k < ms.drop_last().len() && #[trigger] ms.drop_last()[k].id == id;
                    assert(ms[k] == ms.drop_last()[k]);
                }
            }
        }
        assert(ids_of(after) =~= ids_of(v.messages).union(ids_of(ms)));
        lemma_len_is_id_count(after);
    }
    if ms.len() == 0 {
        lemma_len_is_id_count(v.messages);
    }
}

/// Storing a message under another conversation or tag than its stored
/// record drops the old index entry: nothing is found under the old key
/// any more, and the message is found under the new one.
pub proof fn law_refiling_drops_the_stale_entry(v: StoreView, m: Message)
    requires
        store_wf(v),
        first_of(v.messages, with_id(m.id)) matches Some(prev) && !(prev.conversation@
            == m.conversation@ && prev.tag == m.tag),
    ensures
        spec_find_by_tag(
            spec_upsert(v, m),
            first_of(v.messages, with_id(m.id)).unwrap().conversation@,
            first_of(v.messages, with_id(m.id)).unwrap().tag,
        ) is None,
        spec_find_by_tag(spec_upsert(v, m), m.conversation@, m.tag) == Some(m),
{
    let prev = first_of(v.messages, with_id(m.id)).unwrap();
    let stale = with_key(prev.conversation@, prev.tag);
    lemma_remove_key(v.index, prev.conversation@, prev.tag);
    let r = remove_first(v.index, stale);
    let after = spec_upsert(v, m).index;
    lemma_first_index_facts(r, with_key(m.conversation@, m.tag));
    assert forall|j: int| 0 <= j < after.len() implies !stale(#[trigger] after[j]) by {
        match first_index(r, with_key(m.conversation@, m.tag)) {
            Some(i) => {
                if j != i {
                    assert(after[j] == r[j]);
                }
            },
            None => {
                if j < r.len() {
                    assert(after[j] == r[j]);
                }
            },
        }
    }
    lemma_first_index_none(after, stale);
    law_upsert_then_find_by_tag(v, m);
}

/// Removing the first entry filed under a key keeps keys unique, leaves no
/// entry filed under that key, and leaves only entries that were there.
proof fn lemma_remove_key(index: Seq<TagIndexEntry>, c: Seq<char>, t: ShortTag)
    requires
        keys_unique(index),
    ensures
        keys_unique(remove_first(index, with_key(c, t))),
        forall|a: int|
            0 <= a < remove_first(index, with_key(c, t)).len() ==> !with_key(c, t)(
                #[trigger] remove_first(index, with_key(c, t))[a],
            ) && index.contains(remove_first(index, with_key(c, t))[a]),
{
    lemma_first_index_facts(index, with_key(c, t));
    let r = remove_first(index, with_key(c, t));
    match first_index(index, with_key(c, t)) {
        Some(i) => {
            assert forall|a: int| 0 <= a < r.len() implies #[trigger] r[a] == index[if a < i {
                a
            } else {
                a + 1
            }] by {}
            assert forall|a: int, b: int|
                0 <= a < r.len() && 0 <= b < r.len() && #[trigger] r[a].conversation@
                    == #[trigger] r[b].conversation@ && r[a].tag == r[b].tag implies a == b by {
                let a2 = if a < i { a } else { a + 1 };
                let b2 = if b < i { b } else { b + 1 };
                assert(r[a] == index[a2] && r[b] == index[b2]);
                assert(index[a2].conversation@ == index[b2].conversation@);
            }
            assert forall|a: int| 0 <= a < r.len() implies !with_key(c, t)(#[trigger] r[a])
                && index.contains(r[a]) by {
                let a2 = if a < i { a } else { a + 1 };
                assert(r[a] == index[a2]);
                if with_key(c, t)(r[a]) {
                    assert(index[a2].conversation@ == index[i].conversation@);
                }
            }
        },
        None => {
            assert forall|a: int| 0 <= a < r.len() implies !with_key(c, t)(#[trigger] r[a])
                && index.contains(r[a]) by {
                assert(r[a] == index[a]);
            }
        },
    }
}

/// Filing an entry under its key keeps keys unique; every other entry is
/// one that was there, at its place, under another key.
proof fn lemma_file_key(index: Seq<TagIndexEntry>, e: TagIndexEntry)
    requires
        keys_unique(index),
    ensures
        keys_unique(replace_or_push(index, with_key(e.conversation@, e.tag), e)),
        forall|a: int|
            0 <= a < replace_or_push(index, with_key(e.conversation@, e.tag), e).len() ==> #[trigger] replace_or_push(
                index,
                with_key(e.conversation@, e.tag),
                e,
            )[a] == e || (a < index.len() && replace_or_push(index, with_key(e.conversation@, e.tag), e)[a]
                == index[a] && !with_key(e.conversation@, e.tag)(index[a])),
{
    let p = with_key(e.conversation@, e.tag);
    lemma_first_index_facts(index, p);
    let r = replace_or_push(index, p, e);
    match first_index(index, p) {
        Some(i) => {
            assert forall|a: int| 0 <= a < r.len() implies #[trigger] r[a] == e || (a < index.len()
                && r[a] == index[a] && !p(index[a])) by {
                if a != i {
                    assert(r[a] == index[a]);
                    if p(index[a]) {
                        assert(index[a].conversation@ == index[i].conversation@);
                    }
                }
            }
            assert forall|a: int, b: int|
                0 <= a < r.len() && 0 <= b < r.len() && #[trigger] r[a].conversation@
                    == #[trigger] r[b].conversation@ && r[a].tag == r[b].tag implies a == b by {
                if a != i && b != i {
                    assert(r[a] == index[a] && r[b] == index[b]);
                } else if a == i && b != i {
                    assert(r[b] == index[b]);
                } else if b == i && a != i {
                    assert(r[a] == index[a]);
                }
            }
        },
        None => {
            assert forall|a: int| 0 <= a < r.len() implies #[trigger] r[a] == e || (a < index.len()
                && r[a] == index[a] && !p(index[a])) by {
                if a < index.len() {
                    assert(r[a] == index[a]);
                }
            }
            assert forall|a: int, b: int|
                0 <= a < r.len() && 0 <= b < r.len() && #[trigger] r[a].conversation@
                    == #[trigger] r[b].conversation@ && r[a].tag == r[b].tag implies a == b by {
                if a < index.len() && b < index.len() {
                    assert(r[a] == index[a] && r[b] == index[b]);
                } else if a < index.len() {
                    assert(r[a] == index[a]);
                    assert(!p(index[a]));
                } else if b < index.len() {
                    assert(r[b] == index[b]);
                    assert(!p(index[b]));
                }
            }
        },
    }
}

/// Storing a message keeps the store consistent: one message per id, one
/// index entry per key, and every index entry naming a message filed under
/// its key.
pub proof fn law_upsert_keeps_store_wf(v: StoreView, m: Message)
    requires
        store_wf(v),
    ensures
        store_wf(spec_upsert(v, m)),
{
    law_upsert_keeps_ids_unique(v, m);
    let after = spec_upsert(v, m);
    let prev_opt = first_of(v.messages, with_id(m.id));
    let idx0 = match prev_opt {
        Some(prev) => if prev.conversation@ == m.conversation@ && prev.tag == m.tag {
            v.index
        } else {
            remove_first(v.index, with_key(prev.conversation@, prev.tag))
        },
        None => v.index,
    };
    match prev_opt {
        Some(prev) => {
            if !(prev.conversation@ == m.conversation@ && prev.tag == m.tag) {
                lemma_remove_key(v.index, prev.conversation@, prev.tag);
            }
        },
        None => {},
    }
    assert(keys_unique(idx0));
    assert forall|a: int| 0 <= a < idx0.len() implies v.index.contains(#[trigger] idx0[a]) by {
        match prev_opt {
            Some(prev) => {
                if !(prev.conversation@ == m.conversation@ && prev.tag == m.tag) {
                    assert(v.index.contains(remove_first(v.index, with_key(prev.conversation@, prev.tag))[a]));
                } else {
                    assert(v.index[a] == idx0[a]);
                }
            },
            None => {
                assert(v.index[a] == idx0[a]);
            },
        }
    }
    let e = index_entry_of(m);
    lemma_file_key(idx0, e);
    assert(after.index == replace_or_push(idx0, with_key(e.conversation@, e.tag), e));
    lemma_replace_or_push_found(v.messages, with_id(m.id), m);
    assert forall|a: int| 0 <= a < after.index.len() implies match first_of(
        after.messages,
        with_id(#[trigger] after.index[a].id),
    ) {
        Some(x) => x.conversation@ == after.index[a].conversation@ && x.tag == after.index[a].tag,
        None => false,
    } by {
        let ea = after.index[a];
        if ea == e {
        } else {
            assert(a < idx0.len() && ea == idx0[a] && !with_key(e.conversation@, e.tag)(idx0[a]));
            assert(v.index.contains(ea));
            let b = choose|b: int| 0 <= b < v.index.len() && v.index[b] == ea;
            assert(v.index[b] == ea);
            if ea.id != m.id {
                lemma_first_of_unaffected(v.messages, with_id(m.id), with_id(ea.id), m);
            } else {
                match prev_opt {
                    Some(prev) => {
                        if !(prev.conversation@ == m.conversation@ && prev.tag == m.tag) {
                            assert(!with_key(prev.conversation@, prev.tag)(idx0[a]));
                        }
                    },
                    None => {},
                }
            }
        }
    }
}

/// One outbox entry per id.
pub open spec fn outbox_ids_unique(outbox: Seq<OutboxEntry>) -> bool {
    forall|i: int, j: int|
        0 <= i < outbox.len() && 0 <= j < outbox.len() && #[trigger] outbox[i].id
            == #[trigger] outbox[j].id ==> i == j
}

/// Queuing keeps one entry per id: queuing a message already queued
/// replaces its entry in place, so the queue keeps its order.
pub proof fn law_enqueue_deduplicates(outbox: Seq<OutboxEntry>, e: OutboxEntry)
    requires
        outbox_ids_unique(outbox),
    ensures
        outbox_ids_unique(replace_or_push(outbox, entry_with_id(e.id), e)),
        forall|k: int|
            0 <= k < outbox.len() && outbox[k].id != e.id ==> #[trigger] replace_or_push(
                outbox,
                entry_with_id(e.id),
                e,
            )[k] == outbox[k],
{
    lemma_first_index_facts(outbox, entry_with_id(e.id));
    let r = replace_or_push(outbox, entry_with_id(e.id), e);
    match first_index(outbox, entry_with_id(e.id)) {
        Some(i) => {
            assert forall|a: int, b: int|
                0 <= a < r.len() && 0 <= b < r.len() && #[trigger] r[a].id == #[trigger] r[b].id implies a == b by {
                if a != i && b != i {
                    assert(r[a] == outbox[a] && r[b] == outbox[b]);
                } else if a == i && b != i {
                    assert(r[b] == outbox[b]);
                } else if b == i && a != i {
                    assert(r[a] == outbox[a]);
                }
            }
        },
        None => {
            assert forall|a: int, b: int|
                0 <= a < r.len() && 0 <= b < r.len() && #[trigger] r[a].id == #[trigger] r[b].id implies a == b by {
                if a < outbox.len() && b < outbox.len() {
                    assert(r[a] == outbox[a] && r[b] == outbox[b]);
                } else if a < outbox.len() {
                    assert(r[a] == outbox[a]);
                    assert(!entry_with_id(e.id)(outbox[a]));
                } else if b < outbox.len() {
                    assert(r[b] == outbox[b]);
                    assert(!entry_with_id(e.id)(outbox[b]));
                }
            }
        },
    }
}

/// Updating an entry keeps it where it was in the queue and leaves the
/// other entries alone.
pub proof fn law_update_preserves_position(outbox: Seq<OutboxEntry>, e: OutboxEntry, k: int)
    requires
        0 <= k < outbox.len(),
        outbox[k].id == e.id,
        outbox_ids_unique(outbox),
    ensures
        replace_first(outbox, entry_with_id(e.id), e).len() == outbox.len(),
        replace_first(outbox, entry_with_id(e.id), e)[k] == e,
        forall|j: int|
            0 <= j < outbox.len() && j != k ==> #[trigger] replace_first(outbox, entry_with_id(e.id), e)[j]
                == outbox[j],
{
    lemma_first_index_facts(outbox, entry_with_id(e.id));
}

/// Retiring takes off the entries with that id and keeps every other entry.
pub proof fn law_retire_removes_only_the_named_entry(outbox: Seq<OutboxEntry>, id: MessageId)
    ensures
        forall|k: int|
            0 <= k < outbox.filter(entry_other_than(id)).len() ==> #[trigger] outbox.filter(
                entry_other_than(id),
            )[k].id != id,
        forall|k: int|
            0 <= k < outbox.len() && outbox[k].id != id ==> outbox.filter(
                entry_other_than(id),
            ).contains(#[trigger] outbox[k]),
{
    let pred = entry_other_than(id);
    assert forall|k: int| 0 <= k < outbox.filter(pred).len() implies #[trigger] outbox.filter(pred)[k].id != id by {
        outbox.lemma_filter_pred(pred, k);
    }
    assert forall|k: int| 0 <= k < outbox.len() && outbox[k].id != id implies outbox.filter(pred).contains(#[trigger] outbox[k]) by {
        outbox.lemma_filter_contains(pred, k);
    }
}

} // verus!
