//! Conversations with agents and the store that keeps them, indexed by
//! task. Times are nanoseconds since the Unix epoch.

use vstd::prelude::*;
use crate::json::JsonValue;
use crate::str_map::{keys_distinct, lemma_entries_map, KeyMap, StrMap};
use crate::text::{contains, lowercase, str_contains, str_trim, to_lowercase, trim};

verus! {

/// Who wrote a message.
#[derive(Debug, Clone, Copy, PartialEq, Eq, Structural)]
pub enum MessageRole {
    System,
    User,
    Assistant,
    Tool,
}

/// The outcome of one tool call.
#[derive(Debug, Clone, PartialEq, Eq)]
pub struct ToolResult {
    pub tool_call_id: String,
    pub content: String,
    pub is_error: bool,
    pub duration_ms: u64,
}

/// Failures of the conversation store.
#[derive(Debug, Clone, PartialEq, Eq)]
pub enum ConversationError {
    NotFound(String),
    AlreadyExists(String),
    SerializationError(String),
    ImportError(String),
}

/// The message of an error.
pub open spec fn conversation_error_text(e: ConversationError) -> Seq<char> {
    match e {
        ConversationError::NotFound(id) => "conversation not found: "@ + id@,
        ConversationError::AlreadyExists(id) => "conversation already exists: "@ + id@,
        ConversationError::SerializationError(m) => "serialization error: "@ + m@,
        ConversationError::ImportError(m) => "import error: "@ + m@,
    }
}

impl ConversationError {
    /// The error's message.
    pub fn to_string(&self) -> (res: String)
        ensures
            res@ == conversation_error_text(*self),
    {
        let (head, tail) = match self {
            ConversationError::NotFound(id) => ("conversation not found: ", id),
            ConversationError::AlreadyExists(id) => ("conversation already exists: ", id),
            ConversationError::SerializationError(m) => ("serialization error: ", m),
            ConversationError::ImportError(m) => ("import error: ", m),
        };
        let mut s = String::from_str(head);
        s.append(tail.as_str());
        s
    }
}


/// A call of a tool by the model.
#[derive(Debug)]
pub struct ToolCall {
    pub id: String,
    pub name: String,
    pub arguments: JsonValue,
    pub timestamp: i64,
}

/// One message of a conversation.
#[derive(Debug)]
pub struct ConversationMessage {
    pub id: String,
    pub role: MessageRole,
    pub content: String,
    pub timestamp: i64,
    pub model: Option<String>,
    pub tokens: Option<u64>,
    pub tool_calls: Vec<ToolCall>,
    pub tool_results: Vec<ToolResult>,
    pub metadata: StrMap,
}

/// A conversation with an agent about a task.
#[derive(Debug)]
pub struct Conversation {
    pub id: String,
    pub task_id: String,
    pub session_id: Option<String>,
    pub messages: Vec<ConversationMessage>,
    pub created_at: i64,
    pub updated_at: i64,
    pub total_tokens: u64,
    /// Tokens by model.
    pub model_usage: KeyMap<u64>,
}

impl View for Conversation {
    type V = Conversation;

    open spec fn view(&self) -> Conversation {
        *self
    }
}

/// Conversation ids in order of creation.
#[derive(Debug)]
pub struct IdList {
    pub ids: Vec<String>,
}

impl View for IdList {
    type V = Seq<Seq<char>>;

    open spec fn view(&self) -> Seq<Seq<char>> {
        self.ids.deep_view()
    }
}

/// The conversations by id, and the ids of each task's conversations.
#[derive(Debug)]
pub struct ConversationStore {
    pub conversations: KeyMap<Conversation>,
    pub task_index: KeyMap<IdList>,
}

/// The view of an optional text argument.
pub open spec fn opt_text(o: Option<&str>) -> Option<Seq<char>> {
    match o {
        Some(s) => Some(s@),
        None => None,
    }
}

/// The view of an optional string.
pub open spec fn opt_string(o: Option<String>) -> Option<Seq<char>> {
    match o {
        Some(s) => Some(s@),
        None => None,
    }
}

/// `a + b`, or `u64::MAX` where that overflows.
pub open spec fn sat_add(a: u64, b: u64) -> u64 {
    if a + b > u64::MAX { u64::MAX } else { (a + b) as u64 }
}

/// The conversation ids of a task (none without an entry).
pub open spec fn ids_of(idx: Map<Seq<char>, Seq<Seq<char>>>, task: Seq<char>) -> Seq<Seq<char>> {
    if idx.contains_key(task) { idx[task] } else { seq![] }
}

/// A fresh conversation.
pub open spec fn is_fresh(c: Conversation, id: Seq<char>, task_id: Seq<char>, session: Option<Seq<char>>, now: i64) -> bool {
    &&& c.id@ == id
    &&& c.task_id@ == task_id
    &&& opt_string(c.session_id) == session
    &&& c.messages@.len() == 0
    &&& c.created_at == now
    &&& c.updated_at == now
    &&& c.total_tokens == 0
    &&& c.model_usage@ == Map::<Seq<char>, u64>::empty()
}

/// A conversation after `m` was added at `now`: its tokens are counted in
/// total and for its model, saturating.
pub open spec fn after_message(c: Conversation, d: Conversation, m: ConversationMessage, now: i64) -> bool {
    &&& d.id == c.id
    &&& d.task_id == c.task_id
    &&& d.session_id == c.session_id
    &&& d.created_at == c.created_at
    &&& d.updated_at == now
    &&& d.messages@ == c.messages@.push(m)
    &&& d.total_tokens == match m.tokens {
        Some(t) => sat_add(c.total_tokens, t),
        None => c.total_tokens,
    }
    &&& d.model_usage@ == match (m.tokens, m.model) {
        (Some(t), Some(model)) => c.model_usage@.insert(model@, sat_add(
            if c.model_usage@.contains_key(model@) { c.model_usage@[model@] } else { 0 },
            t,
        )),
        _ => c.model_usage@,
    }
}

/// The conversations of a list of ids that the store has, in order.
pub open spec fn present(convs: Map<Seq<char>, Conversation>, ids: Seq<Seq<char>>) -> Seq<Conversation>
    decreases ids.len(),
{
    if ids.len() == 0 {
        seq![]
    } else {
        let rest = present(convs, ids.drop_last());
        if convs.contains_key(ids.last()) { rest.push(convs[ids.last()]) } else { rest }
    }
}

/// The messages from `offset` (0 when absent), at most `limit` of them.
pub open spec fn page(msgs: Seq<ConversationMessage>, limit: Option<usize>, offset: Option<usize>) -> Seq<ConversationMessage> {
    let start = match offset { Some(o) => o as int, None => 0 };
    if start >= msgs.len() {
        seq![]
    } else {
        let end = match limit {
            Some(l) => if start + l < msgs.len() { start + l } else { msgs.len() as int },
            None => msgs.len() as int,
        };
        msgs.subrange(start, end)
    }
}

/// The last `n` messages.
pub open spec fn last_n(msgs: Seq<ConversationMessage>, n: usize) -> Seq<ConversationMessage> {
    if n == 0 {
        seq![]
    } else if msgs.len() <= n {
        msgs
    } else {
        msgs.skip(msgs.len() - n)
    }
}

/// The messages of `c` whose lower-cased content holds `needle`, with `c`.
pub open spec fn matches_in(c: Conversation, msgs: Seq<ConversationMessage>, needle: Seq<char>) -> Seq<(Conversation, ConversationMessage)>
    decreases msgs.len(),
{
    if msgs.len() == 0 {
        seq![]
    } else {
        let rest = matches_in(c, msgs.drop_last(), needle);
        if contains(lowercase(msgs.last().content@), needle) { rest.push((c, msgs.last())) } else { rest }
    }
}

/// The matching messages of a list of conversations, in order.
pub open spec fn matches_all(cs: Seq<Conversation>, needle: Seq<char>) -> Seq<(Conversation, ConversationMessage)>
    decreases cs.len(),
{
    if cs.len() == 0 {
        seq![]
    } else {
        matches_all(cs.drop_last(), needle) + matches_in(cs.last(), cs.last().messages@, needle)
    }
}

/// The values of a list of entries.
pub open spec fn entry_values(e: Seq<(String, Conversation)>) -> Seq<Conversation> {
    e.map_values(|x: (String, Conversation)| x.1)
}

impl ConversationStore {
    /// An empty store.
    pub fn new() -> (res: Self)
        ensures
            res.conversations@ == Map::<Seq<char>, Conversation>::empty(),
            res.task_index@ == Map::<Seq<char>, Seq<Seq<char>>>::empty(),
    {
        ConversationStore { conversations: KeyMap::new(), task_index: KeyMap::new() }
    }

    fn index_push(&mut self, task_id: &str, id: &str)
        ensures
            final(self).task_index@ == old(self).task_index@.insert(task_id@, ids_of(old(self).task_index@, task_id@).push(id@)),
            final(self).conversations@ == old(self).conversations@,
    {
        let mut list = IdList { ids: Vec::new() };
        let had = self.task_index.replace(task_id, IdList { ids: Vec::new() });
        match had {
            Some(l) => {
                list = l;
            },
            None => {},
        }
        assert(list@ == ids_of(old(self).task_index@, task_id@)) by {
            if !old(self).task_index@.contains_key(task_id@) {
                assert(list.ids.deep_view() =~= Seq::<Seq<char>>::empty());
            }
        }
        let ghost before = list@;
        list.ids.push(String::from_str(id));
        assert(list@ =~= before.push(id@));
        self.task_index.insert(String::from_str(task_id), list);
    }

    /// Starts a conversation `id` for a task at `now` and returns its id.
    pub fn create_conversation(&mut self, task_id: &str, session_id: Option<&str>, id: &str, now: i64) -> (res: String)
        ensures
            res@ == id@,
            final(self).conversations@.dom() == old(self).conversations@.dom().insert(id@),
            is_fresh(final(self).conversations@[id@], id@, task_id@, opt_text(session_id), now),
            forall|k: Seq<char>| k != id@ ==> #[trigger] final(self).conversations@[k] == old(self).conversations@[k],
            final(self).task_index@ == old(self).task_index@.insert(task_id@, ids_of(old(self).task_index@, task_id@).push(id@)),
    {
        let session = match session_id {
            Some(s) => Some(String::from_str(s)),
            None => None,
        };
        let c = Conversation {
            id: String::from_str(id),
            task_id: String::from_str(task_id),
            session_id: session,
            messages: Vec::new(),
            created_at: now,
            updated_at: now,
            total_tokens: 0,
            model_usage: KeyMap::new(),
        };
        self.conversations.insert(String::from_str(id), c);
        assert(self.conversations@.dom() =~= old(self).conversations@.dom().insert(id@));
        self.index_push(task_id, id);
        String::from_str(id)
    }

    /// Adds a message to conversation `conversation_id` at `now`; fails with
    /// `NotFound` when there is no such conversation.
    pub fn add_message(&mut self, conversation_id: &str, message: ConversationMessage, now: i64) -> (res: Result<(), ConversationError>)
        ensures
            match res {
                Ok(()) => {
                    &&& old(self).conversations@.contains_key(conversation_id@)
                    &&& final(self).conversations@.dom() == old(self).conversations@.dom()
                    &&& after_message(old(self).conversations@[conversation_id@], final(self).conversations@[conversation_id@], message, now)
                    &&& forall|k: Seq<char>| k != conversation_id@ ==> #[trigger] final(self).conversations@[k] == old(self).conversations@[k]
                },
                Err(e) => {
                    &&& !old(self).conversations@.contains_key(conversation_id@)
                    &&& e matches ConversationError::NotFound(id) && id@ == conversation_id@
                    &&& final(self).conversations@ == old(self).conversations@
                },
            },
            final(self).task_index@ == old(self).task_index@,
    {
        let placeholder = Conversation {
            id: String::new(),
            task_id: String::new(),
            session_id: None,
            messages: Vec::new(),
            created_at: 0,
            updated_at: 0,
            total_tokens: 0,
            model_usage: KeyMap::new(),
        };
        let mut c = match self.conversations.replace(conversation_id, placeholder) {
            Some(c) => c,
            None => {
                return Err(ConversationError::NotFound(String::from_str(conversation_id)));
            },
        };
        let ghost c0 = c;
        if let Some(t) = message.tokens {
            c.total_tokens = match c.total_tokens.checked_add(t) {
                Some(v) => v,
                None => u64::MAX,
            };
            if let Some(model) = &message.model {
                let before: u64 = match c.model_usage.get(model.as_str()) {
                    Some(u) => *u,
                    None => 0,
                };
                let after = match before.checked_add(t) {
                    Some(v) => v,
                    None => u64::MAX,
                };
                c.model_usage.insert(model.clone(), after);
            }
        }
        c.updated_at = now;
        c.messages.push(message);
        self.conversations.insert(String::from_str(conversation_id), c);
        assert(self.conversations@.dom() =~= old(self).conversations@.dom());
        Ok(())
    }

    /// The conversation `id`.
    pub fn get_conversation(&self, id: &str) -> (res: Option<&Conversation>)
        ensures
            match res {
                Some(c) => self.conversations@.contains_key(id@) && *c == self.conversations@[id@],
                None => !self.conversations@.contains_key(id@),
            },
    {
        self.conversations.get(id)
    }

    /// The conversations of a task, in order of creation.
    pub fn get_task_conversations(&self, task_id: &str) -> (res: Vec<&Conversation>)
        ensures
            res@.len() == present(self.conversations@, ids_of(self.task_index@, task_id@)).len(),
            forall|i: int| 0 <= i < res@.len() ==> *res@[i] == present(self.conversations@, ids_of(self.task_index@, task_id@))[i],
    {
        let mut out: Vec<&Conversation> = Vec::new();
        let list = match self.task_index.get(task_id) {
            Some(l) => l,
            None => {
                return out;
            },
        };
        let ghost ids = list@;
        let mut i: usize = 0;
        while i < list.ids.len()
            invariant
                ids == list.ids.deep_view(),
                ids == ids_of(self.task_index@, task_id@),
                i <= ids.len(),
                out@.len() == present(self.conversations@, ids.take(i as int)).len(),
                forall|j: int| 0 <= j < out@.len() ==> *out@[j] == present(self.conversations@, ids.take(i as int))[j],
            decreases ids.len() - i,
        {
            assert(ids.take(i + 1).drop_last() =~= ids.take(i as int));
            assert(ids.take(i + 1).last() == list.ids@[i as int]@);
            if let Some(c) = self.conversations.get(list.ids[i].as_str()) {
                out.push(c);
            }
            i = i + 1;
        }
        assert(ids.take(ids.len() as int) =~= ids);
        out
    }

    /// A page of a conversation's messages: from `offset` (0 when absent),
    /// at most `limit` (all when absent); none for an unknown conversation
    /// or an offset past the end.
    pub fn get_messages(&self, conversation_id: &str, limit: Option<usize>, offset: Option<usize>) -> (res: Vec<&ConversationMessage>)
        ensures
            res@.len() == (if self.conversations@.contains_key(conversation_id@) {
                page(self.conversations@[conversation_id@].messages@, limit, offset).len()
            } else {
                0
            }),
            self.conversations@.contains_key(conversation_id@) ==> forall|i: int| 0 <= i < res@.len() ==>
                *res@[i] == page(self.conversations@[conversation_id@].messages@, limit, offset)[i],
    {
        let mut out: Vec<&ConversationMessage> = Vec::new();
        let c = match self.conversations.get(conversation_id) {
            Some(c) => c,
            None => {
                return out;
            },
        };
        let n = c.messages.len();
        let start = match offset {
            Some(o) => o,
            None => 0,
        };
        if start >= n {
            return out;
        }
        let end = match limit {
            Some(l) => if l < n - start { start + l } else { n },
            None => n,
        };
        let mut i = start;
        while i < end
            invariant
                start <= i <= end <= n,
                n == c.messages@.len(),
                out@.len() == i - start,
                forall|j: int| 0 <= j < out@.len() ==> *out@[j] == c.messages@[start + j],
            decreases end - i,
        {
            out.push(&c.messages[i]);
            i = i + 1;
        }
        out
    }

    /// The last `n` messages of a conversation (none for an unknown one).
    pub fn get_last_n_messages(&self, conversation_id: &str, n: usize) -> (res: Vec<&ConversationMessage>)
        ensures
            res@.len() == (if self.conversations@.contains_key(conversation_id@) {
                last_n(self.conversations@[conversation_id@].messages@, n).len()
            } else {
                0
            }),
            self.conversations@.contains_key(conversation_id@) ==> forall|i: int| 0 <= i < res@.len() ==>
                *res@[i] == last_n(self.conversations@[conversation_id@].messages@, n)[i],
    {
        let mut out: Vec<&ConversationMessage> = Vec::new();
        let c = match self.conversations.get(conversation_id) {
            Some(c) => c,
            None => {
                return out;
            },
        };
        if n == 0 {
            return out;
        }
        let len = c.messages.len();
        let start = if len > n { len - n } else { 0 };
        let mut i = start;
        while i < len
            invariant
                start <= i <= len,
                len == c.messages@.len(),
                out@.len() == i - start,
                forall|j: int| 0 <= j < out@.len() ==> *out@[j] == c.messages@[start + j],
            decreases len - i,
        {
            out.push(&c.messages[i]);
            i = i + 1;
        }
        out
    }

    /// The total tokens of a conversation (0 for an unknown one).
    pub fn total_tokens(&self, conversation_id: &str) -> (res: u64)
        ensures
            res == if self.conversations@.contains_key(conversation_id@) { self.conversations@[conversation_id@].total_tokens } else { 0 },
    {
        match self.conversations.get(conversation_id) {
            Some(c) => c.total_tokens,
            None => 0,
        }
    }
}


/// The ids of the conversations last updated before `cutoff`, in order.
pub open spec fn stale_ids(e: Seq<(String, Conversation)>, cutoff: int) -> Seq<Seq<char>>
    decreases e.len(),
{
    if e.len() == 0 {
        seq![]
    } else {
        let rest = stale_ids(e.drop_last(), cutoff);
        if e.last().1.updated_at < cutoff { rest.push(e.last().0@) } else { rest }
    }
}

/// The store's index after conversation `id` of task `task` is dropped: the
/// id leaves the task's list, and an emptied list leaves the index.
pub open spec fn index_without(idx: Map<Seq<char>, Seq<Seq<char>>>, task: Seq<char>, id: Seq<char>) -> Map<Seq<char>, Seq<Seq<char>>> {
    if idx.contains_key(task) {
        let rest = idx[task].filter(|x: Seq<char>| x != id);
        if rest.len() == 0 { idx.remove(task) } else { idx.insert(task, rest) }
    } else {
        idx
    }
}

impl ConversationStore {
    /// The messages whose lower-cased content holds the lower-cased, trimmed
    /// query, with their conversations, conversation by conversation; none
    /// for a blank query.
    pub fn search_messages(&self, query: &str) -> (res: Vec<(&Conversation, &ConversationMessage)>)
        ensures
            ({
                let t = trim(query@);
                let expected = if t.len() == 0 {
                    Seq::<(Conversation, ConversationMessage)>::empty()
                } else {
                    matches_all(entry_values(self.conversations.entries_spec()), lowercase(t))
                };
                &&& res@.len() == expected.len()
                &&& forall|i: int| 0 <= i < res@.len() ==> (*res@[i].0, *res@[i].1) == expected[i]
            }),
    {
        let mut out: Vec<(&Conversation, &ConversationMessage)> = Vec::new();
        let trimmed = str_trim(query);
        if trimmed.as_str().unicode_len() == 0 {
            return out;
        }
        let needle = to_lowercase(trimmed.as_str());
        let entries = self.conversations.entries();
        let ghost cs = entry_values(entries@);
        let mut i: usize = 0;
        while i < entries.len()
            invariant
                cs == entry_values(entries@),
                entries@ == self.conversations.entries_spec(),
                i <= entries@.len(),
                out@.len() == matches_all(cs.take(i as int), needle@).len(),
                forall|j: int| 0 <= j < out@.len() ==> (*out@[j].0, *out@[j].1) == matches_all(cs.take(i as int), needle@)[j],
            decreases entries@.len() - i,
        {
            assert(cs.take(i + 1).drop_last() =~= cs.take(i as int));
            let c = &entries[i].1;
            assert(cs.take(i + 1).last() == *c);
            let ghost before = matches_all(cs.take(i as int), needle@);
            let ghost base = out@.len();
            let mut k: usize = 0;
            while k < c.messages.len()
                invariant
                    k <= c.messages@.len(),
                    base == before.len(),
                    out@.len() == base + matches_in(*c, c.messages@.take(k as int), needle@).len(),
                    forall|j: int| 0 <= j < base ==> (*out@[j].0, *out@[j].1) == before[j],
                    forall|j: int| base <= j < out@.len() ==> (*out@[j].0, *out@[j].1) == matches_in(*c, c.messages@.take(k as int), needle@)[j - base],
                decreases c.messages@.len() - k,
            {
                assert(c.messages@.take(k + 1).drop_last() =~= c.messages@.take(k as int));
                let m = &c.messages[k];
                let lc = to_lowercase(m.content.as_str());
                if str_contains(lc.as_str(), needle.as_str()) {
                    out.push((c, m));
                }
                k = k + 1;
            }
            assert(c.messages@.take(c.messages@.len() as int) =~= c.messages@);
            i = i + 1;
        }
        assert(cs.take(cs.len() as int) =~= cs);
        out
    }

    /// The conversation to export; fails with `NotFound` when there is none.
    pub fn export_target(&self, id: &str) -> (res: Result<&Conversation, ConversationError>)
        ensures
            match res {
                Ok(c) => self.conversations@.contains_key(id@) && *c == self.conversations@[id@],
                Err(e) => !self.conversations@.contains_key(id@) && (e matches ConversationError::NotFound(x) && x@ == id@),
            },
    {
        match self.conversations.get(id) {
            Some(c) => Ok(c),
            None => Err(ConversationError::NotFound(String::from_str(id))),
        }
    }

    /// Adds an imported conversation under its own id and returns the id;
    /// fails with `AlreadyExists` when the store has that id.
    pub fn insert_imported(&mut self, conversation: Conversation) -> (res: Result<String, ConversationError>)
        ensures
            match res {
                Ok(id) => {
                    &&& id@ == conversation.id@
                    &&& !old(self).conversations@.contains_key(id@)
                    &&& final(self).conversations@ == old(self).conversations@.insert(id@, conversation)
                    &&& final(self).task_index@ == old(self).task_index@.insert(conversation.task_id@,
                        ids_of(old(self).task_index@, conversation.task_id@).push(id@))
                },
                Err(e) => {
                    &&& old(self).conversations@.contains_key(conversation.id@)
                    &&& e matches ConversationError::AlreadyExists(x) && x@ == conversation.id@
                    &&& final(self).conversations@ == old(self).conversations@
                    &&& final(self).task_index@ == old(self).task_index@
                },
            },
    {
        if self.conversations.contains_key(conversation.id.as_str()) {
            return Err(ConversationError::AlreadyExists(conversation.id.clone()));
        }
        let id = conversation.id.clone();
        let task = conversation.task_id.clone();
        self.index_push(task.as_str(), id.as_str());
        self.conversations.insert(id.clone(), conversation);
        Ok(id)
    }

    /// Deletes conversation `id` and drops it from its task's list; fails
    /// with `NotFound` when there is no such conversation.
    pub fn delete_conversation(&mut self, id: &str) -> (res: Result<(), ConversationError>)
        ensures
            match res {
                Ok(()) => {
                    &&& old(self).conversations@.contains_key(id@)
                    &&& final(self).conversations@ == old(self).conversations@.remove(id@)
                    &&& final(self).task_index@ == index_without(old(self).task_index@, old(self).conversations@[id@].task_id@, id@)
                },
                Err(e) => {
                    &&& !old(self).conversations@.contains_key(id@)
                    &&& e matches ConversationError::NotFound(x) && x@ == id@
                    &&& final(self).conversations@ == old(self).conversations@
                    &&& final(self).task_index@ == old(self).task_index@
                },
            },
    {
        let c = match self.conversations.remove(id) {
            Some(c) => c,
            None => {
                return Err(ConversationError::NotFound(String::from_str(id)));
            },
        };
        let task = c.task_id.as_str();
        let ghost idx = self.task_index@;
        if let Some(list) = self.task_index.remove(task) {
            let ghost ids = list@;
            let mut kept = IdList { ids: Vec::new() };
            let mut i: usize = 0;
            while i < list.ids.len()
                invariant
                    ids == list.ids.deep_view(),
                    i <= ids.len(),
                    kept@ == ids.take(i as int).filter(|x: Seq<char>| x != id@),
                decreases ids.len() - i,
            {
                assert(ids.take(i + 1).drop_last() =~= ids.take(i as int));
                reveal(Seq::filter);
                if !crate::text::str_eq(list.ids[i].as_str(), id) {
                    let ghost before = kept@;
                    kept.ids.push(list.ids[i].clone());
                    assert(kept@ =~= before.push(list.ids@[i as int]@));
                }
                i = i + 1;
            }
            assert(ids.take(ids.len() as int) =~= ids);
            if kept.ids.len() > 0 {
                self.task_index.insert(String::from_str(task), kept);
            }
            assert(self.task_index@ =~= index_without(idx, task@, id@));
        } else {
            assert(self.task_index@ =~= index_without(idx, task@, id@));
        }
        Ok(())
    }
}


/// The index after the conversations `ids` were deleted in order.
pub open spec fn prune_index(idx: Map<Seq<char>, Seq<Seq<char>>>, convs: Map<Seq<char>, Conversation>, ids: Seq<Seq<char>>) -> Map<Seq<char>, Seq<Seq<char>>>
    decreases ids.len(),
{
    if ids.len() == 0 {
        idx
    } else {
        index_without(prune_index(idx, convs, ids.drop_last()), convs[ids.last()].task_id@, ids.last())
    }
}

proof fn lemma_stale_ids(e: Seq<(String, Conversation)>, cutoff: int)
    requires
        keys_distinct(e),
    ensures
        stale_ids(e, cutoff).no_duplicates(),
        forall|x: Seq<char>| #[trigger] stale_ids(e, cutoff).contains(x) ==> exists|i: int| 0 <= i < e.len() && e[i].0@ == x,
    decreases e.len(),
{
    if e.len() > 0 {
        let d = e.drop_last();
        assert(keys_distinct(d)) by {
            assert forall|a: int, b: int| 0 <= a < b < d.len() implies d[a].0@ != d[b].0@ by {
                assert(d[a] == e[a] && d[b] == e[b]);
            }
        }
        lemma_stale_ids(d, cutoff);
        let r = stale_ids(d, cutoff);
        assert forall|x: Seq<char>| #[trigger] r.contains(x) implies exists|i: int| 0 <= i < e.len() && e[i].0@ == x by {
            let i = choose|i: int| 0 <= i < d.len() && d[i].0@ == x;
            assert(e[i] == d[i]);
        }
        if e.last().1.updated_at < cutoff {
            let k = e.last().0@;
            assert(!r.contains(k)) by {
                if r.contains(k) {
                    let i = choose|i: int| 0 <= i < d.len() && d[i].0@ == k;
                    assert(e[i] == d[i]);
                    assert(e[i].0@ == e[e.len() - 1].0@);
                }
            }
            assert forall|x: Seq<char>| #[trigger] r.push(k).contains(x) implies exists|i: int| 0 <= i < e.len() && e[i].0@ == x by {
                if x != k {
                    assert(r.contains(x)) by {
                        let j = choose|j: int| 0 <= j < r.push(k).len() && r.push(k)[j] == x;
                        assert(r[j] == x);
                    }
                } else {
                    assert(e[e.len() - 1].0@ == x);
                }
            }
            assert(r.push(k).no_duplicates()) by {
                assert forall|a: int, b: int| 0 <= a < b < r.push(k).len() implies r.push(k)[a] != r.push(k)[b] by {
                    if b == r.len() {
                        assert(r.contains(r[a]));
                    }
                }
            }
        }
    }
}

impl ConversationStore {
    /// Deletes the conversations last updated more than `max_age_days`
    /// before `now` and says how many; none when the age does not fit an
    /// `i64`.
    pub fn prune_old_conversations(&mut self, max_age_days: u64, now: i64) -> (res: usize)
        requires
            max_age_days <= i64::MAX ==> max_age_days * 86_400_000 <= i64::MAX && now - max_age_days * 86_400_000_000_000 >= i64::MIN,
        ensures
            max_age_days > i64::MAX ==> res == 0 && final(self).conversations@ == old(self).conversations@
                && final(self).task_index@ == old(self).task_index@,
            max_age_days <= i64::MAX ==> ({
                let stale = stale_ids(old(self).conversations.entries_spec(), now - max_age_days * 86_400_000_000_000);
                &&& res == stale.len()
                &&& final(self).conversations@ == old(self).conversations@.remove_keys(stale.to_set())
                &&& final(self).task_index@ == prune_index(old(self).task_index@, old(self).conversations@, stale)
            }),
    {
        if max_age_days > 9_223_372_036_854_775_807u64 {
            return 0;
        }
        let wide: i128 = now as i128 - (max_age_days as i128) * 86_400_000_000_000i128;
        let cutoff = wide as i64;
        let ghost e = self.conversations.entries_spec();
        let ghost convs0 = self.conversations@;
        let ghost idx0 = self.task_index@;
        let entries = self.conversations.entries();
        proof {
            lemma_entries_map(entries@);
        }
        let mut stale: Vec<String> = Vec::new();
        let mut i: usize = 0;
        while i < entries.len()
            invariant
                e == entries@,
                i <= e.len(),
                stale.deep_view() =~= stale_ids(e.take(i as int), cutoff as int),
            decreases e.len() - i,
        {
            assert(e.take(i + 1).drop_last() =~= e.take(i as int));
            if entries[i].1.updated_at < cutoff {
                let ghost before = stale.deep_view();
                stale.push(entries[i].0.clone());
                assert(stale.deep_view() =~= before.push(entries@[i as int].0@));
            }
            i = i + 1;
        }
        assert(e.take(e.len() as int) =~= e);
        let ghost sd = stale.deep_view();
        proof {
            lemma_stale_ids(e, cutoff as int);
        }
        let mut pruned: usize = 0;
        let mut j: usize = 0;
        assert(convs0.remove_keys(sd.take(0).to_set()) =~= convs0);
        assert(sd.take(0) =~= Seq::<Seq<char>>::empty());
        while j < stale.len()
            invariant
                sd == stale.deep_view(),
                sd.no_duplicates(),
                forall|x: Seq<char>| #[trigger] sd.contains(x) ==> convs0.contains_key(x),
                j <= sd.len(),
                pruned == j,
                self.conversations@ == convs0.remove_keys(sd.take(j as int).to_set()),
                self.task_index@ == prune_index(idx0, convs0, sd.take(j as int)),
            decreases sd.len() - j,
        {
            let id = stale[j].as_str();
            assert(sd[j as int] == id@);
            assert(sd.contains(id@));
            assert(!sd.take(j as int).contains(id@)) by {
                if sd.take(j as int).contains(id@) {
                    let k = choose|k: int| 0 <= k < j && #[trigger] sd.take(j as int)[k] == id@;
                    assert(sd[k] == sd[j as int]);
                }
            }
            assert(self.conversations@.contains_key(id@));
            assert(self.conversations@[id@] == convs0[id@]);
            let r = self.delete_conversation(id);
            assert(r is Ok);
            assert(sd.take(j + 1).drop_last() =~= sd.take(j as int));
            assert(sd.take(j + 1) =~= sd.take(j as int).push(id@));
            assert(sd.take(j + 1).to_set() =~= sd.take(j as int).to_set().insert(id@)) by {
                assert forall|x: Seq<char>| sd.take(j + 1).contains(x) <==> (sd.take(j as int).contains(x) || x == id@) by {
                    if sd.take(j + 1).contains(x) {
                        let k = choose|k: int| 0 <= k < j + 1 && #[trigger] sd.take(j + 1)[k] == x;
                        if k < j {
                            assert(sd.take(j as int)[k] == x);
                        }
                    }
                    if sd.take(j as int).contains(x) {
                        let k = choose|k: int| 0 <= k < j && #[trigger] sd.take(j as int)[k] == x;
                        assert(sd.take(j + 1)[k] == x);
                    }
                    if x == id@ {
                        assert(sd.take(j + 1)[j as int] == x);
                    }
                }
            }
            assert(self.conversations@ =~= convs0.remove_keys(sd.take(j + 1).to_set()));
            pruned = pruned + 1;
            j = j + 1;
        }
        assert(sd.take(sd.len() as int) =~= sd);
        pruned
    }
}


/// A deleted conversation leaves its task's list.
pub proof fn lemma_deleted_leaves_index(idx: Map<Seq<char>, Seq<Seq<char>>>, task: Seq<char>, id: Seq<char>)
    ensures
        !ids_of(index_without(idx, task, id), task).contains(id),
        forall|t: Seq<char>| t != task ==> #[trigger] ids_of(index_without(idx, task, id), t) == ids_of(idx, t),
{
    broadcast use vstd::seq_lib::group_filter_ensures;
    if idx.contains_key(task) {
        let rest = idx[task].filter(|x: Seq<char>| x != id);
        if rest.contains(id) {
            let k = choose|k: int| 0 <= k < rest.len() && rest[k] == id;
            assert((|x: Seq<char>| x != id)(rest[k]));
        }
    }
}

} // verus!
