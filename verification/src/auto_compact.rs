//! Token accounting for a conversation and the summary prompt used to
//! compact it.

use vstd::prelude::*;
use vstd::string::StringSliceAdditionalSpecFns;
use crate::text::{decimal, push_decimal};

verus! {

/// One compaction of the conversation, stamped with a time of type `Ts`
/// (the daemon uses UTC date-times).
#[derive(Debug, Clone)]
pub struct CompactionEvent<Ts> {
    pub timestamp: Ts,
    pub tokens_before: u64,
    pub tokens_after: u64,
    pub messages_compacted: usize,
    pub summary_length: usize,
}

/// Token usage of the current context.
#[derive(Debug, Clone)]
pub struct TokenTracker<Ts> {
    pub total_tokens: u64,
    pub input_tokens: u64,
    pub output_tokens: u64,
    pub message_count: usize,
    pub compaction_history: Vec<CompactionEvent<Ts>>,
}

impl<Ts> TokenTracker<Ts> {
    /// A tracker with nothing recorded.
    pub fn new() -> (res: Self)
        ensures
            res.total_tokens == 0,
            res.input_tokens == 0,
            res.output_tokens == 0,
            res.message_count == 0,
            res.compaction_history@.len() == 0,
    {
        TokenTracker {
            total_tokens: 0,
            input_tokens: 0,
            output_tokens: 0,
            message_count: 0,
            compaction_history: Vec::new(),
        }
    }

    /// Adds one message's input and output tokens.
    pub fn record_usage(&mut self, input: u64, output: u64)
        requires
            old(self).input_tokens + input + old(self).output_tokens + output <= u64::MAX,
            old(self).message_count < usize::MAX,
        ensures
            final(self).input_tokens == old(self).input_tokens + input,
            final(self).output_tokens == old(self).output_tokens + output,
            final(self).total_tokens == final(self).input_tokens + final(self).output_tokens,
            final(self).message_count == old(self).message_count + 1,
            final(self).compaction_history == old(self).compaction_history,
    {
        self.input_tokens = self.input_tokens + input;
        self.output_tokens = self.output_tokens + output;
        self.total_tokens = self.input_tokens + self.output_tokens;
        self.message_count = self.message_count + 1;
    }

    /// Records a compaction made at `timestamp`: the context now holds
    /// `tokens_after` input tokens in one summary message.
    pub fn record_compaction(
        &mut self,
        timestamp: Ts,
        tokens_after: u64,
        messages_compacted: usize,
        summary_length: usize,
    )
        ensures
            final(self).compaction_history@ == old(self).compaction_history@.push(
                CompactionEvent {
                    timestamp,
                    tokens_before: old(self).total_tokens,
                    tokens_after,
                    messages_compacted,
                    summary_length,
                },
            ),
            final(self).total_tokens == tokens_after,
            final(self).input_tokens == tokens_after,
            final(self).output_tokens == 0,
            final(self).message_count == 1,
    {
        let event = CompactionEvent {
            timestamp,
            tokens_before: self.total_tokens,
            tokens_after,
            messages_compacted,
            summary_length,
        };
        self.compaction_history.push(event);
        self.total_tokens = tokens_after;
        self.input_tokens = tokens_after;
        self.output_tokens = 0;
        self.message_count = 1;
    }
}

/// The fixed head of a compaction prompt.
pub open spec fn compaction_header() -> Seq<char> {
    "Summarize the following conversation concisely, preserving:\n- Key decisions made\n- Current task state and progress\n- Important code changes or findings\n- Any unresolved issues\n\nConversation:\n"@
}

/// One numbered line per message, numbered from 1.
pub open spec fn message_lines(messages: Seq<String>) -> Seq<char>
    decreases messages.len(),
{
    if messages.len() == 0 {
        Seq::empty()
    } else {
        message_lines(messages.drop_last()) + "[Message "@ + decimal(messages.len()) + "] "@
            + messages.last()@ + "\n"@
    }
}

/// Builds the prompt that asks for a summary of `messages`, each on a
/// numbered line.
pub fn build_compaction_prompt(messages: &[String]) -> (res: String)
    ensures
        res@ == compaction_header() + message_lines(messages@),
{
    let mut prompt = String::from_str(
        "Summarize the following conversation concisely, preserving:\n- Key decisions made\n- Current task state and progress\n- Important code changes or findings\n- Any unresolved issues\n\nConversation:\n",
    );
    let mut i: usize = 0;
    while i < messages.len()
        invariant
            i <= messages@.len(),
            prompt@ == compaction_header() + message_lines(messages@.take(i as int)),
        decreases messages@.len() - i,
    {
        assert(messages@.take(i + 1).drop_last() =~= messages@.take(i as int));
        prompt.append("[Message ");
        push_decimal(&mut prompt, (i + 1) as u64);
        prompt.append("] ");
        prompt.append(messages[i].as_str());
        prompt.append("\n");
        i = i + 1;
    }
    assert(messages@.take(messages@.len() as int) =~= messages@);
    prompt
}

/// A rough token count: a quarter of the UTF-8 byte length, rounded up.
pub fn estimate_tokens(text: &str) -> (res: u64)
    ensures
        res == (text.spec_bytes().len() + 3) / 4,
{
    let n = text.as_bytes().len();
    let q = n / 4;
    let r = n % 4;
    (if r != 0 { q + 1 } else { q }) as u64
}

} // verus!
