//! The chat format.
//!
//! ```text
//! <|im_start|>system
//! {content}<|im_end|>
//! <|im_start|>user
//! {content}<|im_end|>
//! <|im_start|>assistant
//! ```
//!
//! The trailing open turn is the generation prompt.  A default system message is
//! inserted when the first message is not one.
use crate::text;
use vstd::prelude::*;

verus! {

/// The default system prompt.
pub const DEFAULT_SYSTEM_PROMPT: &'static str =
    "You are Qwen, created by Alibaba Cloud. You are a helpful assistant.";

#[derive(Debug, Clone, Copy, PartialEq, Eq)]
pub struct ChatMessage<'m> {
    pub role: &'m str,
    pub content: &'m str,
}

impl<'m> ChatMessage<'m> {
    pub fn system(content: &'m str) -> (r: Self)
        ensures
            r.role@ == "system"@,
            r.content@ == content@,
    {
        ChatMessage { role: "system", content }
    }

    pub fn user(content: &'m str) -> (r: Self)
        ensures
            r.role@ == "user"@,
            r.content@ == content@,
    {
        ChatMessage { role: "user", content }
    }

    pub fn assistant(content: &'m str) -> (r: Self)
        ensures
            r.role@ == "assistant"@,
            r.content@ == content@,
    {
        ChatMessage { role: "assistant", content }
    }
}

/// One closed turn.
pub open spec fn turn(role: Seq<char>, content: Seq<char>) -> Seq<char> {
    "<|im_start|>"@ + role + "\n"@ + content + "<|im_end|>\n"@
}

/// The first message is a system message.
pub open spec fn first_is_system(messages: Seq<ChatMessage>) -> bool {
    messages.len() > 0 && messages[0].role@ == "system"@
}

/// The system turn that a conversation starts with.
pub open spec fn header(messages: Seq<ChatMessage>) -> Seq<char> {
    if first_is_system(messages) {
        turn("system"@, messages[0].content@)
    } else {
        turn("system"@, DEFAULT_SYSTEM_PROMPT@)
    }
}

/// The turn of a message; roles other than these three have none.
pub open spec fn message_turn(m: ChatMessage) -> Seq<char> {
    if m.role@ == "user"@ || m.role@ == "assistant"@ || m.role@ == "system"@ {
        turn(m.role@, m.content@)
    } else {
        Seq::empty()
    }
}

/// The turns of the first `n` messages, without a system message that stands first.
pub open spec fn turns(messages: Seq<ChatMessage>, n: nat) -> Seq<char>
    decreases n,
{
    if n == 0 {
        Seq::empty()
    } else if n == 1 && first_is_system(messages) {
        Seq::empty()
    } else {
        turns(messages, (n - 1) as nat) + message_turn(messages[n - 1])
    }
}

/// A conversation in the chat format.
pub open spec fn rendered(messages: Seq<ChatMessage>, add_generation_prompt: bool) -> Seq<char> {
    header(messages) + turns(messages, messages.len()) + (if add_generation_prompt {
        "<|im_start|>assistant\n"@
    } else {
        Seq::empty()
    })
}

/// Render messages into the chat format.
///
/// Only the first message decides about the header: a system message there becomes
/// it, anything else means that the default header is inserted.  A later system
/// message is emitted where it stands.
pub fn apply_chat_template(messages: &[ChatMessage<'_>], add_generation_prompt: bool) -> (out:
    String)
    ensures
        out@ == rendered(messages@, add_generation_prompt),
{
    let mut out = String::new();
    let system_first = messages.len() > 0 && text::str_eq(messages[0].role, "system");
    let first = if system_first {
        messages[0].content
    } else {
        DEFAULT_SYSTEM_PROMPT
    };
    push_turn(&mut out, "system", first);
    assert(out@ =~= header(messages@));
    let ghost head = out@;
    let mut i: usize = 0;
    assert(out@ =~= head + turns(messages@, 0));
    while i < messages.len()
        invariant
            i <= messages@.len(),
            system_first == first_is_system(messages@),
            head == header(messages@),
            out@ == head + turns(messages@, i as nat),
        decreases messages.len() - i,
    {
        let ghost before = out@;
        let m = messages[i];
        if !(i == 0 && system_first) {
            if text::str_eq(m.role, "user") || text::str_eq(m.role, "assistant") || text::str_eq(
                m.role,
                "system",
            ) {
                push_turn(&mut out, m.role, m.content);
            }
            assert(out@ =~= before + message_turn(m));
            assert(out@ =~= head + (turns(messages@, i as nat) + message_turn(m)));
        }
        i += 1;
        assert(out@ =~= head + turns(messages@, i as nat));
    }
    if add_generation_prompt {
        out.push_str("<|im_start|>assistant\n");
    }
    assert(out@ =~= rendered(messages@, add_generation_prompt));
    out
}

/// The prompt that opens a turn of the assistant, where it is asked for.
spec fn prompt(add_generation_prompt: bool) -> Seq<char> {
    if add_generation_prompt {
        "<|im_start|>assistant\n"@
    } else {
        Seq::empty()
    }
}

proof fn lemma_turns_of_more(messages: Seq<ChatMessage>, m: ChatMessage, n: nat)
    requires
        0 < messages.len(),
        n <= messages.len(),
    ensures
        turns(messages.push(m), n) == turns(messages, n),
    decreases n,
{
    if n > 0 {
        lemma_turns_of_more(messages, m, (n - 1) as nat);
        assert(messages.push(m)[n - 1] == messages[n - 1]);
        assert(messages.push(m)[0] == messages[0]);
    }
}

/// One more message behind a conversation is its closed turn behind the conversation's text,
/// whatever the conversation starts with; a message of another role than the three adds
/// nothing.
pub proof fn law_a_message_adds_its_turn(
    messages: Seq<ChatMessage>,
    m: ChatMessage,
    add_generation_prompt: bool,
)
    requires
        messages.len() > 0,
    ensures
        rendered(messages.push(m), add_generation_prompt) == rendered(messages, false) + (if m.role@
            == "user"@ || m.role@ == "assistant"@ || m.role@ == "system"@ {
            "<|im_start|>"@ + m.role@ + "\n"@ + m.content@ + "<|im_end|>\n"@
        } else {
            Seq::empty()
        }) + (if add_generation_prompt {
            "<|im_start|>assistant\n"@
        } else {
            Seq::empty()
        }),
{
    let more = messages.push(m);
    lemma_turns_of_more(messages, m, messages.len());
    assert(more[0] == messages[0]);
    assert(header(more) == header(messages));
    assert(turns(more, more.len()) == turns(messages, messages.len()) + message_turn(m));
    assert(rendered(messages, false) =~= header(messages) + turns(messages, messages.len()));
    assert(rendered(more, add_generation_prompt) =~= rendered(messages, false) + message_turn(m)
        + prompt(add_generation_prompt));
}

/// A conversation starts with a system turn: the first message where it is one, the default
/// otherwise, with the turn of the first message behind it.
pub proof fn law_a_conversation_starts_with_a_system_turn(
    m: ChatMessage,
    add_generation_prompt: bool,
)
    ensures
        rendered(seq![m], add_generation_prompt) == (if m.role@ == "system"@ {
            "<|im_start|>"@ + "system"@ + "\n"@ + m.content@ + "<|im_end|>\n"@
        } else {
            "<|im_start|>"@ + "system"@ + "\n"@ + DEFAULT_SYSTEM_PROMPT@ + "<|im_end|>\n"@ + (
            if m.role@ == "user"@ || m.role@ == "assistant"@ {
                "<|im_start|>"@ + m.role@ + "\n"@ + m.content@ + "<|im_end|>\n"@
            } else {
                Seq::empty()
            })
        }) + (if add_generation_prompt {
            "<|im_start|>assistant\n"@
        } else {
            Seq::empty()
        }),
        rendered(Seq::empty(), add_generation_prompt) == "<|im_start|>"@ + "system"@ + "\n"@
            + "You are Qwen, created by Alibaba Cloud. You are a helpful assistant."@
            + "<|im_end|>\n"@ + (if add_generation_prompt {
            "<|im_start|>assistant\n"@
        } else {
            Seq::empty()
        }),
{
    let one = seq![m];
    reveal_with_fuel(turns, 2);
    let head = header(one);
    if m.role@ == "system"@ {
        assert(turns(one, 1) =~= Seq::empty());
        assert(head + turns(one, 1) =~= head);
    } else {
        assert(turns(one, 1) =~= message_turn(m));
    }
    let none = Seq::<ChatMessage>::empty();
    assert(header(none) + turns(none, 0) =~= header(none));
}

/// Append one closed turn.
fn push_turn(out: &mut String, role: &str, content: &str)
    ensures
        final(out)@ == old(out)@ + turn(role@, content@),
{
    let ghost start = out@;
    out.push_str("<|im_start|>");
    out.push_str(role);
    out.push_str("\n");
    out.push_str(content);
    out.push_str("<|im_end|>\n");
    assert(out@ =~= start + turn(role@, content@));
}

} // verus!
