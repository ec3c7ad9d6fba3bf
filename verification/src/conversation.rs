//! The messages of a conversation and the tools offered with it.

use vstd::prelude::*;

verus! {

/// Who a message comes from.
#[derive(Debug, Clone, Copy, PartialEq, Eq, Structural)]
pub enum Role {
    User,
    Assistant,
}

/// A call of a tool.
#[derive(Debug)]
pub struct ToolCall {
    pub name: String,
    pub arguments: Option<serde_json::Map<String, serde_json::Value>>,
}

/// A call that the model asked for, or why it could not be read.
#[derive(Debug)]
pub struct ToolRequest {
    pub id: String,
    pub tool_call: Result<ToolCall, String>,
}

/// One part of a message.
#[derive(Debug)]
pub enum MessageContent {
    Text(String),
    ToolRequest(ToolRequest),
    /// The text that the tool answered with, if any.
    ToolResponse(Option<String>),
    /// A part without text, such as an image.
    Other,
}

impl MessageContent {
    /// The text of a text part.
    pub fn as_text(&self) -> (res: Option<&str>)
        ensures
            match *self {
                MessageContent::Text(text) => res is Some && res->0@ == text@,
                _ => res is None,
            },
    {
        match self {
            MessageContent::Text(text) => Some(text.as_str()),
            _ => None,
        }
    }

    /// The request of a tool request part.
    pub fn as_tool_request(&self) -> (res: Option<&ToolRequest>)
        ensures
            match *self {
                MessageContent::ToolRequest(request) => res == Some(&request),
                _ => res is None,
            },
    {
        match self {
            MessageContent::ToolRequest(request) => Some(request),
            _ => None,
        }
    }

    /// The text of a tool response part that has one.
    pub fn as_tool_response_text(&self) -> (res: Option<String>)
        ensures
            match *self {
                MessageContent::ToolResponse(Some(text)) => res is Some && res->0@ == text@,
                _ => res is None,
            },
    {
        match self {
            MessageContent::ToolResponse(Some(text)) => Some(text.clone()),
            _ => None,
        }
    }
}

/// Who gets to see a message.
#[derive(Debug, Clone, Copy, PartialEq, Eq, Structural)]
pub struct MessageMetadata {
    pub agent_visible: bool,
}

/// A message of a conversation.
#[derive(Debug)]
pub struct Message {
    pub role: Role,
    pub content: Vec<MessageContent>,
    pub metadata: MessageMetadata,
}

/// The texts of the text parts, joined.
pub open spec fn concat_text(content: Seq<MessageContent>) -> Seq<char>
    decreases content.len(),
{
    if content.len() == 0 {
        Seq::empty()
    } else {
        let front = concat_text(content.drop_last());
        match content.last() {
            MessageContent::Text(text) => front + text@,
            _ => front,
        }
    }
}

/// A text part adds its text to the joined texts; any other part adds nothing.
pub proof fn one_part_more(content: Seq<MessageContent>, part: MessageContent)
    ensures
        concat_text(Seq::empty()).len() == 0,
        part is Text ==> concat_text(content.push(part)) == concat_text(content) + part->Text_0@,
        !(part is Text) ==> concat_text(content.push(part)) == concat_text(content),
{
    assert(content.push(part).drop_last() =~= content);
}

impl Message {
    /// A message of the user without content, which the agent sees.
    pub fn user() -> (res: Message)
        ensures
            res.role == Role::User,
            res.content@.len() == 0,
            res.metadata.agent_visible,
    {
        Message {
            role: Role::User,
            content: Vec::new(),
            metadata: MessageMetadata { agent_visible: true },
        }
    }

    /// A message of the assistant without content, which the agent sees.
    pub fn assistant() -> (res: Message)
        ensures
            res.role == Role::Assistant,
            res.content@.len() == 0,
            res.metadata.agent_visible,
    {
        Message {
            role: Role::Assistant,
            content: Vec::new(),
            metadata: MessageMetadata { agent_visible: true },
        }
    }

    /// The message with one more part, a text.
    pub fn with_text(self, text: &str) -> (res: Message)
        ensures
            res.role == self.role,
            res.metadata == self.metadata,
            res.content@.len() == self.content@.len() + 1,
            res.content@.drop_last() == self.content@,
            res.content@.last() matches MessageContent::Text(t) && t@ == text@,
    {
        let mut content = self.content;
        content.push(MessageContent::Text(text.to_owned()));
        assert(content@.drop_last() =~= self.content@);
        Message { role: self.role, content, metadata: self.metadata }
    }

    /// The texts of the text parts, joined.
    pub fn as_concat_text(&self) -> (res: String)
        ensures
            res@ == concat_text(self.content@),
    {
        let mut text = String::new();
        let mut i: usize = 0;
        while i < self.content.len()
            invariant
                i <= self.content@.len(),
                text@ == concat_text(self.content@.take(i as int)),
            decreases self.content@.len() - i,
        {
            assert(self.content@.take(i + 1).drop_last() =~= self.content@.take(i as int));
            if let Some(part) = self.content[i].as_text() {
                text.append(part);
            }
            i += 1;
        }
        assert(self.content@.take(i as int) =~= self.content@);
        text
    }
}

/// A tool that the model may call: its name, what it is for, and the JSON schema
/// of its input.
#[derive(Debug)]
pub struct Tool {
    pub name: String,
    pub description: Option<String>,
    pub input_schema: serde_json::Map<String, serde_json::Value>,
}

} // verus!
