//! What a request is made of, as far as tokens go: the texts whose tokens count,
//! in order, and the tokens that its frame adds to theirs.

use vstd::prelude::*;

use crate::conversation::{Message, MessageContent, Tool, ToolRequest};
use crate::json::{
    array_member, get_array, get_text, json_object, json_value, keys_in_order, member, members,
    no_members, object_debug, object_debug_text, object_get, sorted_keys, text_member,
    value_as_object, value_as_str, Json,
};
use crate::text::{
    texts_of, trailing_run_is_dropped, trim_trailing, with_trailing, without_trailing,
};

verus! {

/// Tokens that open a tool.
pub const FUNC_INIT: usize = 7;

/// Tokens that open the properties of a tool.
pub const PROP_INIT: usize = 3;

/// Tokens for each property.
pub const PROP_KEY: usize = 3;

/// Tokens that a list of allowed values adds, which is less than none.
pub const ENUM_INIT: isize = -3;

/// Tokens for each allowed value.
pub const ENUM_ITEM: usize = 3;

/// Tokens that close the list of tools.
pub const FUNC_END: usize = 12;

/// Tokens for each message, the system prompt included.
pub const TOKENS_PER_MESSAGE: usize = 4;

/// Tokens that open the reply.
pub const REPLY_PRIMER: usize = 3;

/// A number, where the machine can hold it.
pub open spec fn held(n: int) -> Option<usize> {
    if 0 <= n <= usize::MAX {
        Some(n as usize)
    } else {
        None
    }
}

/// A sum that grew by `n`.
pub open spec fn grown(sum: Option<usize>, n: int) -> Option<usize> {
    match sum {
        Some(s) => held(s + n),
        None => None,
    }
}

proof fn grown_twice(sum: Option<usize>, a: int, b: int)
    requires
        0 <= a,
        0 <= b,
    ensures
        grown(grown(sum, a), b) == grown(sum, a + b),
{
}

/// The texts among the items of an array.
pub open spec fn texts_in(items: Seq<Json>) -> Seq<Seq<char>>
    decreases items.len(),
{
    if items.len() == 0 {
        Seq::empty()
    } else {
        let front = texts_in(items.drop_last());
        match items.last() {
            Json::Text(text) => front.push(text),
            _ => front,
        }
    }
}

/// The text under a key, empty where there is none.
pub open spec fn text_or_empty(object: Map<Seq<char>, Json>, key: Seq<char>) -> Seq<char> {
    match text_member(object, key) {
        Some(text) => text,
        None => Seq::empty(),
    }
}

/// The line of a property: its name, its type and its description without the
/// full stops at the end.
pub open spec fn property_line(name: Seq<char>, schema: Json) -> Seq<char> {
    name + seq![':'] + text_or_empty(members(schema), "type"@) + seq![':'] + without_trailing(
        text_or_empty(members(schema), "description"@),
        '.',
    )
}

/// The texts of a property: its line, then the values that it allows.
pub open spec fn property_texts(name: Seq<char>, schema: Json) -> Seq<Seq<char>> {
    seq![property_line(name, schema)] + match array_member(members(schema), "enum"@) {
        Some(items) => texts_in(items),
        None => Seq::empty(),
    }
}

/// The tokens that a property adds to those of its texts.
pub open spec fn property_overhead(schema: Json) -> int {
    PROP_KEY + match array_member(members(schema), "enum"@) {
        Some(items) => ENUM_INIT + ENUM_ITEM * texts_in(items).len(),
        None => 0,
    }
}

/// The schema of the property under a key.
pub open spec fn property_schema(properties: Map<Seq<char>, Json>, key: Seq<char>) -> Json {
    match member(properties, key) {
        Some(schema) => schema,
        None => Json::Null,
    }
}

/// The texts of the properties under some keys.
pub open spec fn properties_texts(properties: Map<Seq<char>, Json>, keys: Seq<Seq<char>>) -> Seq<Seq<char>>
    decreases keys.len(),
{
    if keys.len() == 0 {
        Seq::empty()
    } else {
        properties_texts(properties, keys.drop_last()) + property_texts(
            keys.last(),
            property_schema(properties, keys.last()),
        )
    }
}

/// The tokens that the properties under some keys add to those of their texts.
pub open spec fn properties_overhead(properties: Map<Seq<char>, Json>, keys: Seq<Seq<char>>) -> int
    decreases keys.len(),
{
    if keys.len() == 0 {
        0
    } else {
        properties_overhead(properties, keys.drop_last()) + property_overhead(
            property_schema(properties, keys.last()),
        )
    }
}

/// The properties that the input of a tool has.
pub open spec fn tool_properties(tool: Tool) -> Map<Seq<char>, Json> {
    match member(json_object(tool.input_schema), "properties"@) {
        Some(Json::Object(properties)) => properties,
        _ => no_members(),
    }
}

/// The description of a tool, empty where there is none.
pub open spec fn tool_description(tool: Tool) -> Seq<char> {
    match tool.description {
        Some(description) => description@,
        None => Seq::empty(),
    }
}

/// The line of a tool: its name and its description without the full stops at
/// the end.
pub open spec fn tool_line(tool: Tool) -> Seq<char> {
    tool.name@ + seq![':'] + without_trailing(tool_description(tool), '.')
}

/// The texts of a tool: its line, then its properties in the order of their
/// names.
pub open spec fn tool_texts(tool: Tool) -> Seq<Seq<char>> {
    seq![tool_line(tool)] + properties_texts(
        tool_properties(tool),
        sorted_keys(tool_properties(tool)),
    )
}

/// The tokens that a tool adds to those of its texts.
pub open spec fn tool_overhead(tool: Tool) -> int {
    let keys = sorted_keys(tool_properties(tool));
    FUNC_INIT + if keys.len() > 0 {
        PROP_INIT + properties_overhead(tool_properties(tool), keys)
    } else {
        0
    }
}

/// The texts of tools, one tool after another.
pub open spec fn tools_texts(tools: Seq<Tool>) -> Seq<Seq<char>>
    decreases tools.len(),
{
    if tools.len() == 0 {
        Seq::empty()
    } else {
        tools_texts(tools.drop_last()) + tool_texts(tools.last())
    }
}

/// The tokens that tools add to those of their texts, before the list is closed.
pub open spec fn open_tools_overhead(tools: Seq<Tool>) -> int
    decreases tools.len(),
{
    if tools.len() == 0 {
        0
    } else {
        open_tools_overhead(tools.drop_last()) + tool_overhead(tools.last())
    }
}

/// The tokens that tools add to those of their texts: none without a tool.
pub open spec fn tools_overhead(tools: Seq<Tool>) -> int {
    if tools.len() == 0 {
        0
    } else {
        open_tools_overhead(tools) + FUNC_END
    }
}

/// The line of a tool request: its id, the name of the tool and its arguments;
/// none for a call that could not be read.
pub open spec fn tool_request_line(request: ToolRequest) -> Option<Seq<char>> {
    match request.tool_call {
        Ok(call) => Some(
            request.id@ + seq![':'] + call.name@ + seq![':'] + object_debug_text(
                match call.arguments {
                    Some(arguments) => Some(json_object(arguments)),
                    None => None,
                },
            ),
        ),
        Err(_) => None,
    }
}

/// The text of one part of a message, if it has one.
pub open spec fn content_text(content: MessageContent) -> Option<Seq<char>> {
    match content {
        MessageContent::Text(text) => Some(text@),
        MessageContent::ToolRequest(request) => tool_request_line(request),
        MessageContent::ToolResponse(Some(text)) => Some(text@),
        MessageContent::ToolResponse(None) => None,
        MessageContent::Other => None,
    }
}

/// The texts of the parts of a message.
pub open spec fn contents_texts(contents: Seq<MessageContent>) -> Seq<Seq<char>>
    decreases contents.len(),
{
    if contents.len() == 0 {
        Seq::empty()
    } else {
        let front = contents_texts(contents.drop_last());
        match content_text(contents.last()) {
            Some(text) => front.push(text),
            None => front,
        }
    }
}

/// The texts of the messages that the agent sees.
pub open spec fn messages_texts(messages: Seq<Message>) -> Seq<Seq<char>>
    decreases messages.len(),
{
    if messages.len() == 0 {
        Seq::empty()
    } else {
        let front = messages_texts(messages.drop_last());
        if messages.last().metadata.agent_visible {
            front + contents_texts(messages.last().content@)
        } else {
            front
        }
    }
}

/// The tokens that the messages that the agent sees add to those of their texts.
pub open spec fn messages_overhead(messages: Seq<Message>) -> int
    decreases messages.len(),
{
    if messages.len() == 0 {
        0
    } else {
        let front = messages_overhead(messages.drop_last());
        if messages.last().metadata.agent_visible {
            front + TOKENS_PER_MESSAGE
        } else {
            front
        }
    }
}

/// The texts of a chat: the system prompt unless it is empty, the messages, the
/// tools.
pub open spec fn chat_texts(system_prompt: Seq<char>, messages: Seq<Message>, tools: Seq<Tool>) -> Seq<Seq<char>> {
    (if system_prompt.len() > 0 {
        seq![system_prompt]
    } else {
        Seq::empty()
    }) + messages_texts(messages) + tools_texts(tools)
}

/// The tokens that a chat adds to those of its texts.
pub open spec fn chat_overhead(system_prompt: Seq<char>, messages: Seq<Message>, tools: Seq<Tool>) -> int {
    (if system_prompt.len() > 0 {
        TOKENS_PER_MESSAGE as int
    } else {
        0
    }) + messages_overhead(messages) + tools_overhead(tools) + REPLY_PRIMER
}

/// The texts of a chat and of the resources that come with it.
pub open spec fn everything_texts(
    system_prompt: Seq<char>,
    messages: Seq<Message>,
    tools: Seq<Tool>,
    resources: Seq<String>,
) -> Seq<Seq<char>> {
    chat_texts(system_prompt, messages, tools) + texts_of(resources)
}

proof fn no_members_no_keys()
    ensures
        sorted_keys(no_members()).len() == 0,
{
    let none = Seq::<Seq<char>>::empty();
    assert(none.to_set() =~= no_members().dom());
    assert(crate::text::texts_ascending(none) && none.to_set() == no_members().dom());
    let keys = sorted_keys(no_members());
    if keys.len() > 0 {
        assert(keys.to_set().contains(keys[0]));
    }
}

/// A property takes nothing away from the sum.
pub proof fn property_overhead_nonnegative(schema: Json)
    ensures
        0 <= property_overhead(schema),
{
}

/// Properties take nothing away from the sum.
pub proof fn properties_overhead_nonnegative(properties: Map<Seq<char>, Json>, keys: Seq<Seq<char>>)
    ensures
        0 <= properties_overhead(properties, keys),
    decreases keys.len(),
{
    if keys.len() > 0 {
        properties_overhead_nonnegative(properties, keys.drop_last());
        property_overhead_nonnegative(property_schema(properties, keys.last()));
    }
}

/// A tool adds at least what opens it.
pub proof fn tool_overhead_positive(tool: Tool)
    ensures
        FUNC_INIT <= tool_overhead(tool),
{
    properties_overhead_nonnegative(tool_properties(tool), sorted_keys(tool_properties(tool)));
}

/// Tools take nothing away from the sum.
pub proof fn tools_overhead_nonnegative(tools: Seq<Tool>)
    ensures
        0 <= open_tools_overhead(tools) <= tools_overhead(tools),
    decreases tools.len(),
{
    if tools.len() > 0 {
        tools_overhead_nonnegative(tools.drop_last());
        tool_overhead_positive(tools.last());
    }
}

/// Messages take nothing away from the sum.
pub proof fn messages_overhead_nonnegative(messages: Seq<Message>)
    ensures
        0 <= messages_overhead(messages),
    decreases messages.len(),
{
    if messages.len() > 0 {
        messages_overhead_nonnegative(messages.drop_last());
    }
}

/// A chat adds at least what opens the reply.
pub proof fn chat_overhead_nonnegative(system_prompt: Seq<char>, messages: Seq<Message>, tools: Seq<Tool>)
    ensures
        REPLY_PRIMER <= chat_overhead(system_prompt, messages, tools),
{
    messages_overhead_nonnegative(messages);
    tools_overhead_nonnegative(tools);
}

/// A message that the agent does not see counts for nothing, wherever it stands.
pub proof fn hidden_message_counts_for_nothing(before: Seq<Message>, message: Message, after: Seq<Message>)
    requires
        !message.metadata.agent_visible,
    ensures
        messages_texts(before.push(message) + after) == messages_texts(before + after),
        messages_overhead(before.push(message) + after) == messages_overhead(before + after),
    decreases after.len(),
{
    let with = before.push(message) + after;
    let without = before + after;
    if after.len() == 0 {
        assert(with =~= before.push(message));
        assert(with.drop_last() =~= before);
        assert(without =~= before);
    } else {
        assert(with.drop_last() =~= before.push(message) + after.drop_last());
        assert(without.drop_last() =~= before + after.drop_last());
        assert(with.last() == without.last());
        hidden_message_counts_for_nothing(before, message, after.drop_last());
    }
}

/// The texts of tools are those of the first ones, then those of the rest; the
/// list is closed once.
pub proof fn tools_add_up(first: Seq<Tool>, second: Seq<Tool>)
    ensures
        tools_texts(first + second) == tools_texts(first) + tools_texts(second),
        open_tools_overhead(first + second) == open_tools_overhead(first) + open_tools_overhead(
            second,
        ),
        first.len() > 0 && second.len() > 0 ==> tools_overhead(first + second) + FUNC_END
            == tools_overhead(first) + tools_overhead(second),
    decreases second.len(),
{
    let all = first + second;
    if second.len() == 0 {
        assert(all =~= first);
        assert(tools_texts(first) + tools_texts(second) =~= tools_texts(first));
    } else {
        assert(all.drop_last() =~= first + second.drop_last());
        assert(all.last() == second.last());
        tools_add_up(first, second.drop_last());
        assert(tools_texts(all) =~= tools_texts(first) + tools_texts(second));
    }
}

/// The texts of messages are those of the first ones, then those of the rest, and
/// so are the tokens that they add.
pub proof fn messages_add_up(first: Seq<Message>, second: Seq<Message>)
    ensures
        messages_texts(first + second) == messages_texts(first) + messages_texts(second),
        messages_overhead(first + second) == messages_overhead(first) + messages_overhead(second),
    decreases second.len(),
{
    let all = first + second;
    if second.len() == 0 {
        assert(all =~= first);
        assert(messages_texts(first) + messages_texts(second) =~= messages_texts(first));
    } else {
        assert(all.drop_last() =~= first + second.drop_last());
        assert(all.last() == second.last());
        messages_add_up(first, second.drop_last());
        assert(messages_texts(all) =~= messages_texts(first) + messages_texts(second));
    }
}

/// Whether two texts differ in the full stops at their ends alone.
pub open spec fn same_but_for_full_stops(a: Seq<char>, b: Seq<char>) -> bool {
    exists|m: nat, n: nat| #[trigger] with_trailing(a, '.', m) == #[trigger] with_trailing(b, '.', n)
}

proof fn full_stops_do_not_matter(a: Seq<char>, b: Seq<char>)
    requires
        same_but_for_full_stops(a, b),
    ensures
        without_trailing(a, '.') == without_trailing(b, '.'),
{
    let (m, n) = choose|m: nat, n: nat|
        #[trigger] with_trailing(a, '.', m) == #[trigger] with_trailing(b, '.', n);
    trailing_run_is_dropped(a, '.', m);
    trailing_run_is_dropped(b, '.', n);
}

/// An allowed value that is no text does not matter, wherever it stands.
pub proof fn value_without_text_counts_for_nothing(before: Seq<Json>, item: Json, after: Seq<Json>)
    requires
        !(item is Text),
    ensures
        texts_in(before.push(item) + after) == texts_in(before + after),
    decreases after.len(),
{
    let with = before.push(item) + after;
    let without = before + after;
    if after.len() == 0 {
        assert(with =~= before.push(item));
        assert(with.drop_last() =~= before);
        assert(without =~= before);
    } else {
        assert(with.drop_last() =~= before.push(item) + after.drop_last());
        assert(without.drop_last() =~= before + after.drop_last());
        assert(with.last() == without.last());
        value_without_text_counts_for_nothing(before, item, after.drop_last());
    }
}

/// Whether two properties count the same: they have the same type, the same
/// description but for full stops at the end, and the same texts among the values
/// that they allow, if they list any.
pub open spec fn properties_alike(a: Json, b: Json) -> bool {
    &&& text_or_empty(members(a), "type"@) == text_or_empty(members(b), "type"@)
    &&& same_but_for_full_stops(
        text_or_empty(members(a), "description"@),
        text_or_empty(members(b), "description"@),
    )
    &&& match (array_member(members(a), "enum"@), array_member(members(b), "enum"@)) {
        (Some(x), Some(y)) => texts_in(x) == texts_in(y),
        (None, None) => true,
        _ => false,
    }
}

/// Whether two tools count the same: they have the same name, the same description
/// but for full stops at the end, where none is as good as an empty one, and
/// properties of the same names that count the same.
pub open spec fn tools_alike(a: Tool, b: Tool) -> bool {
    &&& a.name@ == b.name@
    &&& same_but_for_full_stops(tool_description(a), tool_description(b))
    &&& tool_properties(a).dom() == tool_properties(b).dom()
    &&& forall|key: Seq<char>| #[trigger]
        tool_properties(a).dom().contains(key) ==> properties_alike(
            tool_properties(a)[key],
            tool_properties(b)[key],
        )
}

/// A tool without properties has none, be they absent, no object or an empty one.
pub proof fn absent_properties_are_none(tool: Tool)
    requires
        member(json_object(tool.input_schema), "properties"@) matches Some(Json::Object(properties))
            ==> properties.dom() == Set::<Seq<char>>::empty(),
    ensures
        tool_properties(tool) == no_members(),
{
    assert(tool_properties(tool) =~= no_members());
}

proof fn alike_properties_count_the_same(
    a: Map<Seq<char>, Json>,
    b: Map<Seq<char>, Json>,
    keys: Seq<Seq<char>>,
)
    requires
        a.dom() == b.dom(),
        forall|key: Seq<char>| #[trigger]
            a.dom().contains(key) ==> properties_alike(a[key], b[key]),
    ensures
        properties_texts(a, keys) == properties_texts(b, keys),
        properties_overhead(a, keys) == properties_overhead(b, keys),
    decreases keys.len(),
{
    if keys.len() > 0 {
        let key = keys.last();
        alike_properties_count_the_same(a, b, keys.drop_last());
        if a.dom().contains(key) {
            full_stops_do_not_matter(
                text_or_empty(members(a[key]), "description"@),
                text_or_empty(members(b[key]), "description"@),
            );
            assert(property_texts(key, a[key]) =~= property_texts(key, b[key]));
        }
    }
}

/// Tools that count the same, one by one, have the same texts and add the same
/// tokens to them.
pub proof fn alike_tools_count_the_same(a: Seq<Tool>, b: Seq<Tool>)
    requires
        a.len() == b.len(),
        forall|i: int| 0 <= i < a.len() ==> tools_alike(#[trigger] a[i], b[i]),
    ensures
        tools_texts(a) == tools_texts(b),
        open_tools_overhead(a) == open_tools_overhead(b),
        tools_overhead(a) == tools_overhead(b),
    decreases a.len(),
{
    if a.len() > 0 {
        let x = a.last();
        let y = b.last();
        assert(tools_alike(a[a.len() - 1], b[a.len() - 1]));
        full_stops_do_not_matter(tool_description(x), tool_description(y));
        alike_properties_count_the_same(
            tool_properties(x),
            tool_properties(y),
            sorted_keys(tool_properties(x)),
        );
        assert forall|i: int| 0 <= i < a.drop_last().len() implies tools_alike(
            #[trigger] a.drop_last()[i],
            b.drop_last()[i],
        ) by {
            assert(tools_alike(a[i], b[i]));
        }
        alike_tools_count_the_same(a.drop_last(), b.drop_last());
    }
}

/// The texts of a request and the tokens of its frame, as far as they were
/// gathered.
pub struct Parts {
    pub texts: Vec<String>,
    /// `None` once the machine cannot hold the sum.
    pub overhead: Option<usize>,
}

impl Parts {
    /// The texts gathered.
    pub open spec fn spec_texts(self) -> Seq<Seq<char>> {
        texts_of(self.texts@)
    }

    /// The parts with more texts and more tokens of the frame.
    pub open spec fn extended(self, texts: Seq<Seq<char>>, overhead: int, res: Self) -> bool {
        &&& res.spec_texts() == self.spec_texts() + texts
        &&& res.overhead == grown(self.overhead, overhead)
    }

    /// Nothing gathered yet.
    pub fn new() -> (res: Self)
        ensures
            res.spec_texts() == Seq::<Seq<char>>::empty(),
            res.overhead == Some(0usize),
    {
        let res = Parts { texts: Vec::new(), overhead: Some(0) };
        assert(res.spec_texts() =~= Seq::<Seq<char>>::empty());
        res
    }

    /// Gathers one text.
    fn add_text(&mut self, text: String)
        ensures
            old(self).extended(seq![text@], 0, *final(self)),
    {
        let ghost before = self.spec_texts();
        self.texts.push(text);
        assert(self.spec_texts() =~= before + seq![text@]);
    }

    /// Adds tokens of the frame.
    fn add_overhead(&mut self, n: usize)
        ensures
            old(self).extended(Seq::empty(), n as int, *final(self)),
    {
        let ghost before = self.spec_texts();
        self.overhead = match self.overhead {
            Some(sum) => sum.checked_add(n),
            None => None,
        };
        assert(self.spec_texts() =~= before + Seq::<Seq<char>>::empty());
    }

    /// Gathers the texts among allowed values.
    fn add_texts_in(&mut self, items: &Vec<serde_json::Value>)
        ensures
            old(self).extended(
                texts_in(items@.map_values(|item: serde_json::Value| json_value(item))),
                ENUM_ITEM * texts_in(
                    items@.map_values(|item: serde_json::Value| json_value(item)),
                ).len(),
                *final(self),
            ),
    {
        let ghost start = *self;
        let ghost values = items@.map_values(|item: serde_json::Value| json_value(item));
        let mut i: usize = 0;
        assert(values.take(0) =~= Seq::<Json>::empty());
        assert(start.spec_texts() + Seq::<Seq<char>>::empty() =~= start.spec_texts());
        while i < items.len()
            invariant
                i <= items@.len(),
                values == items@.map_values(|item: serde_json::Value| json_value(item)),
                start.extended(
                    texts_in(values.take(i as int)),
                    ENUM_ITEM * texts_in(values.take(i as int)).len(),
                    *self,
                ),
            decreases items@.len() - i,
        {
            assert(values.take(i + 1).drop_last() =~= values.take(i as int));
            assert(values.take(i + 1).last() == json_value(items@[i as int]));
            if let Some(text) = value_as_str(&items[i]) {
                self.add_overhead(ENUM_ITEM);
                self.add_text(text.to_owned());
                assert(self.spec_texts() =~= start.spec_texts() + texts_in(values.take(i + 1)));
            }
            i += 1;
        }
        assert(values.take(i as int) =~= values);
    }

    /// Gathers one property.
    pub fn add_property(&mut self, name: &str, schema: &serde_json::Value)
        ensures
            old(self).extended(
                property_texts(name@, json_value(*schema)),
                property_overhead(json_value(*schema)),
                *final(self),
            ),
    {
        let ghost start = *self;
        let ghost value = json_value(*schema);
        let mut line = name.to_owned();
        proof {
            reveal_strlit(":");
            assert(":"@ =~= seq![':']);
        }
        line.append(":");
        match value_as_object(schema) {
            Some(object) => {
                if let Some(kind) = get_text(object, "type") {
                    line.append(kind);
                }
                line.append(":");
                if let Some(description) = get_text(object, "description") {
                    line.append(trim_trailing(description, '.'));
                }
                assert(line@ =~= property_line(name@, value));
                self.add_text(line);
                match get_array(object, "enum") {
                    Some(items) => {
                        self.add_overhead((PROP_KEY as isize + ENUM_INIT) as usize);
                        self.add_texts_in(items);
                    },
                    None => {
                        self.add_overhead(PROP_KEY);
                    },
                }
                assert(self.spec_texts() =~= start.spec_texts() + property_texts(name@, value));
            },
            None => {
                line.append(":");
                assert(line@ =~= property_line(name@, value));
                self.add_text(line);
                self.add_overhead(PROP_KEY);
                assert(self.spec_texts() =~= start.spec_texts() + property_texts(name@, value));
            },
        }
    }

    /// Gathers the properties of a tool, in the order of their names.
    fn add_properties(&mut self, properties: &serde_json::Map<String, serde_json::Value>, keys: &Vec<String>)
        requires
            texts_of(keys@).to_set() == json_object(*properties).dom(),
        ensures
            old(self).extended(
                properties_texts(json_object(*properties), texts_of(keys@)),
                properties_overhead(json_object(*properties), texts_of(keys@)),
                *final(self),
            ),
    {
        let ghost start = *self;
        let ghost object = json_object(*properties);
        let ghost names = texts_of(keys@);
        let mut i: usize = 0;
        assert(names.take(0) =~= Seq::<Seq<char>>::empty());
        assert(start.spec_texts() + Seq::<Seq<char>>::empty() =~= start.spec_texts());
        while i < keys.len()
            invariant
                i <= keys@.len(),
                object == json_object(*properties),
                names == texts_of(keys@),
                names.to_set() == object.dom(),
                start.extended(
                    properties_texts(object, names.take(i as int)),
                    properties_overhead(object, names.take(i as int)),
                    *self,
                ),
            decreases keys@.len() - i,
        {
            let key = keys[i].as_str();
            assert(names[i as int] == key@);
            assert(names.to_set().contains(names[i as int]));
            assert(names.take(i + 1).drop_last() =~= names.take(i as int));
            assert(names.take(i + 1).last() == key@);
            if let Some(schema) = object_get(properties, key) {
                self.add_property(key, schema);
                proof {
                    properties_overhead_nonnegative(object, names.take(i as int));
                    property_overhead_nonnegative(object[key@]);
                    grown_twice(
                        start.overhead,
                        properties_overhead(object, names.take(i as int)),
                        property_overhead(object[key@]),
                    );
                    assert(self.spec_texts() =~= start.spec_texts() + properties_texts(
                        object,
                        names.take(i + 1),
                    ));
                }
            }
            i += 1;
        }
        assert(names.take(i as int) =~= names);
    }

    /// Gathers one tool.
    pub fn add_tool(&mut self, tool: &Tool)
        ensures
            old(self).extended(tool_texts(*tool), tool_overhead(*tool), *final(self)),
    {
        let ghost start = *self;
        let mut line = tool.name.clone();
        proof {
            reveal_strlit(":");
            assert(":"@ =~= seq![':']);
        }
        line.append(":");
        if let Some(description) = &tool.description {
            line.append(trim_trailing(description.as_str(), '.'));
        }
        assert(line@ =~= tool_line(*tool));
        self.add_overhead(FUNC_INIT);
        self.add_text(line);
        let ghost opened = *self;
        assert(opened.spec_texts() =~= start.spec_texts() + seq![tool_line(*tool)]);
        let ghost properties = tool_properties(*tool);
        let ghost keys = sorted_keys(properties);
        proof {
            if properties == no_members() {
                no_members_no_keys();
            }
            properties_overhead_nonnegative(properties, keys);
        }
        if let Some(value) = object_get(&tool.input_schema, "properties") {
            if let Some(object) = value_as_object(value) {
                let names = keys_in_order(object);
                if names.len() > 0 {
                    self.add_overhead(PROP_INIT);
                    self.add_properties(object, &names);
                    assert(self.spec_texts() =~= opened.spec_texts() + properties_texts(properties, keys));
                }
            }
        }
        assert(self.spec_texts() =~= start.spec_texts() + tool_texts(*tool));
    }

    /// Gathers tools, one after another.
    pub fn add_tools(&mut self, tools: &[Tool])
        ensures
            old(self).extended(tools_texts(tools@), tools_overhead(tools@), *final(self)),
    {
        let ghost start = *self;
        let mut i: usize = 0;
        assert(tools@.take(0) =~= Seq::<Tool>::empty());
        assert(start.spec_texts() + Seq::<Seq<char>>::empty() =~= start.spec_texts());
        while i < tools.len()
            invariant
                i <= tools@.len(),
                start.extended(
                    tools_texts(tools@.take(i as int)),
                    open_tools_overhead(tools@.take(i as int)),
                    *self,
                ),
            decreases tools@.len() - i,
        {
            assert(tools@.take(i + 1).drop_last() =~= tools@.take(i as int));
            self.add_tool(&tools[i]);
            proof {
                tools_overhead_nonnegative(tools@.take(i as int));
                tool_overhead_positive(tools@[i as int]);
                assert(self.spec_texts() =~= start.spec_texts() + tools_texts(tools@.take(i + 1)));
            }
            i += 1;
        }
        assert(tools@.take(i as int) =~= tools@);
        if tools.len() > 0 {
            proof {
                tools_overhead_nonnegative(tools@);
            }
            self.add_overhead(FUNC_END);
            assert(self.spec_texts() =~= start.spec_texts() + tools_texts(tools@));
        }
    }

    /// Gathers one part of a message.
    pub fn add_content(&mut self, content: &MessageContent)
        ensures
            old(self).extended(
                match content_text(*content) {
                    Some(text) => seq![text],
                    None => Seq::empty(),
                },
                0,
                *final(self),
            ),
    {
        assert(self.spec_texts() + Seq::<Seq<char>>::empty() =~= self.spec_texts());
        if let Some(text) = content.as_text() {
            self.add_text(text.to_owned());
        } else if let Some(request) = content.as_tool_request() {
            if let Ok(call) = &request.tool_call {
                proof {
                    reveal_strlit(":");
                    assert(":"@ =~= seq![':']);
                }
                let mut line = request.id.clone();
                line.append(":");
                line.append(call.name.as_str());
                line.append(":");
                line.append(object_debug(&call.arguments).as_str());
                assert(Some(line@) == tool_request_line(*request));
                self.add_text(line);
            }
        } else if let Some(text) = content.as_tool_response_text() {
            self.add_text(text);
        }
    }

    /// Gathers a message, unless the agent does not see it.
    pub fn add_message(&mut self, message: &Message)
        ensures
            message.metadata.agent_visible ==> old(self).extended(
                contents_texts(message.content@),
                TOKENS_PER_MESSAGE as int,
                *final(self),
            ),
            !message.metadata.agent_visible ==> *final(self) == *old(self),
    {
        if !message.metadata.agent_visible {
            return;
        }
        let ghost start = *self;
        self.add_overhead(TOKENS_PER_MESSAGE);
        let mut i: usize = 0;
        assert(message.content@.take(0) =~= Seq::<MessageContent>::empty());
        while i < message.content.len()
            invariant
                i <= message.content@.len(),
                start.extended(
                    contents_texts(message.content@.take(i as int)),
                    TOKENS_PER_MESSAGE as int,
                    *self,
                ),
            decreases message.content@.len() - i,
        {
            assert(message.content@.take(i + 1).drop_last() =~= message.content@.take(i as int));
            self.add_content(&message.content[i]);
            assert(self.spec_texts() =~= start.spec_texts() + contents_texts(
                message.content@.take(i + 1),
            ));
            i += 1;
        }
        assert(message.content@.take(i as int) =~= message.content@);
    }

    /// Gathers a chat: the system prompt unless it is empty, the messages, the
    /// tools, and what opens the reply.
    pub fn add_chat(&mut self, system_prompt: &str, messages: &[Message], tools: &[Tool])
        ensures
            old(self).extended(
                chat_texts(system_prompt@, messages@, tools@),
                chat_overhead(system_prompt@, messages@, tools@),
                *final(self),
            ),
    {
        let ghost start = *self;
        if !system_prompt.is_empty() {
            self.add_text(system_prompt.to_owned());
            self.add_overhead(TOKENS_PER_MESSAGE);
        }
        let ghost prompted = *self;
        let ghost first = if system_prompt@.len() > 0 { seq![system_prompt@] } else { Seq::empty() };
        assert(prompted.spec_texts() =~= start.spec_texts() + first);
        let mut i: usize = 0;
        assert(messages@.take(0) =~= Seq::<Message>::empty());
        assert(prompted.spec_texts() + Seq::<Seq<char>>::empty() =~= prompted.spec_texts());
        while i < messages.len()
            invariant
                i <= messages@.len(),
                prompted.extended(
                    messages_texts(messages@.take(i as int)),
                    messages_overhead(messages@.take(i as int)),
                    *self,
                ),
            decreases messages@.len() - i,
        {
            assert(messages@.take(i + 1).drop_last() =~= messages@.take(i as int));
            self.add_message(&messages[i]);
            proof {
                messages_overhead_nonnegative(messages@.take(i as int));
                assert(self.spec_texts() =~= prompted.spec_texts() + messages_texts(
                    messages@.take(i + 1),
                ));
            }
            i += 1;
        }
        assert(messages@.take(i as int) =~= messages@);
        self.add_tools(tools);
        self.add_overhead(REPLY_PRIMER);
        proof {
            messages_overhead_nonnegative(messages@);
            tools_overhead_nonnegative(tools@);
            assert(self.spec_texts() =~= start.spec_texts() + chat_texts(
                system_prompt@,
                messages@,
                tools@,
            ));
        }
    }

    /// Gathers resources.
    pub fn add_resources(&mut self, resources: &[String])
        ensures
            old(self).extended(texts_of(resources@), 0, *final(self)),
    {
        let ghost start = *self;
        let mut i: usize = 0;
        assert(start.spec_texts() + texts_of(resources@.take(0)) =~= start.spec_texts());
        while i < resources.len()
            invariant
                i <= resources@.len(),
                start.extended(texts_of(resources@.take(i as int)), 0, *self),
            decreases resources@.len() - i,
        {
            self.add_text(resources[i].clone());
            assert(self.spec_texts() =~= start.spec_texts() + texts_of(resources@.take(i + 1)));
            i += 1;
        }
        assert(resources@.take(i as int) =~= resources@);
    }

    /// The texts and the frame of tools.
    pub fn of_tools(tools: &[Tool]) -> (res: Self)
        ensures
            res.spec_texts() == tools_texts(tools@),
            res.overhead == held(tools_overhead(tools@)),
    {
        let mut parts = Parts::new();
        parts.add_tools(tools);
        assert(parts.spec_texts() =~= tools_texts(tools@));
        parts
    }

    /// The texts and the frame of a chat.
    pub fn of_chat(system_prompt: &str, messages: &[Message], tools: &[Tool]) -> (res: Self)
        ensures
            res.spec_texts() == chat_texts(system_prompt@, messages@, tools@),
            res.overhead == held(chat_overhead(system_prompt@, messages@, tools@)),
    {
        let mut parts = Parts::new();
        parts.add_chat(system_prompt, messages, tools);
        assert(parts.spec_texts() =~= chat_texts(system_prompt@, messages@, tools@));
        parts
    }

    /// The texts of a chat and of its resources, and the frame of the chat.
    pub fn of_everything(
        system_prompt: &str,
        messages: &[Message],
        tools: &[Tool],
        resources: &[String],
    ) -> (res: Self)
        ensures
            res.spec_texts() == everything_texts(system_prompt@, messages@, tools@, resources@),
            res.overhead == held(chat_overhead(system_prompt@, messages@, tools@)),
    {
        let mut parts = Parts::of_chat(system_prompt, messages, tools);
        parts.add_resources(resources);
        proof {
            chat_overhead_nonnegative(system_prompt@, messages@, tools@);
        }
        parts
    }
}

} // verus!
