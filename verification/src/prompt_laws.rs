//! What of a request counts, piece by piece: how the texts and the tokens of the frame
//! grow with each message, part, tool, property and allowed value.

use vstd::prelude::*;

use crate::conversation::{Message, MessageContent, Tool};
use crate::json::{
    greatest_text_is_listed_last, json_object, object_debug_text, sets_are_listed_in_order,
    sorted_keys, Json,
};
use crate::prompt::{
    chat_overhead, chat_texts, contents_texts, everything_texts, grown, held, messages_add_up,
    messages_overhead, messages_texts, properties_overhead, properties_texts, property_line,
    property_overhead, property_schema, property_texts, texts_in, tool_properties, tool_texts,
    tools_add_up, tools_overhead, tools_texts, Parts,
};
use crate::text::{only_the_run_at_the_end_goes, text_le, texts_of};

verus! {

/// A chat without a prompt, messages and tools has no text and three tokens; a
/// prompt that is not empty adds itself, in front, and four tokens.
pub proof fn what_a_prompt_adds(system_prompt: Seq<char>, messages: Seq<Message>, tools: Seq<Tool>)
    ensures
        chat_texts(Seq::empty(), Seq::empty(), Seq::empty()).len() == 0,
        chat_overhead(Seq::empty(), Seq::empty(), Seq::empty()) == 3,
        system_prompt.len() > 0 ==> chat_texts(system_prompt, messages, tools) == seq![
            system_prompt,
        ] + chat_texts(Seq::empty(), messages, tools),
        system_prompt.len() > 0 ==> chat_overhead(system_prompt, messages, tools) == 4
            + chat_overhead(Seq::empty(), messages, tools),
{
    let none = Seq::<char>::empty();
    assert(chat_texts(none, messages, tools) =~= messages_texts(messages) + tools_texts(tools));
    if system_prompt.len() > 0 {
        assert(chat_texts(system_prompt, messages, tools) =~= seq![system_prompt] + chat_texts(
            none,
            messages,
            tools,
        ));
    }
}

/// A message that the agent sees adds its texts behind those of the messages before
/// it and four tokens, whoever it comes from; one that the agent does not see adds
/// nothing.
pub proof fn what_a_message_adds(system_prompt: Seq<char>, messages: Seq<Message>, message: Message)
    ensures
        message.metadata.agent_visible ==> chat_texts(
            system_prompt,
            messages.push(message),
            Seq::empty(),
        ) == chat_texts(system_prompt, messages, Seq::empty()) + chat_texts(
            Seq::empty(),
            seq![message],
            Seq::empty(),
        ),
        message.metadata.agent_visible ==> chat_overhead(
            system_prompt,
            messages.push(message),
            Seq::empty(),
        ) == chat_overhead(system_prompt, messages, Seq::empty()) + 4,
        !message.metadata.agent_visible ==> chat_texts(
            system_prompt,
            messages.push(message),
            Seq::empty(),
        ) == chat_texts(system_prompt, messages, Seq::empty()),
        !message.metadata.agent_visible ==> chat_overhead(
            system_prompt,
            messages.push(message),
            Seq::empty(),
        ) == chat_overhead(system_prompt, messages, Seq::empty()),
{
    let one = seq![message];
    messages_add_up(messages, one);
    assert(messages.push(message) =~= messages + one);
    assert(one.drop_last() =~= Seq::<Message>::empty());
    reveal_with_fuel(messages_texts, 2);
    reveal_with_fuel(messages_overhead, 2);
    let with = chat_texts(system_prompt, messages.push(message), Seq::empty());
    let without = chat_texts(system_prompt, messages, Seq::empty());
    if message.metadata.agent_visible {
        assert(with =~= without + chat_texts(Seq::empty(), one, Seq::empty()));
    } else {
        assert(messages_texts(one) =~= Seq::<Seq<char>>::empty());
        assert(with =~= without);
    }
}

/// A part more of a message that the agent sees adds its text, whoever the message
/// comes from and whatever its other parts are: a text adds itself, a tool request
/// that could be read its id, the name of the tool and the arguments, and an answer
/// of a tool its text. Any other part adds none.
pub proof fn what_a_part_adds(less: Message, more: Message, part: MessageContent)
    requires
        less.metadata.agent_visible,
        more.metadata.agent_visible,
        more.content@ == less.content@.push(part),
    ensures
        less.content@.len() == 0 ==> chat_texts(Seq::empty(), seq![less], Seq::empty()).len() == 0,
        chat_texts(Seq::empty(), seq![more], Seq::empty()) == chat_texts(
            Seq::empty(),
            seq![less],
            Seq::empty(),
        ) + match part {
            MessageContent::Text(text) => seq![text@],
            MessageContent::ToolRequest(request) => match request.tool_call {
                Ok(call) => seq![
                    request.id@ + ":"@ + call.name@ + ":"@ + object_debug_text(
                        match call.arguments {
                            Some(arguments) => Some(json_object(arguments)),
                            None => None,
                        },
                    ),
                ],
                Err(_) => Seq::<Seq<char>>::empty(),
            },
            MessageContent::ToolResponse(Some(text)) => seq![text@],
            MessageContent::ToolResponse(None) => Seq::<Seq<char>>::empty(),
            MessageContent::Other => Seq::<Seq<char>>::empty(),
        },
{
    reveal_strlit(":");
    assert(":"@ =~= seq![':']);
    one_message(less);
    one_message(more);
    assert(more.content@.drop_last() =~= less.content@);
    assert(more.content@.last() == part);
}

proof fn one_message(message: Message)
    requires
        message.metadata.agent_visible,
    ensures
        chat_texts(Seq::empty(), seq![message], Seq::empty()) == contents_texts(message.content@),
{
    let one = seq![message];
    assert(one.drop_last() =~= Seq::<Message>::empty());
    reveal_with_fuel(messages_texts, 2);
    assert(chat_texts(Seq::empty(), one, Seq::empty()) =~= contents_texts(message.content@));
}

/// Who messages come from does not matter: only their parts and whether the agent
/// sees them do.
pub proof fn roles_do_not_matter(
    system_prompt: Seq<char>,
    messages: Seq<Message>,
    other: Seq<Message>,
    tools: Seq<Tool>,
)
    requires
        messages.len() == other.len(),
        forall|i: int|
            0 <= i < messages.len() ==> (#[trigger] messages[i]).content@ == other[i].content@
                && messages[i].metadata.agent_visible == other[i].metadata.agent_visible,
    ensures
        chat_texts(system_prompt, messages, tools) == chat_texts(system_prompt, other, tools),
        chat_overhead(system_prompt, messages, tools) == chat_overhead(system_prompt, other, tools),
{
    same_parts_count_the_same(messages, other);
}

proof fn same_parts_count_the_same(messages: Seq<Message>, other: Seq<Message>)
    requires
        messages.len() == other.len(),
        forall|i: int|
            0 <= i < messages.len() ==> (#[trigger] messages[i]).content@ == other[i].content@
                && messages[i].metadata.agent_visible == other[i].metadata.agent_visible,
    ensures
        messages_texts(messages) == messages_texts(other),
        messages_overhead(messages) == messages_overhead(other),
    decreases messages.len(),
{
    if messages.len() > 0 {
        assert(messages[messages.len() - 1].content@ == other[messages.len() - 1].content@);
        assert forall|i: int| 0 <= i < messages.drop_last().len() implies (
        #[trigger] messages.drop_last()[i]).content@ == other.drop_last()[i].content@
            && messages.drop_last()[i].metadata.agent_visible
            == other.drop_last()[i].metadata.agent_visible by {
            assert(messages[i].content@ == other[i].content@);
        }
        same_parts_count_the_same(messages.drop_last(), other.drop_last());
    }
}

/// The tools of a chat add their texts behind those of its messages, and the tokens
/// that they add on their own; resources add their texts, one after another.
pub proof fn what_tools_and_resources_add(
    system_prompt: Seq<char>,
    messages: Seq<Message>,
    tools: Seq<Tool>,
    resources: Seq<String>,
)
    ensures
        chat_texts(system_prompt, messages, tools) == chat_texts(
            system_prompt,
            messages,
            Seq::empty(),
        ) + tools_texts(tools),
        chat_overhead(system_prompt, messages, tools) == chat_overhead(
            system_prompt,
            messages,
            Seq::empty(),
        ) + tools_overhead(tools),
        everything_texts(system_prompt, messages, tools, resources) == chat_texts(
            system_prompt,
            messages,
            tools,
        ) + Seq::new(resources.len(), |i: int| resources[i]@),
{
    let none = Seq::<Tool>::empty();
    assert(chat_texts(system_prompt, messages, tools) =~= chat_texts(system_prompt, messages, none)
        + tools_texts(tools));
    assert(texts_of(resources) =~= Seq::new(resources.len(), |i: int| resources[i]@));
}

/// A tool adds its texts behind those of the tools before it, and its tokens; the
/// twelve tokens that close the list are added once, and without a tool there are
/// none.
pub proof fn what_a_tool_adds(tools: Seq<Tool>, tool: Tool)
    ensures
        tools_texts(Seq::empty()).len() == 0,
        tools_overhead(Seq::empty()) == 0,
        tools_texts(tools.push(tool)) == tools_texts(tools) + tools_texts(seq![tool]),
        tools.len() > 0 ==> tools_overhead(tools.push(tool)) + 12 == tools_overhead(tools)
            + tools_overhead(seq![tool]),
{
    tools_add_up(tools, seq![tool]);
    assert(tools.push(tool) =~= tools + seq![tool]);
}

proof fn one_tool(tool: Tool)
    ensures
        tools_texts(seq![tool]) == tool_texts(tool),
        tools_overhead(seq![tool]) == 12 + crate::prompt::tool_overhead(tool),
{
    let one = seq![tool];
    assert(one.drop_last() =~= Seq::<Tool>::empty());
    reveal_with_fuel(tools_texts, 2);
    reveal_with_fuel(crate::prompt::open_tools_overhead, 2);
    assert(tools_texts(one) =~= tool_texts(tool));
}

/// A tool without properties has one text and nineteen tokens, whatever else its
/// schema holds. The text is its name, a colon and its description without the full
/// stops at the end.
pub proof fn what_a_bare_tool_adds(tool: Tool, description: Seq<char>, full_stops: nat)
    requires
        description.len() > 0 ==> description.last() != '.',
        description + Seq::new(full_stops, |i: int| '.') == (match tool.description {
            Some(text) => text@,
            None => Seq::<char>::empty(),
        }),
        ({
            let schema = json_object(tool.input_schema);
            schema.dom().contains("properties"@) && schema["properties"@] is Object
                ==> schema["properties"@]->Object_0.dom() == Set::<Seq<char>>::empty()
        }),
    ensures
        tools_texts(seq![tool]) == seq![tool.name@ + ":"@ + description],
        tools_overhead(seq![tool]) == 19,
{
    reveal_strlit(":");
    assert(":"@ =~= seq![':']);
    only_the_run_at_the_end_goes(description, '.', full_stops);
    one_tool(tool);
    let properties = tool_properties(tool);
    assert(properties.dom() =~= Set::<Seq<char>>::empty());
    sets_are_listed_in_order(properties.dom());
    let keys = sorted_keys(properties);
    if keys.len() > 0 {
        assert(keys.to_set().contains(keys[0]));
    }
    assert(keys =~= Seq::<Seq<char>>::empty());
    assert(tool_texts(tool) =~= seq![tool.name@ + ":"@ + description]);
}

/// A property more, whose name comes after those of the others, adds its texts
/// behind those of the tool and three tokens for itself, and three more if it is the
/// first. Its first text is its name, its type and its description without the full
/// stops at the end, with a colon between, where a type or a description that is no
/// text is empty; no other member of its schema matters to that. A list of allowed
/// values takes the three tokens for the property back, and each text among the
/// values adds itself and three tokens.
pub proof fn what_a_property_adds(
    less: Tool,
    more: Tool,
    properties: Map<Seq<char>, Json>,
    name: Seq<char>,
    schema: Json,
    description: Seq<char>,
    full_stops: nat,
)
    requires
        more.name@ == less.name@,
        (match more.description {
            Some(text) => text@,
            None => Seq::<char>::empty(),
        }) == (match less.description {
            Some(text) => text@,
            None => Seq::<char>::empty(),
        }),
        properties == (if json_object(less.input_schema).dom().contains("properties"@) && json_object(
            less.input_schema,
        )["properties"@] is Object {
            json_object(less.input_schema)["properties"@]->Object_0
        } else {
            Map::<Seq<char>, Json>::empty()
        }),
        properties.dom().finite(),
        !properties.dom().contains(name),
        forall|other: Seq<char>| #[trigger]
            properties.dom().contains(other) ==> text_le(other, name),
        json_object(more.input_schema).dom().contains("properties"@),
        json_object(more.input_schema)["properties"@] == Json::Object(
            properties.insert(name, schema),
        ),
        description.len() > 0 ==> description.last() != '.',
        description + Seq::new(full_stops, |i: int| '.') == (if schema is Object
            && schema->Object_0.dom().contains("description"@)
            && schema->Object_0["description"@] is Text {
            schema->Object_0["description"@]->Text_0
        } else {
            Seq::<char>::empty()
        }),
    ensures
        ({
            let kind = if schema is Object && schema->Object_0.dom().contains("type"@)
                && schema->Object_0["type"@] is Text {
                schema->Object_0["type"@]->Text_0
            } else {
                Seq::<char>::empty()
            };
            let listed = schema is Object && schema->Object_0.dom().contains("enum"@)
                && schema->Object_0["enum"@] is Array;
            let values = if listed {
                schema->Object_0["enum"@]->Array_0.filter(|value: Json| value is Text).map_values(
                    |value: Json| value->Text_0,
                )
            } else {
                Seq::<Seq<char>>::empty()
            };
            let first = properties.dom() == Set::<Seq<char>>::empty();
            &&& tools_texts(seq![more]) == tools_texts(seq![less]) + seq![
                name + ":"@ + kind + ":"@ + description,
            ] + values
            &&& tools_overhead(seq![more]) == tools_overhead(seq![less]) + (if first {
                3int
            } else {
                0
            }) + (if listed {
                3 * values.len()
            } else {
                3
            })
        }),
{
    let all = tool_properties(more);
    assert(tool_properties(less) == properties);
    assert(all == properties.insert(name, schema));
    assert(all.dom() =~= properties.dom().insert(name));
    greatest_text_is_listed_last(properties.dom(), name);
    sets_are_listed_in_order(properties.dom());
    let keys = sorted_keys(properties);
    let all_keys = sorted_keys(all);
    assert(all_keys == keys.push(name));
    assert forall|i: int| 0 <= i < keys.len() implies keys[i] != name && property_schema(
        all,
        #[trigger] keys[i],
    ) == property_schema(properties, keys[i]) by {
        assert(keys.to_set().contains(keys[i]));
    }
    other_properties_stay(properties, all, keys);
    assert(all_keys.drop_last() =~= keys);
    assert(keys.len() == 0 <==> properties.dom() == Set::<Seq<char>>::empty()) by {
        if keys.len() > 0 {
            assert(keys.to_set().contains(keys[0]));
        } else {
            assert(keys.to_set() =~= Set::<Seq<char>>::empty());
        }
    }
    one_tool(less);
    one_tool(more);
    what_a_schema_adds(name, schema, description, full_stops);
    assert(properties_overhead(properties, keys) == 0 || keys.len() > 0);
    assert(property_schema(all, name) == schema);
    assert(tool_texts(more) =~= tool_texts(less) + property_texts(name, schema));
    reveal_strlit(":");
    assert(":"@ =~= seq![':']);
    assert(property_texts(name, schema) =~= seq![property_line(name, schema)] + property_texts(
        name,
        schema,
    ).drop_first());
}

proof fn other_properties_stay(properties: Map<Seq<char>, Json>, all: Map<Seq<char>, Json>, keys: Seq<Seq<char>>)
    requires
        forall|i: int|
            0 <= i < keys.len() ==> property_schema(all, #[trigger] keys[i]) == property_schema(
                properties,
                keys[i],
            ),
    ensures
        properties_texts(all, keys) == properties_texts(properties, keys),
        properties_overhead(all, keys) == properties_overhead(properties, keys),
    decreases keys.len(),
{
    if keys.len() > 0 {
        assert(property_schema(all, keys[keys.len() - 1]) == property_schema(
            properties,
            keys[keys.len() - 1],
        ));
        assert forall|i: int| 0 <= i < keys.drop_last().len() implies property_schema(
            all,
            #[trigger] keys.drop_last()[i],
        ) == property_schema(properties, keys.drop_last()[i]) by {
            assert(keys.drop_last()[i] == keys[i]);
        }
        other_properties_stay(properties, all, keys.drop_last());
    }
}

/// The first text of a property is its name, its type and its description without
/// the full stops at the end, with a colon between, whatever other members its schema
/// has; the others are the texts among the values that it allows, in order. It takes
/// three tokens, or with a list of allowed values three for each text among them.
pub proof fn what_a_schema_adds(name: Seq<char>, schema: Json, description: Seq<char>, full_stops: nat)
    requires
        description.len() > 0 ==> description.last() != '.',
        description + Seq::new(full_stops, |i: int| '.') == (if schema is Object
            && schema->Object_0.dom().contains("description"@)
            && schema->Object_0["description"@] is Text {
            schema->Object_0["description"@]->Text_0
        } else {
            Seq::<char>::empty()
        }),
    ensures
        ({
            let kind = if schema is Object && schema->Object_0.dom().contains("type"@)
                && schema->Object_0["type"@] is Text {
                schema->Object_0["type"@]->Text_0
            } else {
                Seq::<char>::empty()
            };
            let listed = schema is Object && schema->Object_0.dom().contains("enum"@)
                && schema->Object_0["enum"@] is Array;
            let values = if listed {
                schema->Object_0["enum"@]->Array_0.filter(|value: Json| value is Text).map_values(
                    |value: Json| value->Text_0,
                )
            } else {
                Seq::<Seq<char>>::empty()
            };
            &&& property_texts(name, schema) == seq![name + ":"@ + kind + ":"@ + description] + values
            &&& property_overhead(schema) == if listed {
                3 * values.len()
            } else {
                3
            }
        }),
{
    reveal_strlit(":");
    assert(":"@ =~= seq![':']);
    only_the_run_at_the_end_goes(description, '.', full_stops);
    if schema is Object && schema->Object_0.dom().contains("enum"@)
        && schema->Object_0["enum"@] is Array {
        texts_are_filtered(schema->Object_0["enum"@]->Array_0);
    }
}

proof fn texts_are_filtered(items: Seq<Json>)
    ensures
        texts_in(items) == items.filter(|value: Json| value is Text).map_values(
            |value: Json| value->Text_0,
        ),
    decreases items.len(),
{
    reveal(Seq::filter);
    let is_text = |value: Json| value is Text;
    let text = |value: Json| value->Text_0;
    if items.len() == 0 {
        assert(items.filter(is_text).map_values(text) =~= Seq::<Seq<char>>::empty());
    } else {
        texts_are_filtered(items.drop_last());
        assert(items.filter(is_text).map_values(text) =~= texts_in(items));
    }
}

/// A number that the machine can hold is held, and no other; a sum that is held grows
/// by as much as is added.
pub proof fn what_a_machine_holds(sum: usize, n: int)
    ensures
        held(n) is Some <==> 0 <= n <= usize::MAX,
        held(n) is Some ==> held(n)->0 == n,
        grown(Some(sum), n) == held(sum + n),
        grown(None, n) is None,
{
}

/// Parts that were extended have the texts that were added behind those they had, and
/// the tokens that were added.
pub proof fn extended_parts(before: Parts, texts: Seq<Seq<char>>, overhead: int, after: Parts)
    ensures
        before.extended(texts, overhead, after) <==> after.texts@.map_values(|text: String| text@)
            == before.texts@.map_values(|text: String| text@) + texts && after.overhead == grown(
            before.overhead,
            overhead,
        ),
{
    assert(after.spec_texts() =~= after.texts@.map_values(|text: String| text@));
    assert(before.spec_texts() =~= before.texts@.map_values(|text: String| text@));
}

} // verus!
