//! How the counts of requests relate: what adds up, what does not matter, and what
//! never lowers a count.
//!
//! Where requests are counted by different counters, or in another order, the laws
//! speak of counters that are faithful to the texts of those requests.

use vstd::prelude::*;

use crate::cache::CacheEntry;
use crate::conversation::{Message, Tool};
use crate::prompt::{
    alike_tools_count_the_same, chat_overhead, chat_texts, contents_texts, everything_texts,
    messages_add_up, messages_overhead, messages_texts, open_tools_overhead, tool_overhead,
    tool_texts, tools_add_up, tools_alike, tools_overhead, tools_texts, FUNC_END, REPLY_PRIMER,
    TOKENS_PER_MESSAGE,
};
use crate::prompt_laws::{roles_do_not_matter, what_a_message_adds};
use crate::sums::{order_does_not_matter, weight_sum};
use crate::text::texts_of;
use crate::token_counter::{
    all_among, all_countable, bytes_and_tokens_add_up, chat_count, entries_after_all,
    everything_count, faithful, reported_sum, sum_is_token_sum, sum_splits, token_sum, tools_count,
};
use crate::tokenizer::token_count;

verus! {

/// The tokens of two runs of texts add up.
pub proof fn token_sum_splits(first: Seq<Seq<char>>, second: Seq<Seq<char>>)
    ensures
        token_sum(first + second) == token_sum(first) + token_sum(second),
    decreases first.len(),
{
    if first.len() == 0 {
        assert(first + second =~= second);
    } else {
        assert((first + second)[0] == first[0]);
        assert((first + second).drop_first() =~= first.drop_first() + second);
        token_sum_splits(first.drop_first(), second);
    }
}

/// The count of a request is what its frame adds and the counts that are given for
/// its texts, one after another.
pub proof fn counts_of_requests(
    entries: Seq<CacheEntry>,
    system_prompt: Seq<char>,
    messages: Seq<Message>,
    tools: Seq<Tool>,
    resources: Seq<String>,
)
    ensures
        tools_count(entries, tools) == tools_overhead(tools) + reported_sum(
            entries,
            tools_texts(tools),
        ),
        chat_count(entries, system_prompt, messages, tools) == chat_overhead(
            system_prompt,
            messages,
            tools,
        ) + reported_sum(entries, chat_texts(system_prompt, messages, tools)),
        everything_count(entries, system_prompt, messages, tools, resources) == chat_overhead(
            system_prompt,
            messages,
            tools,
        ) + reported_sum(
            entries,
            everything_texts(system_prompt, messages, tools, resources),
        ),
{
}

/// The counts for texts that can be told apart come to the tokens of all of them.
pub proof fn counts_come_to_all_tokens(entries: Seq<CacheEntry>, texts: Set<Seq<char>>, list: Seq<Seq<char>>)
    requires
        faithful(entries, texts),
        all_among(list, texts),
        all_countable(entries, list),
    ensures
        reported_sum(entries, list) == list.fold_left(
            0int,
            |sum: int, text: Seq<char>| sum + token_count(text),
        ),
{
    sum_is_token_sum(entries, texts, list);
    tokens_fold(list);
}

proof fn tokens_fold(list: Seq<Seq<char>>)
    ensures
        token_sum(list) == list.fold_left(
            0int,
            |sum: int, text: Seq<char>| sum + token_count(text),
        ),
    decreases list.len(),
{
    if list.len() > 0 {
        tokens_fold(list.drop_last());
        bytes_and_tokens_add_up(list.drop_last(), list.last());
        assert(list.drop_last().push(list.last()) =~= list);
    }
}

/// A message that the agent sees, of either role, adds four tokens to the count of a
/// chat and the counts that are given for its parts after those of the chat; one that
/// the agent does not see leaves the count as it is.
pub proof fn a_message_more_counts(
    entries: Seq<CacheEntry>,
    system_prompt: Seq<char>,
    messages: Seq<Message>,
    message: Message,
)
    ensures
        message.metadata.agent_visible ==> chat_count(
            entries,
            system_prompt,
            messages.push(message),
            Seq::empty(),
        ) == chat_count(entries, system_prompt, messages, Seq::empty()) + 4 + reported_sum(
            entries_after_all(entries, chat_texts(system_prompt, messages, Seq::empty())),
            chat_texts(Seq::empty(), seq![message], Seq::empty()),
        ),
        !message.metadata.agent_visible ==> chat_count(
            entries,
            system_prompt,
            messages.push(message),
            Seq::empty(),
        ) == chat_count(entries, system_prompt, messages, Seq::empty()),
{
    what_a_message_adds(system_prompt, messages, message);
    sum_splits(
        entries,
        chat_texts(system_prompt, messages, Seq::empty()),
        chat_texts(Seq::empty(), seq![message], Seq::empty()),
    );
}

/// Chats that differ in who their messages come from have the same count.
pub proof fn roles_do_not_count(
    entries: Seq<CacheEntry>,
    system_prompt: Seq<char>,
    messages: Seq<Message>,
    other: Seq<Message>,
    tools: Seq<Tool>,
)
    requires
        messages.len() == other.len(),
        forall|i: int|
            0 <= i < messages.len() ==> (#[trigger] messages[i]).content@ == other[i].content@
                && messages[i].metadata.agent_visible == other[i].metadata.agent_visible,
    ensures
        chat_count(entries, system_prompt, messages, tools) == chat_count(
            entries,
            system_prompt,
            other,
            tools,
        ),
{
    roles_do_not_matter(system_prompt, messages, other, tools);
}

/// Two lists of tools that are counted one after the other come to the count of
/// both in one list and what closes the second list.
pub proof fn tools_counts_add_up(entries: Seq<CacheEntry>, first: Seq<Tool>, second: Seq<Tool>)
    requires
        first.len() > 0,
        second.len() > 0,
    ensures
        tools_count(entries, first + second) + FUNC_END == tools_count(entries, first) + tools_count(
            entries_after_all(entries, tools_texts(first)),
            second,
        ),
        entries_after_all(entries, tools_texts(first + second)) == entries_after_all(
            entries_after_all(entries, tools_texts(first)),
            tools_texts(second),
        ),
{
    tools_add_up(first, second);
    sum_splits(entries, tools_texts(first), tools_texts(second));
}

/// The counts of two lists of tools come to the count of both in one list and what
/// closes the second list, whichever counters they were taken by.
pub proof fn tools_counts_of_any_counters_add_up(
    entries: Seq<CacheEntry>,
    first_entries: Seq<CacheEntry>,
    second_entries: Seq<CacheEntry>,
    texts: Set<Seq<char>>,
    first: Seq<Tool>,
    second: Seq<Tool>,
)
    requires
        first.len() > 0,
        second.len() > 0,
        faithful(entries, texts),
        faithful(first_entries, texts),
        faithful(second_entries, texts),
        all_among(tools_texts(first + second), texts),
        all_countable(entries, tools_texts(first + second)),
        all_countable(first_entries, tools_texts(first)),
        all_countable(second_entries, tools_texts(second)),
    ensures
        tools_count(entries, first + second) + FUNC_END == tools_count(first_entries, first)
            + tools_count(second_entries, second),
{
    tools_add_up(first, second);
    let whole = tools_texts(first + second);
    let one = tools_texts(first);
    let two = tools_texts(second);
    assert forall|i: int| 0 <= i < one.len() implies texts.contains(#[trigger] one[i]) by {
        assert(one[i] == whole[i]);
    }
    assert forall|i: int| 0 <= i < two.len() implies texts.contains(#[trigger] two[i]) by {
        assert(two[i] == whole[one.len() + i]);
    }
    sum_is_token_sum(entries, texts, whole);
    sum_is_token_sum(first_entries, texts, one);
    sum_is_token_sum(second_entries, texts, two);
    token_sum_splits(one, two);
}

/// Full stops at the end of descriptions, absent descriptions and properties, and
/// allowed values that are no text do not matter to the count of tools.
pub proof fn alike_tools_have_the_same_count(entries: Seq<CacheEntry>, a: Seq<Tool>, b: Seq<Tool>)
    requires
        a.len() == b.len(),
        forall|i: int| 0 <= i < a.len() ==> tools_alike(#[trigger] a[i], b[i]),
    ensures
        all_countable(entries, tools_texts(a)) == all_countable(entries, tools_texts(b)),
        tools_count(entries, a) == tools_count(entries, b),
        entries_after_all(entries, tools_texts(a)) == entries_after_all(entries, tools_texts(b)),
{
    alike_tools_count_the_same(a, b);
}

/// The tokens of a tool and what it adds to them.
pub open spec fn tool_weight(tool: Tool) -> int {
    tool_overhead(tool) + token_sum(tool_texts(tool))
}

/// The tokens of a message and what it adds to them: nothing for one that the agent
/// does not see.
pub open spec fn message_weight(message: Message) -> int {
    if message.metadata.agent_visible {
        TOKENS_PER_MESSAGE + token_sum(contents_texts(message.content@))
    } else {
        0
    }
}

proof fn tools_weigh(tools: Seq<Tool>)
    ensures
        open_tools_overhead(tools) + token_sum(tools_texts(tools)) == weight_sum(
            tools,
            |tool: Tool| tool_weight(tool),
        ),
    decreases tools.len(),
{
    if tools.len() > 0 {
        tools_weigh(tools.drop_last());
        token_sum_splits(tools_texts(tools.drop_last()), tool_texts(tools.last()));
    }
}

proof fn messages_weigh(messages: Seq<Message>)
    ensures
        messages_overhead(messages) + token_sum(messages_texts(messages)) == weight_sum(
            messages,
            |message: Message| message_weight(message),
        ),
    decreases messages.len(),
{
    if messages.len() > 0 {
        messages_weigh(messages.drop_last());
        if messages.last().metadata.agent_visible {
            token_sum_splits(
                messages_texts(messages.drop_last()),
                contents_texts(messages.last().content@),
            );
        }
    }
}

proof fn tokens_weigh(texts: Seq<Seq<char>>)
    ensures
        token_sum(texts) == weight_sum(texts, |text: Seq<char>| token_count(text) as int),
    decreases texts.len(),
{
    if texts.len() > 0 {
        let last = seq![texts.last()];
        tokens_weigh(texts.drop_last());
        assert(texts =~= texts.drop_last() + last);
        token_sum_splits(texts.drop_last(), last);
        reveal_with_fuel(token_sum, 2);
    }
}

/// The order of resources does not matter to the count of everything.
pub proof fn order_of_resources_does_not_matter(
    entries: Seq<CacheEntry>,
    other_entries: Seq<CacheEntry>,
    texts: Set<Seq<char>>,
    system_prompt: Seq<char>,
    messages: Seq<Message>,
    tools: Seq<Tool>,
    resources: Seq<String>,
    other: Seq<String>,
)
    requires
        texts_of(resources).to_multiset() == texts_of(other).to_multiset(),
        faithful(entries, texts),
        faithful(other_entries, texts),
        all_among(everything_texts(system_prompt, messages, tools, resources), texts),
        all_countable(entries, everything_texts(system_prompt, messages, tools, resources)),
        all_countable(other_entries, everything_texts(system_prompt, messages, tools, other)),
    ensures
        everything_count(entries, system_prompt, messages, tools, resources) == everything_count(
            other_entries,
            system_prompt,
            messages,
            tools,
            other,
        ),
{
    broadcast use vstd::seq_lib::group_to_multiset_ensures;

    let chat = chat_texts(system_prompt, messages, tools);
    let a = texts_of(resources);
    let b = texts_of(other);
    assert forall|i: int| 0 <= i < (chat + b).len() implies texts.contains(
        #[trigger] (chat + b)[i],
    ) by {
        if i < chat.len() {
            assert((chat + b)[i] == (chat + a)[i]);
        } else {
            let text = b[i - chat.len()];
            assert(b.contains(text));
            assert(b.to_multiset().count(text) > 0);
            assert(a.contains(text));
            let k = choose|k: int| 0 <= k < a.len() && a[k] == text;
            assert((chat + a)[chat.len() + k] == text);
        }
    }
    sum_is_token_sum(entries, texts, chat + a);
    sum_is_token_sum(other_entries, texts, chat + b);
    token_sum_splits(chat, a);
    token_sum_splits(chat, b);
    tokens_weigh(a);
    tokens_weigh(b);
    order_does_not_matter(a, b, |text: Seq<char>| token_count(text) as int);
}

/// The order of tools does not matter to their count.
pub proof fn order_of_tools_does_not_matter(
    entries: Seq<CacheEntry>,
    other_entries: Seq<CacheEntry>,
    texts: Set<Seq<char>>,
    tools: Seq<Tool>,
    other: Seq<Tool>,
)
    requires
        tools.to_multiset() == other.to_multiset(),
        faithful(entries, texts),
        faithful(other_entries, texts),
        all_among(tools_texts(tools), texts),
        all_among(tools_texts(other), texts),
        all_countable(entries, tools_texts(tools)),
        all_countable(other_entries, tools_texts(other)),
    ensures
        tools_count(entries, tools) == tools_count(other_entries, other),
{
    tools.to_multiset_ensures();
    other.to_multiset_ensures();
    sum_is_token_sum(entries, texts, tools_texts(tools));
    sum_is_token_sum(other_entries, texts, tools_texts(other));
    tools_weigh(tools);
    tools_weigh(other);
    order_does_not_matter(tools, other, |tool: Tool| tool_weight(tool));
}

proof fn chat_tokens(system_prompt: Seq<char>, messages: Seq<Message>, tools: Seq<Tool>)
    ensures
        token_sum(chat_texts(system_prompt, messages, tools)) == token_sum(
            chat_texts(system_prompt, Seq::empty(), Seq::empty()),
        ) + token_sum(messages_texts(messages)) + token_sum(tools_texts(tools)),
        token_sum(chat_texts(Seq::empty(), Seq::empty(), Seq::empty())) == 0,
{
    let prompt = if system_prompt.len() > 0 { seq![system_prompt] } else { Seq::empty() };
    token_sum_splits(prompt + messages_texts(messages), tools_texts(tools));
    token_sum_splits(prompt, messages_texts(messages));
    let none = Seq::<Seq<char>>::empty();
    assert(chat_texts(system_prompt, Seq::empty(), Seq::empty()) =~= prompt);
    assert(chat_texts(Seq::empty(), Seq::empty(), Seq::empty()) =~= none);
}

/// A chat whose messages are counted in two parts, the second on its own, comes to
/// the count of the chat and what opens the second reply.
pub proof fn chat_counts_add_up(
    entries: Seq<CacheEntry>,
    first_entries: Seq<CacheEntry>,
    second_entries: Seq<CacheEntry>,
    texts: Set<Seq<char>>,
    system_prompt: Seq<char>,
    first: Seq<Message>,
    second: Seq<Message>,
    tools: Seq<Tool>,
)
    requires
        faithful(entries, texts),
        faithful(first_entries, texts),
        faithful(second_entries, texts),
        all_among(chat_texts(system_prompt, first + second, tools), texts),
        all_countable(entries, chat_texts(system_prompt, first + second, tools)),
        all_countable(first_entries, chat_texts(system_prompt, first, tools)),
        all_countable(second_entries, chat_texts(Seq::empty(), second, Seq::empty())),
    ensures
        chat_count(entries, system_prompt, first + second, tools) + REPLY_PRIMER == chat_count(
            first_entries,
            system_prompt,
            first,
            tools,
        ) + chat_count(second_entries, Seq::empty(), second, Seq::empty()),
{
    messages_add_up(first, second);
    let whole = chat_texts(system_prompt, first + second, tools);
    let one = chat_texts(system_prompt, first, tools);
    let two = chat_texts(Seq::empty(), second, Seq::empty());
    let prompt = if system_prompt.len() > 0 { seq![system_prompt] } else { Seq::empty() };
    let a = messages_texts(first);
    let b = messages_texts(second);
    assert(whole =~= prompt + a + b + tools_texts(tools));
    assert(one =~= prompt + a + tools_texts(tools));
    assert(two =~= b);
    assert forall|i: int| 0 <= i < one.len() implies texts.contains(#[trigger] one[i]) by {
        if i < prompt.len() + a.len() {
            assert(one[i] == whole[i]);
        } else {
            assert(one[i] == whole[i + b.len()]);
        }
    }
    assert forall|i: int| 0 <= i < two.len() implies texts.contains(#[trigger] two[i]) by {
        assert(two[i] == whole[prompt.len() + a.len() + i]);
    }
    sum_is_token_sum(entries, texts, whole);
    sum_is_token_sum(first_entries, texts, one);
    sum_is_token_sum(second_entries, texts, two);
    chat_tokens(system_prompt, first + second, tools);
    chat_tokens(system_prompt, first, tools);
    chat_tokens(Seq::empty(), second, Seq::empty());
    token_sum_splits(a, b);
}

/// The order of messages does not matter to the count of a chat.
pub proof fn order_of_messages_does_not_matter(
    entries: Seq<CacheEntry>,
    other_entries: Seq<CacheEntry>,
    texts: Set<Seq<char>>,
    system_prompt: Seq<char>,
    messages: Seq<Message>,
    other: Seq<Message>,
    tools: Seq<Tool>,
)
    requires
        messages.to_multiset() == other.to_multiset(),
        faithful(entries, texts),
        faithful(other_entries, texts),
        all_among(chat_texts(system_prompt, messages, tools), texts),
        all_among(chat_texts(system_prompt, other, tools), texts),
        all_countable(entries, chat_texts(system_prompt, messages, tools)),
        all_countable(other_entries, chat_texts(system_prompt, other, tools)),
    ensures
        chat_count(entries, system_prompt, messages, tools) == chat_count(
            other_entries,
            system_prompt,
            other,
            tools,
        ),
{
    sum_is_token_sum(entries, texts, chat_texts(system_prompt, messages, tools));
    sum_is_token_sum(other_entries, texts, chat_texts(system_prompt, other, tools));
    chat_tokens(system_prompt, messages, tools);
    chat_tokens(system_prompt, other, tools);
    messages_weigh(messages);
    messages_weigh(other);
    order_does_not_matter(messages, other, |message: Message| message_weight(message));
}

/// A message more never lowers the count of a chat.
pub proof fn a_message_more_never_lowers_the_count(
    entries: Seq<CacheEntry>,
    more_entries: Seq<CacheEntry>,
    texts: Set<Seq<char>>,
    system_prompt: Seq<char>,
    messages: Seq<Message>,
    message: Message,
    tools: Seq<Tool>,
)
    requires
        faithful(entries, texts),
        faithful(more_entries, texts),
        all_among(chat_texts(system_prompt, messages, tools), texts),
        all_among(chat_texts(system_prompt, messages.push(message), tools), texts),
        all_countable(entries, chat_texts(system_prompt, messages, tools)),
        all_countable(more_entries, chat_texts(system_prompt, messages.push(message), tools)),
    ensures
        chat_count(entries, system_prompt, messages, tools) <= chat_count(
            more_entries,
            system_prompt,
            messages.push(message),
            tools,
        ),
{
    sum_is_token_sum(entries, texts, chat_texts(system_prompt, messages, tools));
    sum_is_token_sum(more_entries, texts, chat_texts(system_prompt, messages.push(message), tools));
    chat_tokens(system_prompt, messages, tools);
    chat_tokens(system_prompt, messages.push(message), tools);
    messages_weigh(messages);
    messages_weigh(messages.push(message));
    assert(messages.push(message).drop_last() =~= messages);
}

} // verus!
