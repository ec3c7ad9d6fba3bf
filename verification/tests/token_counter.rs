use goose::budget::TRUNCATION_MARKER;
use goose::conversation::{Message, MessageContent, MessageMetadata, Role, Tool, ToolCall, ToolRequest};
use goose::token_counter::{
    create_token_counter, TokenCacheKey, TokenCounter, MAX_TOKEN_CACHE_SIZE,
};
use std::sync::{Arc, Mutex};

fn tokens(text: &str) -> usize {
    tiktoken_rs::o200k_base_singleton().encode_with_special_tokens(text).len()
}

fn object(text: &str) -> serde_json::Map<String, serde_json::Value> {
    serde_json::from_str(text).unwrap()
}

fn tool(name: &str, description: Option<&str>, schema: &str) -> Tool {
    Tool {
        name: name.to_string(),
        description: description.map(|d| d.to_string()),
        input_schema: object(schema),
    }
}

fn message(content: Vec<MessageContent>, agent_visible: bool) -> Message {
    Message { role: Role::User, content, metadata: MessageMetadata { agent_visible } }
}

#[test]
fn test_token_caching() {
    let mut counter = create_token_counter().unwrap();

    let text = "This is a test for caching functionality";

    let count1 = counter.count_tokens(text);
    assert_eq!(counter.cache_size(), 1);

    let count2 = counter.count_tokens(text);
    assert_eq!(count1, count2);
    assert_eq!(counter.cache_size(), 1);

    let count3 = counter.count_tokens("Different text");
    assert_eq!(counter.cache_size(), 2);
    assert_ne!(count1, count3);
}

#[test]
fn test_cache_management() {
    let mut counter = create_token_counter().unwrap();

    counter.count_tokens("First text");
    counter.count_tokens("Second text");
    counter.count_tokens("Third text");

    assert_eq!(counter.cache_size(), 3);

    counter.clear_cache();
    assert_eq!(counter.cache_size(), 0);

    let count = counter.count_tokens("First text");
    assert!(count > 0);
    assert_eq!(counter.cache_size(), 1);
}

#[test]
fn test_concurrent_token_counter_creation() {
    let runtime = tokio::runtime::Builder::new_multi_thread().build().unwrap();
    let handles: Vec<_> = (0..10)
        .map(|_| runtime.spawn(async { create_token_counter().unwrap() }))
        .collect();
    let mut counters: Vec<TokenCounter> =
        handles.into_iter().map(|handle| runtime.block_on(handle).unwrap()).collect();

    let text = "Test concurrent creation";
    let expected_count = counters[0].count_tokens(text);

    for counter in counters.iter_mut() {
        assert_eq!(counter.count_tokens(text), expected_count);
    }
}

#[test]
fn test_cache_eviction_behavior() {
    let mut counter = create_token_counter().unwrap();

    let mut cached_texts = Vec::new();
    for i in 0..=MAX_TOKEN_CACHE_SIZE {
        let text = format!("Test string number {}", i);
        counter.count_tokens(&text);
        cached_texts.push(text);
    }

    assert_eq!(counter.cache_size(), MAX_TOKEN_CACHE_SIZE);

    let recent_text = &cached_texts[cached_texts.len() - 1];
    let start_size = counter.cache_size();

    counter.count_tokens(recent_text);
    assert_eq!(counter.cache_size(), start_size);
}

#[test]
fn test_concurrent_cache_operations() {
    let runtime = tokio::runtime::Builder::new_multi_thread().build().unwrap();
    let counter = Arc::new(Mutex::new(create_token_counter().unwrap()));

    let handles: Vec<_> = (0..20)
        .map(|i| {
            let counter_clone = counter.clone();
            runtime.spawn(async move {
                let text = format!("Concurrent test {}", i % 5);
                counter_clone.lock().unwrap().count_tokens(&text)
            })
        })
        .collect();

    let results: Vec<usize> =
        handles.into_iter().map(|handle| runtime.block_on(handle).unwrap()).collect();

    for result in results {
        assert!(result > 0);
    }

    assert!(counter.lock().unwrap().cache_size() > 0);
    assert!(counter.lock().unwrap().cache_size() <= MAX_TOKEN_CACHE_SIZE);
}

#[test]
fn counts_are_those_of_the_tokenizer() {
    let mut counter = TokenCounter::new().unwrap();
    for text in ["", "hello world", "a<|endoftext|>b", "日本語のテキスト", "  \n\n  x"] {
        assert_eq!(counter.count_tokens(text), tokens(text));
        assert_eq!(counter.try_count_tokens(text), Some(tokens(text)));
    }
    assert_eq!(counter.count_tokens("hello world"), 2);
    assert_eq!(counter.count_tokens(""), 0);
}

#[test]
fn key_holds_length_and_digest() {
    for text in ["", "abc", "naïve"] {
        let key = TokenCacheKey::from_text(text);
        assert_eq!(key.len, text.len());
        assert_eq!(&key.hash, blake3::hash(text.as_bytes()).as_bytes());
    }
}

#[test]
fn cached_count_survives_fewer_texts_than_fit() {
    let mut counter = TokenCounter::new().unwrap();
    let count = counter.count_tokens("kept");
    for i in 1..MAX_TOKEN_CACHE_SIZE {
        counter.count_tokens(&format!("other {}", i));
    }
    assert_eq!(counter.cache_size(), MAX_TOKEN_CACHE_SIZE);
    assert_eq!(counter.count_tokens("kept"), count);
    assert_eq!(counter.cache_size(), MAX_TOKEN_CACHE_SIZE);
}

#[test]
fn no_tools_take_up_nothing() {
    let mut counter = TokenCounter::new().unwrap();
    assert_eq!(counter.count_tokens_for_tools(&[]), 0);
    assert_eq!(counter.try_count_tokens_for_tools(&[]), Some(0));
    assert_eq!(counter.cache_size(), 0);
}

#[test]
fn tool_without_properties() {
    let mut counter = TokenCounter::new().unwrap();
    let tools = [tool("ls", Some("List files..."), "{}")];
    assert_eq!(counter.count_tokens_for_tools(&tools), 7 + tokens("ls:List files") + 12);
    let bare = [tool("ls", None, "{\"properties\": {}}"), tool("cd", None, "{\"properties\": []}")];
    assert_eq!(counter.count_tokens_for_tools(&bare), 7 + tokens("ls:") + 7 + tokens("cd:") + 12);
}

#[test]
fn tool_with_properties_and_enum() {
    let mut counter = TokenCounter::new().unwrap();
    let schema = "{\"properties\": {\
        \"unit\": {\"type\": \"string\", \"description\": \"The unit.\", \"enum\": [\"C\", 3, \"F\"]},\
        \"city\": {\"type\": \"string\"},\
        \"none\": {\"enum\": []},\
        \"odd\": 5}}";
    let tools = [tool("weather", Some("Weather."), schema)];
    let expected = 7
        + tokens("weather:Weather")
        + 3
        + 3 + tokens("city:string:")
        + 3 + tokens("none::") - 3
        + 3 + tokens("odd::")
        + 3 + tokens("unit:string:The unit") - 3 + 3 + tokens("C") + 3 + tokens("F")
        + 12;
    assert_eq!(counter.count_tokens_for_tools(&tools), expected);
    assert_eq!(counter.try_count_tokens_for_tools(&tools), Some(expected));
}

#[test]
fn chat_counts_what_the_agent_sees() {
    let mut counter = TokenCounter::new().unwrap();
    assert_eq!(counter.count_chat_tokens("", &[], &[]), 3);
    assert_eq!(counter.count_chat_tokens("Be brief.", &[], &[]), tokens("Be brief.") + 4 + 3);

    let call = ToolCall { name: "ls".to_string(), arguments: Some(object("{\"path\": \"/\"}")) };
    let messages = vec![
        message(vec![MessageContent::Text("hello".to_string())], true),
        message(vec![MessageContent::Text("unseen".to_string())], false),
        message(
            vec![
                MessageContent::ToolRequest(ToolRequest { id: "1".to_string(), tool_call: Ok(call) }),
                MessageContent::ToolRequest(ToolRequest {
                    id: "2".to_string(),
                    tool_call: Err("unreadable".to_string()),
                }),
                MessageContent::ToolResponse(Some("etc".to_string())),
                MessageContent::ToolResponse(None),
                MessageContent::Other,
            ],
            true,
        ),
    ];
    let request = "1:ls:Some({\"path\": String(\"/\")})";
    let expected = tokens("Be brief.") + 4 + 4 + tokens("hello") + 4 + tokens(request) + tokens("etc") + 3;
    assert_eq!(counter.count_chat_tokens("Be brief.", &messages, &[]), expected);
    assert_eq!(counter.try_count_chat_tokens("Be brief.", &messages, &[]), Some(expected));

    let tools = [tool("ls", None, "{}")];
    let with_tools = expected + 7 + tokens("ls:") + 12;
    assert_eq!(counter.count_chat_tokens("Be brief.", &messages, &tools), with_tools);

    let resources = vec!["first resource".to_string(), "second".to_string()];
    let all = with_tools + tokens("first resource") + tokens("second");
    assert_eq!(counter.count_everything("Be brief.", &messages, &tools, &resources), all);
    assert_eq!(counter.try_count_everything("Be brief.", &messages, &tools, &resources), Some(all));
    assert_eq!(counter.count_everything("Be brief.", &messages, &tools, &[]), with_tools);
}

#[test]
fn text_within_budget_stays() {
    let mut counter = TokenCounter::new().unwrap();
    let text = "a short text";
    assert_eq!(counter.truncate_to_token_budget_middle_out(text, tokens(text)), text);
    assert_eq!(counter.truncate_to_token_budget_middle_out("", 0), "");
    assert_eq!(counter.cache_size(), 0);
}

#[test]
fn no_budget_leaves_nothing() {
    let mut counter = TokenCounter::new().unwrap();
    assert_eq!(counter.truncate_to_token_budget_middle_out("a short text", 0), "");
    assert_eq!(
        counter.try_truncate_to_token_budget_middle_out("a short text", 0),
        Some(String::new())
    );
}

#[test]
fn truncation_keeps_both_ends() {
    let mut counter = TokenCounter::new().unwrap();
    let mut text = String::from("BEGIN");
    for i in 0..500 {
        text.push_str(&format!(" word{}", i));
    }
    text.push_str(" END");
    let marker = tokens(TRUNCATION_MARKER);
    for budget in [marker + 1, marker + 2, marker + 31, 200, 500] {
        let cut = counter.truncate_to_token_budget_middle_out(&text, budget);
        assert!(tokens(&cut) <= budget);
        if let Some((head, tail)) = cut.split_once(TRUNCATION_MARKER) {
            assert!(text.starts_with(head));
            assert!(text.ends_with(tail));
            assert!(tail.ends_with("END"));
        } else {
            assert!(text.starts_with(&cut));
        }
        let again = counter.truncate_to_token_budget_middle_out(&cut, budget);
        assert_eq!(again, cut);
    }
    let cut = counter.truncate_to_token_budget_middle_out(&text, 200);
    assert!(cut.starts_with("BEGIN word0"));
    assert!(cut.contains("[... content truncated to fit context budget ...]"));
}

#[test]
fn truncation_without_room_for_the_marker_keeps_the_head() {
    let mut counter = TokenCounter::new().unwrap();
    let text = "one two three four five six seven eight nine ten eleven twelve thirteen fourteen";
    let cut = counter.truncate_to_token_budget_middle_out(text, 3);
    assert_eq!(cut, "one two three");
    assert_eq!(
        counter.try_truncate_to_token_budget_middle_out(text, 3),
        Some("one two three".to_string())
    );
}

#[test]
fn truncation_in_the_middle_of_a_character_fits() {
    let mut counter = TokenCounter::new().unwrap();
    let text = "👨‍👩‍👧‍👦𝔘𝔫𝔦𝔠𝔬𝔡𝔢".repeat(20);
    for budget in 1..40 {
        let cut = counter.truncate_to_token_budget_middle_out(&text, budget);
        assert!(tokens(&cut) <= budget);
    }
}

#[test]
fn tokens_stand_for_the_bytes_of_the_text() {
    let bpe = tiktoken_rs::o200k_base_singleton();
    let mut counter = TokenCounter::new().unwrap();
    let mut block = String::new();
    for (i, c) in ('\u{0}'..='\u{2ffff}').enumerate() {
        block.push(c);
        if i % 7 == 0 {
            block.push_str(" 1\r\n  a");
        }
        if block.len() > 4000 {
            let tokens = bpe.encode_with_special_tokens(&block);
            assert_eq!(bpe.decode_bytes(&tokens).unwrap(), block.as_bytes());
            assert!(tokens.len() <= block.len());
            assert_eq!(counter.count_tokens(&block), tokens.len());
            block.clear();
        }
    }
}

#[test]
fn only_the_empty_text_has_no_tokens() {
    let mut counter = TokenCounter::new().unwrap();
    for text in ["", " ", "a", "\u{0}", "日", "<|endoftext|>", "some more words"] {
        let count = counter.count_tokens(text);
        assert_eq!(count == 0, text.is_empty());
        assert!(count <= text.len());
    }
}

#[test]
fn counts_of_tools_add_up() {
    let mut counter = TokenCounter::new().unwrap();
    let list = || tool("ls", Some("List files"), "{\"properties\": {\"path\": {\"type\": \"string\"}}}");
    let weather = || tool("weather", Some("Tell the weather"), "{}");
    let first = counter.count_tokens_for_tools(&[list()]);
    let second = counter.count_tokens_for_tools(&[weather()]);
    let both = counter.count_tokens_for_tools(&[list(), weather()]);
    assert_eq!(both + 12, first + second);
    assert_eq!(counter.count_tokens_for_tools(&[weather(), list()]), both);
    let mut other = TokenCounter::new().unwrap();
    assert_eq!(other.count_tokens_for_tools(&[weather(), list()]), both);
}

#[test]
fn details_of_tools_do_not_count() {
    let mut counter = TokenCounter::new().unwrap();
    let schema = |description: &str, values: &str| {
        format!(
            "{{\"properties\": {{\"unit\": {{\"description\": \"{}\", \"enum\": [{}]}}}}}}",
            description, values
        )
    };
    let plain = [tool("t", Some("What for"), &schema("The unit", "\"C\", \"F\""))];
    let dotted = [tool("t", Some("What for..."), &schema("The unit.", "1, \"C\", null, \"F\", []"))];
    let count = counter.count_tokens_for_tools(&plain);
    let size = counter.cache_size();
    assert_eq!(counter.count_tokens_for_tools(&dotted), count);
    assert_eq!(counter.cache_size(), size);

    let bare = counter.count_tokens_for_tools(&[tool("t", None, "{}")]);
    for schema in ["{\"properties\": {}}", "{\"properties\": 3}", "{\"properties\": null}"] {
        assert_eq!(counter.count_tokens_for_tools(&[tool("t", Some(""), schema)]), bare);
        assert_eq!(counter.count_tokens_for_tools(&[tool("t", Some(".."), schema)]), bare);
    }
}

#[test]
fn counts_of_chats_add_up() {
    let mut counter = TokenCounter::new().unwrap();
    let text = |text: &str| message(vec![MessageContent::Text(text.to_string())], true);
    let tools = [tool("ls", None, "{}")];
    let whole = counter.count_chat_tokens("Be brief.", &[text("hello"), text("bye now")], &tools);
    let first = counter.count_chat_tokens("Be brief.", &[text("hello")], &tools);
    let second = counter.count_chat_tokens("", &[text("bye now")], &[]);
    assert_eq!(whole + 3, first + second);
    let swapped = counter.count_chat_tokens("Be brief.", &[text("bye now"), text("hello")], &tools);
    assert_eq!(swapped, whole);
    assert!(first <= whole);
}

#[test]
fn cut_text_is_counted_as_within_the_budget() {
    let mut counter = TokenCounter::new().unwrap();
    let text = "words and 日本語 and more words ".repeat(40);
    for budget in 0..60 {
        let cut = counter.truncate_to_token_budget_middle_out(&text, budget);
        let size = counter.cache_size();
        assert!(counter.count_tokens(&cut) <= budget);
        assert!(cut.is_empty() || counter.cache_size() == size);
        assert_eq!(
            TokenCounter::new().unwrap().try_truncate_to_token_budget_middle_out(&text, budget),
            Some(cut)
        );
    }
}

#[test]
fn whole_characters_of_both_ends_stay() {
    let mut counter = TokenCounter::new().unwrap();
    let text = "日本語のテキスト、".repeat(200);
    for budget in 20..80 {
        let cut = counter.truncate_to_token_budget_middle_out(&text, budget);
        let (head, tail) = match cut.split_once(TRUNCATION_MARKER) {
            Some(ends) => ends,
            None => (cut.as_str(), ""),
        };
        assert!(text.starts_with(head) || head.contains('\u{fffd}'));
        assert!(text.ends_with(tail) || tail.contains('\u{fffd}'));
    }
}

#[test]
fn kept_counts_serve_again() {
    let mut counter = TokenCounter::new().unwrap();
    let messages = [message(vec![MessageContent::Text("hello there".to_string())], true)];
    let expected = tokens("Be brief.") + 4 + tokens("hello there") + 4 + 3;
    assert_eq!(counter.try_count_chat_tokens("Be brief.", &messages, &[]), Some(expected));
    let size = counter.cache_size();
    assert_eq!(counter.try_count_chat_tokens("Be brief.", &messages, &[]), Some(expected));
    assert_eq!(counter.cache_size(), size);
    for i in 0..MAX_TOKEN_CACHE_SIZE {
        counter.count_tokens(&format!("filler {}", i));
    }
    assert_eq!(counter.cache_size(), MAX_TOKEN_CACHE_SIZE);
    assert_eq!(counter.try_count_chat_tokens("Be brief.", &messages, &[]), Some(expected));
    assert_eq!(counter.cache_size(), MAX_TOKEN_CACHE_SIZE);
}

#[test]
fn order_of_resources_does_not_count() {
    let resources = vec!["first resource".to_string(), "second".to_string(), "third one".to_string()];
    let reversed: Vec<String> = resources.iter().rev().cloned().collect();
    let mut counter = TokenCounter::new().unwrap();
    let count = counter.count_everything("Be brief.", &[], &[], &resources);
    assert_eq!(counter.count_everything("Be brief.", &[], &[], &reversed), count);
    let mut other = TokenCounter::new().unwrap();
    assert_eq!(other.count_everything("Be brief.", &[], &[], &reversed), count);
}

#[test]
fn only_texts_beyond_the_budget_are_cut() {
    let mut counter = TokenCounter::new().unwrap();
    let text = "one two three four five six seven eight nine ten ".repeat(5);
    let len = tokens(&text);
    for budget in 0..len + 3 {
        let cut = counter.truncate_to_token_budget_middle_out(&text, budget);
        assert_eq!(cut == text, len <= budget);
        let size = counter.cache_size();
        for larger in [budget, budget + 1, budget + 100] {
            assert_eq!(counter.truncate_to_token_budget_middle_out(&cut, larger), cut);
        }
        assert_eq!(counter.cache_size(), size);
    }
}

#[test]
fn tokens_of_a_text_decode_to_it() {
    let bpe = tiktoken_rs::o200k_base_singleton();
    let counter = TokenCounter::new().unwrap();
    for text in ["", "hello world", "a<|endoftext|>b", "日本語のテキスト", "👨‍👩‍👧‍👦 \r\n"] {
        assert_eq!(counter.decode_lossy(&bpe.encode_with_special_tokens(text)), text);
    }
    assert_eq!(counter.decode_lossy(&[]), "");
    assert_eq!(counter.decode_lossy(&[u32::MAX]), "");
    let family = bpe.encode_with_special_tokens("👨‍👩‍👧‍👦𝔘");
    assert!((1..family.len()).any(|n| counter.decode_lossy(&family[..n]).contains('\u{fffd}')));
}

#[test]
fn longest_head_within_the_budget() {
    let bpe = tiktoken_rs::o200k_base_singleton();
    let mut counter = TokenCounter::new().unwrap();
    let text = "one two three four five six";
    let all = bpe.encode_with_special_tokens(text);
    assert_eq!(counter.decode_prefix_within_budget(&all, 3), "one two three");
    assert_eq!(counter.decode_prefix_within_budget(&all, 0), "");
    assert_eq!(counter.decode_prefix_within_budget(&all, all.len()), text);
    assert_eq!(counter.decode_prefix_within_budget(&all, all.len() + 9), text);
    assert_eq!(counter.decode_prefix_within_budget(&[], 5), "");
}
