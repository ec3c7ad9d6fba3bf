//! Counts tokens, and keeps the counts of the texts that were used last.

use vstd::prelude::*;
use vstd::utf8::encode_utf8;

use crate::cache::{
    cached_count, distinct_keys, has_key, key_index, key_index_unique, lru_capacity, lru_clear, lru_contains,
    lru_entries, lru_get, lru_len, lru_new, lru_put, stored, stored_keeps, touched, touched_front,
    touched_keeps,
    CacheEntry, CacheKey,
};
use crate::conversation::{Message, Tool};
use crate::prompt::{
    chat_overhead, chat_overhead_nonnegative, chat_texts, everything_texts, held, tools_overhead,
    tools_overhead_nonnegative, tools_texts, Parts,
};
use crate::text::texts_of;
use crate::tokenizer::{
    blake3_digest, decoded_bytes, digest, encode, o200k_tokens, token_count, tokenizable,
};

verus! {

/// How many counts are kept.
pub const MAX_TOKEN_CACHE_SIZE: usize = 1_024;

/// What the count of a text is kept under.
#[derive(Debug, Clone, Copy)]
pub struct TokenCacheKey {
    pub len: usize,
    pub hash: [u8; 32],
}

/// The key of a text: its length in bytes and its digest.
pub open spec fn token_key(text: Seq<char>) -> CacheKey {
    (encode_utf8(text).len() as usize, blake3_digest(encode_utf8(text)))
}

impl TokenCacheKey {
    /// The key of a text.
    pub fn from_text(text: &str) -> (res: Self)
        ensures
            (res.len, res.hash@) == token_key(text@),
            res.len == encode_utf8(text@).len(),
            res.hash@ == blake3_digest(encode_utf8(text@)),
    {
        let bytes = text.as_bytes();
        TokenCacheKey { len: bytes.len(), hash: digest(bytes) }
    }
}

/// Whether a count can be given for a text: it is kept, or the tokenizer takes
/// the text.
pub open spec fn countable(entries: Seq<CacheEntry>, text: Seq<char>) -> bool {
    has_key(entries, token_key(text)) || tokenizable(text)
}

/// The count that is given for a text: the one kept under its key, else the
/// number of its tokens.
pub open spec fn reported(entries: Seq<CacheEntry>, text: Seq<char>) -> nat {
    if has_key(entries, token_key(text)) {
        cached_count(entries, token_key(text)) as nat
    } else {
        token_count(text)
    }
}

/// What is kept once a text was counted.
pub open spec fn entries_after(entries: Seq<CacheEntry>, text: Seq<char>) -> Seq<CacheEntry> {
    if has_key(entries, token_key(text)) {
        touched(entries, token_key(text))
    } else {
        stored(
            entries,
            MAX_TOKEN_CACHE_SIZE as nat,
            token_key(text),
            token_count(text) as usize,
        )
    }
}

/// Whether counts can be given for texts, one after another.
pub open spec fn all_countable(entries: Seq<CacheEntry>, texts: Seq<Seq<char>>) -> bool
    decreases texts.len(),
{
    texts.len() == 0 || {
        &&& countable(entries, texts[0])
        &&& all_countable(entries_after(entries, texts[0]), texts.drop_first())
    }
}

/// The sum of the counts that are given for texts, one after another.
pub open spec fn reported_sum(entries: Seq<CacheEntry>, texts: Seq<Seq<char>>) -> nat
    decreases texts.len(),
{
    if texts.len() == 0 {
        0
    } else {
        reported(entries, texts[0]) + reported_sum(
            entries_after(entries, texts[0]),
            texts.drop_first(),
        )
    }
}

/// What is kept once texts were counted, one after another.
pub open spec fn entries_after_all(entries: Seq<CacheEntry>, texts: Seq<Seq<char>>) -> Seq<CacheEntry>
    decreases texts.len(),
{
    if texts.len() == 0 {
        entries
    } else {
        entries_after_all(entries_after(entries, texts[0]), texts.drop_first())
    }
}

/// The count that is given for tools: the sum of the counts for their texts and
/// of their frame.
pub open spec fn tools_count(entries: Seq<CacheEntry>, tools: Seq<Tool>) -> int {
    tools_overhead(tools) + reported_sum(entries, tools_texts(tools))
}

/// The count that is given for a chat: the sum of the counts for its texts and of
/// its frame.
pub open spec fn chat_count(
    entries: Seq<CacheEntry>,
    system_prompt: Seq<char>,
    messages: Seq<Message>,
    tools: Seq<Tool>,
) -> int {
    chat_overhead(system_prompt, messages, tools) + reported_sum(
        entries,
        chat_texts(system_prompt, messages, tools),
    )
}

/// The count that is given for a chat and its resources: the sum of the counts for
/// their texts and of the frame of the chat.
pub open spec fn everything_count(
    entries: Seq<CacheEntry>,
    system_prompt: Seq<char>,
    messages: Seq<Message>,
    tools: Seq<Tool>,
    resources: Seq<String>,
) -> int {
    chat_overhead(system_prompt, messages, tools) + reported_sum(
        entries,
        everything_texts(system_prompt, messages, tools, resources),
    )
}

/// The bytes that texts have in all.
pub open spec fn byte_sum(texts: Seq<Seq<char>>) -> nat
    decreases texts.len(),
{
    if texts.len() == 0 {
        0
    } else {
        encode_utf8(texts[0]).len() + byte_sum(texts.drop_first())
    }
}

/// Whether the count of a text is kept and stays so while texts are counted, since
/// there is room for all of theirs.
pub open spec fn stays_kept(entries: Seq<CacheEntry>, texts: Seq<Seq<char>>, text: Seq<char>) -> bool {
    has_key(entries, token_key(text)) && entries.len() + texts.len() <= MAX_TOKEN_CACHE_SIZE
}

/// Whether texts and a frame can be counted for sure: the count of each text stays
/// kept or the tokenizer takes the text, and the machine can hold a token for each
/// byte.
pub open spec fn within_reach(entries: Seq<CacheEntry>, texts: Seq<Seq<char>>, overhead: int) -> bool {
    &&& forall|i: int|
        0 <= i < texts.len() ==> tokenizable(#[trigger] texts[i]) || stays_kept(
            entries,
            texts,
            texts[i],
        )
    &&& overhead + byte_sum(texts) <= usize::MAX
}

/// Whether a machine can hold a text and the number of its tokens.
pub open spec fn holdable(text: Seq<char>) -> bool {
    encode_utf8(text).len() <= usize::MAX && token_count(text) <= usize::MAX
}

/// An entry with the key and the number of tokens of some text.
pub open spec fn counted_for_some_text(entry: CacheEntry) -> bool {
    exists|text: Seq<char>|
        holdable(text) && #[trigger] token_key(text) == entry.0 && tokenizable(text)
            && token_count(text) == entry.1
}

/// An entry that some text was counted for, with no more tokens than bytes, and
/// with none only for the empty text.
pub open spec fn genuine(entry: CacheEntry) -> bool {
    &&& entry.1 <= entry.0.0
    &&& entry.1 == 0 ==> entry.0.0 == 0
    &&& counted_for_some_text(entry)
}

/// What holds of the entries at any time: each is genuine, none has the key of
/// another, and there are no more than are to be kept.
pub open spec fn valid_entries(entries: Seq<CacheEntry>) -> bool {
    &&& entries.len() <= MAX_TOKEN_CACHE_SIZE
    &&& distinct_keys(entries)
    &&& forall|i: int| 0 <= i < entries.len() ==> genuine(#[trigger] entries[i])
}

/// A text has no more tokens than bytes, and tokens if it has bytes.
pub open spec fn fairly_tokenized(text: Seq<char>) -> bool {
    &&& token_count(text) <= encode_utf8(text).len()
    &&& token_count(text) == 0 ==> encode_utf8(text).len() == 0
}

/// Counts the tokens of texts under `o200k_base`.
pub struct TokenCounter {
    token_cache: lru::LruCache<(usize, [u8; 32]), usize>,
}

impl View for TokenCounter {
    type V = Seq<CacheEntry>;

    /// The counts that are kept, the last used first.
    closed spec fn view(&self) -> Seq<CacheEntry> {
        lru_entries(self.token_cache)
    }
}

/// Only the empty text has no bytes.
proof fn bytes_of_empty_text(text: Seq<char>)
    ensures
        encode_utf8(text).len() == 0 <==> text.len() == 0,
{
    if text.len() > 0 {
        vstd::utf8::encode_utf8_first_scalar(text);
    }
}

/// The number of tokens of a text is fair where they stand for its bytes.
proof fn tokens_are_fair(text: Seq<char>)
    requires
        token_count(text) <= encode_utf8(text).len(),
        o200k_tokens(text) matches Some(tokens) && decoded_bytes(tokens) == Some(encode_utf8(text)),
    ensures
        fairly_tokenized(text),
{
}

proof fn counting_keeps(entries: Seq<CacheEntry>, text: Seq<char>)
    requires
        valid_entries(entries),
        countable(entries, text),
        encode_utf8(text).len() <= usize::MAX,
        has_key(entries, token_key(text)) || fairly_tokenized(text),
    ensures
        valid_entries(entries_after(entries, text)),
        reported(entries, text) <= encode_utf8(text).len(),
        reported(entries, text) == 0 <==> text.len() == 0,
        countable(entries_after(entries, text), text),
        reported(entries_after(entries, text), text) == reported(entries, text),
{
    broadcast use vstd::seq_lib::group_to_multiset_ensures;

    let key = token_key(text);
    let after = entries_after(entries, text);
    bytes_of_empty_text(text);
    if has_key(entries, key) {
        touched_keeps(entries, key);
        let i = key_index(entries, key);
        assert(genuine(entries[i]));
        assert forall|j: int| 0 <= j < after.len() implies genuine(#[trigger] after[j]) by {
            assert(after.contains(after[j]));
            assert(after.to_multiset().count(after[j]) > 0);
            assert(entries.contains(after[j]));
        }
    } else {
        stored_keeps(entries, MAX_TOKEN_CACHE_SIZE as nat, key, token_count(text) as usize);
        assert forall|j: int| 0 <= j < after.len() implies genuine(#[trigger] after[j]) by {
            if j == 0 {
                assert(token_key(text) == after[0].0);
            } else {
                assert(after[j] == entries[j - 1]);
            }
        }
    }
    key_index_unique(after, 0);
}

proof fn reach_suffices(entries: Seq<CacheEntry>, texts: Seq<Seq<char>>)
    requires
        valid_entries(entries),
        forall|i: int|
            0 <= i < texts.len() ==> tokenizable(#[trigger] texts[i]) && fairly_tokenized(texts[i])
                || stays_kept(entries, texts, texts[i]),
        byte_sum(texts) <= usize::MAX,
    ensures
        all_countable(entries, texts),
        reported_sum(entries, texts) <= byte_sum(texts),
    decreases texts.len(),
{
    if texts.len() > 0 {
        let text = texts[0];
        let rest = texts.drop_first();
        let after = entries_after(entries, text);
        assert(tokenizable(text) && fairly_tokenized(text) || stays_kept(entries, texts, text));
        counting_keeps(entries, text);
        counting_adds_new_texts(entries, text);
        assert forall|i: int| 0 <= i < rest.len() implies tokenizable(#[trigger] rest[i])
            && fairly_tokenized(rest[i]) || stays_kept(after, rest, rest[i]) by {
            assert(rest[i] == texts[i + 1]);
            if stays_kept(entries, texts, rest[i]) {
                let k = key_index(entries, token_key(rest[i]));
                entry_moves_back_by_one(entries, k, text);
                let m = choose|m: int|
                    0 <= m <= k + 1 && m < after.len() && #[trigger] after[m] == entries[k];
                assert(after[m].0 == token_key(rest[i]));
            }
        }
        reach_suffices(after, rest);
    }
}

impl TokenCounter {
    /// The cache was made for as many counts as are to be kept.
    pub closed spec fn has_room(&self) -> bool {
        lru_capacity(self.token_cache) == MAX_TOKEN_CACHE_SIZE
    }

    /// What holds of a counter at any time.
    pub open spec fn wf(&self) -> bool {
        &&& self.has_room()
        &&& valid_entries(self@)
    }

    /// A counter that keeps no count yet.
    pub fn new() -> (res: Result<Self, String>)
        ensures
            res is Ok,
            res->Ok_0.wf(),
            res->Ok_0@.len() == 0,
    {
        Ok(TokenCounter { token_cache: lru_new(MAX_TOKEN_CACHE_SIZE) })
    }

    /// Whether texts and a frame can be counted for sure. A text whose count stays
    /// kept is not tokenized for that.
    fn is_within_reach(&self, parts: &Parts) -> (res: bool)
        requires
            self.wf(),
        ensures
            forall|overhead: int|
                parts.overhead == held(overhead) && 0 <= overhead ==> res
                    == #[trigger] within_reach(self@, parts.spec_texts(), overhead),
            res ==> forall|i: int|
                0 <= i < parts.spec_texts().len() ==> tokenizable(#[trigger] parts.spec_texts()[i])
                    && fairly_tokenized(parts.spec_texts()[i]) || stays_kept(
                    self@,
                    parts.spec_texts(),
                    parts.spec_texts()[i],
                ),
    {
        let ghost texts = parts.spec_texts();
        let mut sum: usize = match parts.overhead {
            Some(overhead) => overhead,
            None => {
                return false;
            },
        };
        let ghost start = sum as int;
        let room = parts.texts.len() <= MAX_TOKEN_CACHE_SIZE - lru_len(&self.token_cache);
        let mut i: usize = 0;
        assert(texts.skip(0) =~= texts);
        while i < parts.texts.len()
            invariant
                i <= parts.texts@.len(),
                texts == parts.spec_texts(),
                room == (self@.len() + texts.len() <= MAX_TOKEN_CACHE_SIZE),
                start + byte_sum(texts) == sum + byte_sum(texts.skip(i as int)),
                parts.overhead == Some(start as usize),
                0 <= start <= usize::MAX,
                forall|j: int|
                    0 <= j < i ==> tokenizable(#[trigger] texts[j]) && fairly_tokenized(texts[j])
                        || stays_kept(self@, texts, texts[j]),
            decreases parts.texts@.len() - i,
        {
            let text = parts.texts[i].as_str();
            assert(texts[i as int] == text@);
            assert(texts.skip(i as int)[0] == text@);
            assert(texts.skip(i as int).drop_first() =~= texts.skip(i + 1));
            let key = TokenCacheKey::from_text(text);
            if !(room && lru_contains(&self.token_cache, &(key.len, key.hash))) {
                if encode(text).is_err() {
                    assert(!tokenizable(texts[i as int]) && !stays_kept(self@, texts, texts[i as int]));
                    return false;
                }
                proof {
                    tokens_are_fair(text@);
                }
            }
            match sum.checked_add(text.as_bytes().len()) {
                Some(s) => {
                    sum = s;
                },
                None => {
                    return false;
                },
            }
            i += 1;
        }
        true
    }

    /// The count for a text, where one can be given.
    pub(crate) fn counted(&mut self, text: &str) -> (res: Option<usize>)
        requires
            old(self).wf(),
        ensures
            final(self).wf(),
            res is Some <==> countable(old(self)@, text@),
            res is Some ==> res->0 == reported(old(self)@, text@) && final(self)@ == entries_after(
                old(self)@,
                text@,
            ),
            res is Some ==> (res->0 == 0 <==> text@.len() == 0),
            res is Some ==> res->0 <= encode_utf8(text@).len(),
            res is Some ==> countable(final(self)@, text@) && reported(final(self)@, text@) == res->0,
            res is None ==> final(self)@ == old(self)@,
    {
        let key = TokenCacheKey::from_text(text);
        let ghost before = self@;
        let cached = lru_get(&mut self.token_cache, &(key.len, key.hash));
        if let Some(count) = cached {
            proof {
                counting_keeps(before, text@);
            }
            return Some(count);
        }
        let tokens = match encode(text) {
            Ok(tokens) => tokens,
            Err(_) => {
                return None;
            },
        };
        let count = tokens.len();
        proof {
            tokens_are_fair(text@);
            counting_keeps(before, text@);
        }
        lru_put(&mut self.token_cache, (key.len, key.hash), count);
        Some(count)
    }

    /// The count for a text: the one kept under its key, else the number of its
    /// tokens, which is then kept.
    pub fn count_tokens(&mut self, text: &str) -> (res: usize)
        requires
            old(self).wf(),
            countable(old(self)@, text@),
        ensures
            final(self).wf(),
            res == reported(old(self)@, text@),
            final(self)@ == entries_after(old(self)@, text@),
            res == 0 <==> text@.len() == 0,
            res <= encode_utf8(text@).len(),
    {
        match self.counted(text) {
            Some(count) => count,
            None => {
                // A countable text has a count.
                assert(false);
                0
            },
        }
    }

    /// The count for a text; `None` where none is kept and the tokenizer does not
    /// take the text.
    pub fn try_count_tokens(&mut self, text: &str) -> (res: Option<usize>)
        requires
            old(self).wf(),
        ensures
            final(self).wf(),
            res is Some <==> countable(old(self)@, text@),
            res is Some ==> res->0 == reported(old(self)@, text@) && final(self)@ == entries_after(
                old(self)@,
                text@,
            ),
            res is Some ==> (res->0 == 0 <==> text@.len() == 0),
            res is Some ==> res->0 <= encode_utf8(text@).len(),
            res is None ==> final(self)@ == old(self)@,
    {
        let key = TokenCacheKey::from_text(text);
        if lru_contains(&self.token_cache, &(key.len, key.hash)) || encode(text).is_ok() {
            Some(self.count_tokens(text))
        } else {
            None
        }
    }

    /// The sum of the counts for gathered texts and of the frame.
    fn count_parts(&mut self, parts: &Parts) -> (res: usize)
        requires
            old(self).wf(),
            parts.overhead is Some,
            all_countable(old(self)@, parts.spec_texts()),
            parts.overhead->0 + reported_sum(old(self)@, parts.spec_texts()) <= usize::MAX,
        ensures
            final(self).wf(),
            res == parts.overhead->0 + reported_sum(old(self)@, parts.spec_texts()),
            final(self)@ == entries_after_all(old(self)@, parts.spec_texts()),
    {
        let ghost texts = parts.spec_texts();
        let ghost total = parts.overhead->0 + reported_sum(self@, texts);
        let ghost last = entries_after_all(self@, texts);
        let mut sum: usize = match parts.overhead {
            Some(overhead) => overhead,
            None => 0,
        };
        let mut i: usize = 0;
        assert(texts.skip(0) =~= texts);
        while i < parts.texts.len()
            invariant
                i <= parts.texts@.len(),
                texts == parts.spec_texts(),
                self.wf(),
                all_countable(self@, texts.skip(i as int)),
                sum + reported_sum(self@, texts.skip(i as int)) == total,
                entries_after_all(self@, texts.skip(i as int)) == last,
                total <= usize::MAX,
            decreases parts.texts@.len() - i,
        {
            let text = parts.texts[i].as_str();
            assert(texts.skip(i as int)[0] == text@);
            assert(texts.skip(i as int).drop_first() =~= texts.skip(i + 1));
            sum += self.count_tokens(text);
            i += 1;
        }
        sum
    }

    /// The tokens that tools take up: the sum of the counts for their texts and
    /// of their frame.
    pub fn count_tokens_for_tools(&mut self, tools: &[Tool]) -> (res: usize)
        requires
            old(self).wf(),
            all_countable(old(self)@, tools_texts(tools@)),
            tools_count(old(self)@, tools@) <= usize::MAX,
        ensures
            final(self).wf(),
            res == tools_count(old(self)@, tools@),
            final(self)@ == entries_after_all(old(self)@, tools_texts(tools@)),
    {
        proof {
            tools_overhead_nonnegative(tools@);
        }
        let parts = Parts::of_tools(tools);
        self.count_parts(&parts)
    }

    /// The tokens that tools take up; `None`, with nothing counted, where they are
    /// not within reach.
    pub fn try_count_tokens_for_tools(&mut self, tools: &[Tool]) -> (res: Option<usize>)
        requires
            old(self).wf(),
        ensures
            final(self).wf(),
            res is Some <==> within_reach(
                old(self)@,
                tools_texts(tools@),
                tools_overhead(tools@),
            ),
            res is Some ==> res->0 == tools_count(old(self)@, tools@) && final(self)@
                == entries_after_all(old(self)@, tools_texts(tools@)),
            res is None ==> final(self)@ == old(self)@,
    {
        let ghost texts = tools_texts(tools@);
        let ghost overhead = tools_overhead(tools@);
        proof {
            tools_overhead_nonnegative(tools@);
        }
        let parts = Parts::of_tools(tools);
        let within = self.is_within_reach(&parts);
        assert(within == within_reach(self@, texts, overhead));
        if !within {
            return None;
        }
        proof {
            reach_suffices(self@, texts);
        }
        Some(self.count_tokens_for_tools(tools))
    }

    /// The tokens that a chat takes up: the sum of the counts for its texts and of
    /// its frame.
    pub fn count_chat_tokens(&mut self, system_prompt: &str, messages: &[Message], tools: &[Tool]) -> (res: usize)
        requires
            old(self).wf(),
            all_countable(old(self)@, chat_texts(system_prompt@, messages@, tools@)),
            chat_count(old(self)@, system_prompt@, messages@, tools@) <= usize::MAX,
        ensures
            final(self).wf(),
            res == chat_count(old(self)@, system_prompt@, messages@, tools@),
            final(self)@ == entries_after_all(
                old(self)@,
                chat_texts(system_prompt@, messages@, tools@),
            ),
    {
        proof {
            chat_overhead_nonnegative(system_prompt@, messages@, tools@);
        }
        let parts = Parts::of_chat(system_prompt, messages, tools);
        self.count_parts(&parts)
    }

    /// The tokens that a chat takes up; `None`, with nothing counted, where it is
    /// not within reach.
    pub fn try_count_chat_tokens(&mut self, system_prompt: &str, messages: &[Message], tools: &[Tool]) -> (res: Option<usize>)
        requires
            old(self).wf(),
        ensures
            final(self).wf(),
            res is Some <==> within_reach(
                old(self)@,
                chat_texts(system_prompt@, messages@, tools@),
                chat_overhead(system_prompt@, messages@, tools@),
            ),
            res is Some ==> res->0 == chat_count(old(self)@, system_prompt@, messages@, tools@)
                && final(self)@ == entries_after_all(
                old(self)@,
                chat_texts(system_prompt@, messages@, tools@),
            ),
            res is None ==> final(self)@ == old(self)@,
    {
        let ghost texts = chat_texts(system_prompt@, messages@, tools@);
        let ghost overhead = chat_overhead(system_prompt@, messages@, tools@);
        proof {
            chat_overhead_nonnegative(system_prompt@, messages@, tools@);
        }
        let parts = Parts::of_chat(system_prompt, messages, tools);
        let within = self.is_within_reach(&parts);
        assert(within == within_reach(self@, texts, overhead));
        if !within {
            return None;
        }
        proof {
            reach_suffices(self@, texts);
        }
        Some(self.count_chat_tokens(system_prompt, messages, tools))
    }

    /// The tokens that a chat and its resources take up: the sum of the counts for
    /// their texts and of the frame of the chat.
    pub fn count_everything(
        &mut self,
        system_prompt: &str,
        messages: &[Message],
        tools: &[Tool],
        resources: &[String],
    ) -> (res: usize)
        requires
            old(self).wf(),
            all_countable(
                old(self)@,
                everything_texts(system_prompt@, messages@, tools@, resources@),
            ),
            everything_count(old(self)@, system_prompt@, messages@, tools@, resources@)
                <= usize::MAX,
        ensures
            final(self).wf(),
            res == everything_count(
                old(self)@,
                system_prompt@,
                messages@,
                tools@,
                resources@,
            ),
            final(self)@ == entries_after_all(
                old(self)@,
                everything_texts(system_prompt@, messages@, tools@, resources@),
            ),
    {
        proof {
            chat_overhead_nonnegative(system_prompt@, messages@, tools@);
        }
        let parts = Parts::of_everything(system_prompt, messages, tools, resources);
        self.count_parts(&parts)
    }

    /// The tokens that a chat and its resources take up; `None`, with nothing
    /// counted, where they are not within reach.
    pub fn try_count_everything(
        &mut self,
        system_prompt: &str,
        messages: &[Message],
        tools: &[Tool],
        resources: &[String],
    ) -> (res: Option<usize>)
        requires
            old(self).wf(),
        ensures
            final(self).wf(),
            res is Some <==> within_reach(
                old(self)@,
                everything_texts(system_prompt@, messages@, tools@, resources@),
                chat_overhead(system_prompt@, messages@, tools@),
            ),
            res is Some ==> res->0 == everything_count(
                old(self)@,
                system_prompt@,
                messages@,
                tools@,
                resources@,
            ) && final(self)@ == entries_after_all(
                old(self)@,
                everything_texts(system_prompt@, messages@, tools@, resources@),
            ),
            res is None ==> final(self)@ == old(self)@,
    {
        let ghost texts = everything_texts(system_prompt@, messages@, tools@, resources@);
        let ghost overhead = chat_overhead(system_prompt@, messages@, tools@);
        proof {
            chat_overhead_nonnegative(system_prompt@, messages@, tools@);
        }
        let parts = Parts::of_everything(system_prompt, messages, tools, resources);
        let within = self.is_within_reach(&parts);
        assert(within == within_reach(self@, texts, overhead));
        if !within {
            return None;
        }
        proof {
            reach_suffices(self@, texts);
        }
        Some(self.count_everything(system_prompt, messages, tools, resources))
    }

    /// Forgets every count.
    pub fn clear_cache(&mut self)
        requires
            old(self).wf(),
        ensures
            final(self).wf(),
            final(self)@.len() == 0,
    {
        lru_clear(&mut self.token_cache);
    }

    /// How many counts are kept.
    pub fn cache_size(&self) -> (res: usize)
        requires
            self.wf(),
        ensures
            res == self@.len(),
            res <= MAX_TOKEN_CACHE_SIZE,
            res <= 1024,
    {
        lru_len(&self.token_cache)
    }
}

/// A counter that keeps no count yet.
pub fn create_token_counter() -> (res: Result<TokenCounter, String>)
    ensures
        res is Ok,
        res->Ok_0.wf(),
        res->Ok_0@.len() == 0,
{
    TokenCounter::new()
}

/// Counting a text twice gives the same count twice, and the second time nothing
/// changes.
pub proof fn counting_again_changes_nothing(entries: Seq<CacheEntry>, text: Seq<char>)
    requires
        valid_entries(entries),
        countable(entries, text),
        holdable(text),
    ensures
        countable(entries_after(entries, text), text),
        reported(entries_after(entries, text), text) == reported(entries, text),
        entries_after(entries_after(entries, text), text) == entries_after(entries, text),
{
    let key = token_key(text);
    let after = entries_after(entries, text);
    if has_key(entries, key) {
        touched_keeps(entries, key);
    } else {
        stored_keeps(entries, MAX_TOKEN_CACHE_SIZE as nat, key, token_count(text) as usize);
    }
    key_index_unique(after, 0);
    touched_front(after);
}

/// Counting a text whose count is kept leaves as many counts as before; any other
/// text adds one, as long as there is room.
pub proof fn counting_adds_new_texts(entries: Seq<CacheEntry>, text: Seq<char>)
    requires
        valid_entries(entries),
    ensures
        has_key(entries, token_key(text)) ==> entries_after(entries, text).len() == entries.len(),
        !has_key(entries, token_key(text)) && entries.len() < 1024 ==> entries_after(
            entries,
            text,
        ).len() == entries.len() + 1,
        !has_key(entries, token_key(text)) && entries.len() == 1024 ==> entries_after(
            entries,
            text,
        ).len() == 1024,
{
    let key = token_key(text);
    if has_key(entries, key) {
        touched_keeps(entries, key);
    } else {
        stored_keeps(entries, MAX_TOKEN_CACHE_SIZE as nat, key, token_count(text) as usize);
    }
}

/// In a full cache a new text takes the place of the one that was used the longest
/// time ago, and of no other.
pub proof fn counting_drops_the_least_recent(entries: Seq<CacheEntry>, text: Seq<char>)
    requires
        valid_entries(entries),
        entries.len() == 1024,
        !has_key(entries, token_key(text)),
    ensures
        !has_key(entries_after(entries, text), entries.last().0),
        forall|i: int|
            0 <= i < entries.len() - 1 ==> has_key(
                entries_after(entries, text),
                (#[trigger] entries[i]).0,
            ) && cached_count(entries_after(entries, text), entries[i].0) == entries[i].1,
{
    let key = token_key(text);
    let after = entries_after(entries, text);
    stored_keeps(entries, MAX_TOKEN_CACHE_SIZE as nat, key, token_count(text) as usize);
    let gone = entries.last().0;
    if has_key(after, gone) {
        let j = key_index(after, gone);
        if j == 0 {
            assert(entries[entries.len() - 1].0 == key);
        } else {
            assert(after[j] == entries[j - 1]);
            assert(entries[j - 1].0 != entries[entries.len() - 1].0);
        }
    }
    assert forall|i: int| 0 <= i < entries.len() - 1 implies has_key(
        after,
        (#[trigger] entries[i]).0,
    ) && cached_count(after, entries[i].0) == entries[i].1 by {
        assert(after[i + 1] == entries[i]);
        key_index_unique(after, i + 1);
    }
}

proof fn entry_moves_back_by_one(entries: Seq<CacheEntry>, i: int, text: Seq<char>)
    requires
        distinct_keys(entries),
        entries.len() <= MAX_TOKEN_CACHE_SIZE,
        0 <= i < entries.len(),
        i + 1 < MAX_TOKEN_CACHE_SIZE,
    ensures
        distinct_keys(entries_after(entries, text)),
        entries_after(entries, text).len() <= MAX_TOKEN_CACHE_SIZE,
        exists|j: int|
            0 <= j <= i + 1 && j < entries_after(entries, text).len() && #[trigger] entries_after(
                entries,
                text,
            )[j] == entries[i],
{
    let key = token_key(text);
    let after = entries_after(entries, text);
    if has_key(entries, key) {
        touched_keeps(entries, key);
        let k = key_index(entries, key);
        let j: int = if i == k { 0 } else if i < k { i + 1 } else { i };
        assert(after[j] == entries[i]);
    } else {
        stored_keeps(entries, MAX_TOKEN_CACHE_SIZE as nat, key, token_count(text) as usize);
        assert(after[i + 1] == entries[i]);
    }
}

proof fn entry_outlasts(entries: Seq<CacheEntry>, i: int, texts: Seq<Seq<char>>)
    requires
        distinct_keys(entries),
        entries.len() <= MAX_TOKEN_CACHE_SIZE,
        0 <= i < entries.len(),
        i + texts.len() < MAX_TOKEN_CACHE_SIZE,
    ensures
        has_key(entries_after_all(entries, texts), entries[i].0),
        cached_count(entries_after_all(entries, texts), entries[i].0) == entries[i].1,
    decreases texts.len(),
{
    if texts.len() == 0 {
        key_index_unique(entries, i);
    } else {
        let after = entries_after(entries, texts[0]);
        entry_moves_back_by_one(entries, i, texts[0]);
        let j = choose|j: int| 0 <= j <= i + 1 && j < after.len() && #[trigger] after[j] == entries[i];
        entry_outlasts(after, j, texts.drop_first());
    }
}

/// The count of a text is still kept after fewer other texts were counted than
/// counts are kept.
pub proof fn recent_counts_stay(entries: Seq<CacheEntry>, text: Seq<char>, texts: Seq<Seq<char>>)
    requires
        valid_entries(entries),
        countable(entries, text),
        holdable(text),
        texts.len() < 1024,
    ensures
        has_key(entries_after_all(entries_after(entries, text), texts), token_key(text)),
        reported(entries_after_all(entries_after(entries, text), texts), text) == reported(
            entries,
            text,
        ),
{
    let key = token_key(text);
    let after = entries_after(entries, text);
    if has_key(entries, key) {
        touched_keeps(entries, key);
    } else {
        stored_keeps(entries, MAX_TOKEN_CACHE_SIZE as nat, key, token_count(text) as usize);
    }
    entry_outlasts(after, 0, texts);
}

/// A count that is kept under the length and the digest of a text is given for it,
/// and its entry comes first from then on; no other entry leaves or changes.
pub proof fn kept_count_is_given(entries: Seq<CacheEntry>, text: Seq<char>, i: int)
    requires
        valid_entries(entries),
        0 <= i < entries.len(),
        entries[i].0 == (encode_utf8(text).len() as usize, blake3_digest(encode_utf8(text))),
    ensures
        countable(entries, text),
        reported(entries, text) == entries[i].1,
        entries_after(entries, text) == seq![entries[i]] + entries.remove(i),
{
    key_index_unique(entries, i);
}

/// For a text whose length and digest no count is kept under, the number of its
/// tokens is given, if it has tokens at all, and comes first among what is kept; of
/// what was kept, only the last entry leaves, and only where there are 1024.
pub proof fn new_count_is_kept(entries: Seq<CacheEntry>, text: Seq<char>)
    requires
        forall|i: int|
            0 <= i < entries.len() ==> (#[trigger] entries[i]).0 != (
                encode_utf8(text).len() as usize,
                blake3_digest(encode_utf8(text)),
            ),
    ensures
        countable(entries, text) <==> o200k_tokens(text) is Some,
        o200k_tokens(text) is Some ==> reported(entries, text) == o200k_tokens(text)->0.len(),
        o200k_tokens(text) is Some ==> entries_after(entries, text) == seq![
            (
                (encode_utf8(text).len() as usize, blake3_digest(encode_utf8(text))),
                o200k_tokens(text)->0.len() as usize,
            ),
        ] + (if entries.len() == 1024 {
            entries.drop_last()
        } else {
            entries
        }),
{
}

/// One text more adds the count that is given for it after the others.
pub proof fn one_text_more(entries: Seq<CacheEntry>, texts: Seq<Seq<char>>, text: Seq<char>)
    ensures
        reported_sum(entries, Seq::empty()) == 0,
        entries_after_all(entries, Seq::empty()) == entries,
        all_countable(entries, Seq::empty()),
        reported_sum(entries, texts.push(text)) == reported_sum(entries, texts) + reported(
            entries_after_all(entries, texts),
            text,
        ),
        entries_after_all(entries, texts.push(text)) == entries_after(
            entries_after_all(entries, texts),
            text,
        ),
        all_countable(entries, texts.push(text)) <==> all_countable(entries, texts) && countable(
            entries_after_all(entries, texts),
            text,
        ),
{
    let last = seq![text];
    let after = entries_after_all(entries, texts);
    sum_splits(entries, texts, last);
    assert(texts.push(text) =~= texts + last);
    assert(last.drop_first() =~= Seq::<Seq<char>>::empty());
    reveal_with_fuel(reported_sum, 2);
    reveal_with_fuel(entries_after_all, 2);
    reveal_with_fuel(all_countable, 2);
    assert(last[0] == text);
}

/// One text more adds its bytes, and its tokens.
pub proof fn bytes_and_tokens_add_up(texts: Seq<Seq<char>>, text: Seq<char>)
    ensures
        byte_sum(Seq::empty()) == 0,
        byte_sum(texts.push(text)) == byte_sum(texts) + encode_utf8(text).len(),
        token_sum(Seq::empty()) == 0,
        token_sum(texts.push(text)) == token_sum(texts) + token_count(text),
        o200k_tokens(text) is Some ==> token_count(text) == o200k_tokens(text)->0.len(),
        tokenizable(text) <==> o200k_tokens(text) is Some,
    decreases texts.len(),
{
    if texts.len() == 0 {
        assert(texts.push(text).drop_first() =~= Seq::<Seq<char>>::empty());
        reveal_with_fuel(byte_sum, 2);
        reveal_with_fuel(token_sum, 2);
    } else {
        assert(texts.push(text).drop_first() =~= texts.drop_first().push(text));
        bytes_and_tokens_add_up(texts.drop_first(), text);
    }
}

/// Nothing but more bytes than a machine can count, or a text that the tokenizer does
/// not take and whose count is not kept for good, keeps texts from being counted. A
/// count is kept for good where there is room for those of all texts.
pub proof fn what_is_within_reach(entries: Seq<CacheEntry>, texts: Seq<Seq<char>>, overhead: int)
    ensures
        within_reach(entries, texts, overhead) <==> overhead + byte_sum(texts) <= usize::MAX && forall|
            i: int,
        |
            0 <= i < texts.len() ==> o200k_tokens(#[trigger] texts[i]) is Some || (entries.len()
                + texts.len() <= 1024 && exists|j: int|
                0 <= j < entries.len() && (#[trigger] entries[j]).0 == (
                    encode_utf8(texts[i]).len() as usize,
                    blake3_digest(encode_utf8(texts[i])),
                )),
{
    assert forall|i: int| 0 <= i < texts.len() implies (tokenizable(texts[i]) || stays_kept(
        entries,
        texts,
        #[trigger] texts[i],
    )) == (o200k_tokens(texts[i]) is Some || (entries.len() + texts.len() <= 1024 && exists|j: int|
        0 <= j < entries.len() && (#[trigger] entries[j]).0 == (
            encode_utf8(texts[i]).len() as usize,
            blake3_digest(encode_utf8(texts[i])),
        ))) by {
        assert(tokenizable(texts[i]) == (o200k_tokens(texts[i]) is Some));
    }
}

/// What is kept is faithful to texts of which no two have the same length and
/// digest, where each entry is the length, the digest and the number of tokens of
/// one of them.
pub proof fn what_is_faithful(entries: Seq<CacheEntry>, texts: Set<Seq<char>>)
    requires
        forall|i: int|
            0 <= i < entries.len() ==> exists|text: Seq<char>| #[trigger]
                texts.contains(text) && o200k_tokens(text) is Some && #[trigger] entries[i] == (
                    (encode_utf8(text).len() as usize, blake3_digest(encode_utf8(text))),
                    o200k_tokens(text)->0.len() as usize,
                ),
        forall|text: Seq<char>| #[trigger]
            texts.contains(text) ==> encode_utf8(text).len() <= usize::MAX && (o200k_tokens(text)
                is Some ==> o200k_tokens(text)->0.len() <= usize::MAX),
        forall|a: Seq<char>, b: Seq<char>| #[trigger]
            texts.contains(a) && #[trigger] texts.contains(b) && encode_utf8(a).len() == encode_utf8(
                b,
            ).len() && blake3_digest(encode_utf8(a)) == blake3_digest(encode_utf8(b)) ==> a == b,
    ensures
        faithful(entries, texts),
{
    assert forall|i: int| 0 <= i < entries.len() implies counted_for_one_of(
        #[trigger] entries[i],
        texts,
    ) by {
        let text = choose|text: Seq<char>| #[trigger]
            texts.contains(text) && o200k_tokens(text) is Some && entries[i] == (
                (encode_utf8(text).len() as usize, blake3_digest(encode_utf8(text))),
                o200k_tokens(text)->0.len() as usize,
            );
        assert(token_key(text) == entries[i].0);
    }
    assert forall|a: Seq<char>, b: Seq<char>|
        texts.contains(a) && texts.contains(b) && #[trigger] token_key(a) == #[trigger] token_key(
            b,
        ) implies tokenizable(a) == tokenizable(b) && token_count(a) == token_count(b) by {
        assert(encode_utf8(a).len() == encode_utf8(b).len());
    }
}

/// An entry with the key and the number of tokens of one of the texts.
pub open spec fn counted_for_one_of(entry: CacheEntry, texts: Set<Seq<char>>) -> bool {
    exists|text: Seq<char>|
        texts.contains(text) && #[trigger] token_key(text) == entry.0 && tokenizable(text)
            && token_count(text) == entry.1
}

/// Every count that is kept was taken for one of the texts.
pub open spec fn kept_for(entries: Seq<CacheEntry>, texts: Set<Seq<char>>) -> bool {
    forall|i: int| 0 <= i < entries.len() ==> counted_for_one_of(#[trigger] entries[i], texts)
}

/// A machine can hold the texts, and those with the same key have the same number
/// of tokens.
pub open spec fn told_apart(texts: Set<Seq<char>>) -> bool {
    &&& forall|a: Seq<char>| texts.contains(a) ==> #[trigger] holdable(a)
    &&& forall|a: Seq<char>, b: Seq<char>|
        texts.contains(a) && texts.contains(b) && #[trigger] token_key(a) == #[trigger] token_key(b)
            ==> tokenizable(a) == tokenizable(b) && token_count(a) == token_count(b)
}

/// What is kept was taken for texts that can be told apart. So it is at first, when
/// nothing is kept, and it stays so as long as only those texts are counted.
pub open spec fn faithful(entries: Seq<CacheEntry>, texts: Set<Seq<char>>) -> bool {
    kept_for(entries, texts) && told_apart(texts)
}

/// Each text of a list is one of the texts.
pub open spec fn all_among(list: Seq<Seq<char>>, texts: Set<Seq<char>>) -> bool {
    forall|i: int| 0 <= i < list.len() ==> texts.contains(#[trigger] list[i])
}

/// The count of a text is the number of its tokens, whatever is kept of texts that
/// it can be told apart from.
pub proof fn count_is_token_count(entries: Seq<CacheEntry>, texts: Set<Seq<char>>, text: Seq<char>)
    requires
        faithful(entries, texts),
        texts.contains(text),
        countable(entries, text),
    ensures
        tokenizable(text),
        reported(entries, text) == token_count(text),
{
    let key = token_key(text);
    if has_key(entries, key) {
        let entry = entries[key_index(entries, key)];
        assert(counted_for_one_of(entry, texts));
        let other = choose|other: Seq<char>|
            texts.contains(other) && #[trigger] token_key(other) == entry.0 && tokenizable(other)
                && token_count(other) == entry.1;
        assert(token_key(other) == token_key(text));
    }
}

/// Counting one of the texts keeps no count but theirs.
pub proof fn counting_stays_faithful(entries: Seq<CacheEntry>, texts: Set<Seq<char>>, text: Seq<char>)
    requires
        faithful(entries, texts),
        texts.contains(text),
        countable(entries, text),
    ensures
        faithful(entries_after(entries, text), texts),
{
    let key = token_key(text);
    let after = entries_after(entries, text);
    assert(holdable(text));
    assert forall|j: int| 0 <= j < after.len() implies counted_for_one_of(#[trigger] after[j], texts) by {
        if has_key(entries, key) {
            let k = key_index(entries, key);
            let i: int = if j == 0 { k } else if j - 1 < k { j - 1 } else { j };
            assert(after[j] == entries[i]);
        } else if j == 0 {
            assert(token_key(text) == after[0].0);
        } else {
            assert(after[j] == entries[j - 1]);
        }
    }
}

/// The tokens that texts have in all.
pub open spec fn token_sum(texts: Seq<Seq<char>>) -> nat
    decreases texts.len(),
{
    if texts.len() == 0 {
        0
    } else {
        token_count(texts[0]) + token_sum(texts.drop_first())
    }
}

/// The sum of the counts for texts that can be told apart is the number of their
/// tokens, whatever is kept of them; so any two counters agree on it.
pub proof fn sum_is_token_sum(entries: Seq<CacheEntry>, texts: Set<Seq<char>>, list: Seq<Seq<char>>)
    requires
        faithful(entries, texts),
        all_among(list, texts),
        all_countable(entries, list),
    ensures
        reported_sum(entries, list) == token_sum(list),
        faithful(entries_after_all(entries, list), texts),
    decreases list.len(),
{
    if list.len() > 0 {
        let rest = list.drop_first();
        assert(texts.contains(list[0]));
        count_is_token_count(entries, texts, list[0]);
        counting_stays_faithful(entries, texts, list[0]);
        assert forall|i: int| 0 <= i < rest.len() implies texts.contains(#[trigger] rest[i]) by {
            assert(rest[i] == list[i + 1]);
        }
        sum_is_token_sum(entries_after(entries, list[0]), texts, rest);
    }
}

/// Texts counted in two runs sum up to the same as in one, with the same counts
/// kept at the end.
pub proof fn sum_splits(entries: Seq<CacheEntry>, first: Seq<Seq<char>>, second: Seq<Seq<char>>)
    ensures
        all_countable(entries, first + second) <==> all_countable(entries, first) && all_countable(
            entries_after_all(entries, first),
            second,
        ),
        reported_sum(entries, first + second) == reported_sum(entries, first) + reported_sum(
            entries_after_all(entries, first),
            second,
        ),
        entries_after_all(entries, first + second) == entries_after_all(
            entries_after_all(entries, first),
            second,
        ),
    decreases first.len(),
{
    if first.len() == 0 {
        assert(first + second =~= second);
    } else {
        assert((first + second)[0] == first[0]);
        assert((first + second).drop_first() =~= first.drop_first() + second);
        sum_splits(entries_after(entries, first[0]), first.drop_first(), second);
    }
}

/// The count of everything is that of the chat and, after it, those of the
/// resources.
pub proof fn everything_is_chat_and_resources(
    entries: Seq<CacheEntry>,
    system_prompt: Seq<char>,
    messages: Seq<Message>,
    tools: Seq<Tool>,
    resources: Seq<String>,
)
    ensures
        everything_count(entries, system_prompt, messages, tools, resources) == chat_count(
            entries,
            system_prompt,
            messages,
            tools,
        ) + reported_sum(
            entries_after_all(entries, chat_texts(system_prompt, messages, tools)),
            texts_of(resources),
        ),
        resources.len() == 0 ==> everything_texts(system_prompt, messages, tools, resources)
            == chat_texts(system_prompt, messages, tools),
{
    sum_splits(entries, chat_texts(system_prompt, messages, tools), texts_of(resources));
    if resources.len() == 0 {
        assert(everything_texts(system_prompt, messages, tools, resources) =~= chat_texts(
            system_prompt,
            messages,
            tools,
        ));
    }
}

} // verus!
