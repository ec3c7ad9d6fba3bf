//! Cuts a text down to a number of tokens, from the middle out.

use vstd::prelude::*;
use vstd::slice::slice_subrange;
use vstd::utf8::{encode_utf8, encode_utf8_valid_utf8, valid_utf8};

use crate::cache::{has_key, key_index, CacheEntry};
use crate::text::{encoding_is_injective, parted_between_characters};
use crate::token_counter::{
    count_is_token_count, countable, counting_stays_faithful, entries_after, faithful, genuine,
    reported, token_key, valid_entries, TokenCounter,
};
use crate::tokenizer::{
    decode, decoded_bytes, decoded_bytes_split, encode, from_utf8_lossy, o200k_token_bytes,
    o200k_tokens, token_count, tokenizable, utf8_lossy,
};

verus! {

/// What stands in place of the middle of a text.
pub const TRUNCATION_MARKER: &'static str =
    "\n\n[... content truncated to fit context budget ...]\n\n";

/// The text that tokens stand for, with nothing for tokens that stand for none.
pub open spec fn decoded_text(tokens: Seq<u32>) -> Seq<char> {
    match decoded_bytes(tokens) {
        Some(bytes) => utf8_lossy(bytes),
        None => Seq::empty(),
    }
}

/// Whether a text is counted as within a budget.
pub open spec fn counts_within(entries: Seq<CacheEntry>, text: Seq<char>, max_tokens: nat) -> bool {
    countable(entries, text) && reported(entries, text) <= max_tokens
}

/// What is kept once a text was counted, if it could be.
pub open spec fn entries_after_try(entries: Seq<CacheEntry>, text: Seq<char>) -> Seq<CacheEntry> {
    if countable(entries, text) {
        entries_after(entries, text)
    } else {
        entries
    }
}

/// The first cut: as much of both ends as leaves room for the marker, the odd
/// token going to the tail; without room for the marker, the head alone.
pub open spec fn middle_out(tokens: Seq<u32>, max_tokens: nat) -> Seq<char> {
    let marker_tokens = token_count(TRUNCATION_MARKER@);
    if max_tokens > marker_tokens {
        let keep = (max_tokens - marker_tokens) as nat;
        let head_len = keep / 2;
        let tail_len = (keep - head_len) as nat;
        decoded_text(tokens.take(head_len as int)) + TRUNCATION_MARKER@ + decoded_text(
            tokens.skip(tokens.len() - tail_len),
        )
    } else {
        decoded_text(tokens.take(max_tokens as int))
    }
}

/// The longest head of at most `n` tokens that is counted as within the budget,
/// where a head of no tokens always is; with it what is kept once the longer
/// heads and this one were counted.
pub open spec fn head_within(
    entries: Seq<CacheEntry>,
    tokens: Seq<u32>,
    n: nat,
    max_tokens: nat,
) -> (Seq<char>, Seq<CacheEntry>)
    decreases n,
{
    let candidate = decoded_text(tokens.take(n as int));
    if n == 0 {
        (candidate, entries)
    } else if counts_within(entries, candidate, max_tokens) {
        (candidate, entries_after(entries, candidate))
    } else {
        head_within(entries_after_try(entries, candidate), tokens, (n - 1) as nat, max_tokens)
    }
}

/// The text cut down, and what is kept afterwards.
pub open spec fn truncated(entries: Seq<CacheEntry>, text: Seq<char>, max_tokens: nat) -> (
    Seq<char>,
    Seq<CacheEntry>,
) {
    let tokens = o200k_tokens(text)->0;
    if tokens.len() <= max_tokens {
        (text, entries)
    } else if max_tokens == 0 {
        (Seq::empty(), entries)
    } else {
        let candidate = middle_out(tokens, max_tokens);
        if counts_within(entries, candidate, max_tokens) {
            (candidate, entries_after(entries, candidate))
        } else {
            head_within(entries_after_try(entries, candidate), tokens, max_tokens, max_tokens)
        }
    }
}

/// The beginning of a text, up to a byte.
pub open spec fn beginning(text: Seq<char>, h: int) -> Seq<char> {
    utf8_lossy(encode_utf8(text).take(h))
}

/// The end of a text, from a byte on.
pub open spec fn ending(text: Seq<char>, t: int) -> Seq<char> {
    utf8_lossy(encode_utf8(text).skip(t))
}

/// A beginning that ends with a whole character is what the text starts with.
pub open spec fn begins(text: Seq<char>, h: int) -> bool {
    valid_utf8(encode_utf8(text).take(h)) ==> beginning(text, h).is_prefix_of(text)
}

/// An end that starts with a whole character is what the text ends with.
pub open spec fn ends(text: Seq<char>, t: int) -> bool {
    valid_utf8(encode_utf8(text).skip(t)) ==> ending(text, t).is_suffix_of(text)
}

/// Whether a text is what is left of another: the whole, nothing, its beginning,
/// or its beginning and its end with the marker between.
pub open spec fn left_of(text: Seq<char>, rest: Seq<char>) -> bool {
    let len = encode_utf8(text).len();
    ||| rest == text
    ||| rest.len() == 0
    ||| exists|h: int| 0 <= h <= len && begins(text, h) && rest == #[trigger] beginning(text, h)
    ||| exists|h: int, t: int|
        0 <= h <= t <= len && begins(text, h) && ends(text, t) && rest == #[trigger] beginning(
            text,
            h,
        ) + TRUNCATION_MARKER@ + #[trigger] ending(text, t)
}

/// Whether a text is what well-formed bytes of tokens say.
pub open spec fn reads_back(tokens: Seq<u32>, text: Seq<char>) -> bool {
    decoded_bytes(tokens) matches Some(bytes) ==> valid_utf8(bytes) ==> encode_utf8(text) == bytes
}

/// The empty text, which has no tokens.
fn empty_text() -> (res: String)
    ensures
        res@.len() == 0,
        tokenizable(res@),
        token_count(res@) == 0,
{
    let text = String::new();
    let tokens = encode(text.as_str());
    text
}

/// The empty text is within any budget, whatever is kept.
proof fn empty_text_counts_within(entries: Seq<CacheEntry>, text: Seq<char>, max_tokens: nat)
    requires
        valid_entries(entries),
        text.len() == 0,
        tokenizable(text),
        token_count(text) == 0,
    ensures
        counts_within(entries, text, max_tokens),
{
    let key = token_key(text);
    if has_key(entries, key) {
        assert(genuine(entries[key_index(entries, key)]));
        assert(encode_utf8(text).len() == 0);
    }
}

impl TokenCounter {
    /// The text that tokens stand for. The tokens of a text stand for that text; bytes
    /// that are no text are read with replacement characters, and tokens that stand
    /// for no bytes as the empty text.
    pub fn decode_lossy(&self, tokens: &[u32]) -> (res: String)
        ensures
            res@ == decoded_text(tokens@),
            forall|text: Seq<char>| #[trigger] o200k_tokens(text) == Some(tokens@) ==> res@ == text,
            reads_back(tokens@, res@),
            decoded_bytes(tokens@) matches Some(bytes) ==> !valid_utf8(bytes) ==> res@.contains(
                '\u{FFFD}',
            ),
            decoded_bytes(tokens@) is None ==> res@.len() == 0,
            tokens@.len() == 0 ==> res@.len() == 0,
    {
        match decode(tokens) {
            Ok(bytes) => {
                let text = from_utf8_lossy(bytes.as_slice());
                proof {
                    assert forall|original: Seq<char>| #[trigger] o200k_tokens(original) == Some(
                        tokens@,
                    ) implies text@ == original by {
                        encode_utf8_valid_utf8(original);
                        encoding_is_injective(text@, original);
                    }
                    if tokens@.len() == 0 {
                        let empty = Seq::<char>::empty();
                        assert(bytes@ =~= encode_utf8(empty));
                        encode_utf8_valid_utf8(empty);
                        encoding_is_injective(text@, empty);
                    }
                }
                text
            },
            Err(_) => String::new(),
        }
    }

    /// The longest head of no more tokens than the budget that is counted as within
    /// it.
    pub fn decode_prefix_within_budget(&mut self, tokens: &[u32], max_tokens: usize) -> (res: String)
        requires
            old(self).wf(),
        ensures
            final(self).wf(),
            (res@, final(self)@) == head_within(
                old(self)@,
                tokens@,
                if max_tokens <= tokens@.len() {
                    max_tokens as nat
                } else {
                    tokens@.len()
                },
                max_tokens as nat,
            ),
            counts_within(final(self)@, res@, max_tokens as nat),
            exists|n: int|
                0 <= n <= tokens@.len() && res@ == decoded_text(#[trigger] tokens@.take(n))
                    && reads_back(tokens@.take(n), res@),
    {
        let mut n: usize = if max_tokens <= tokens.len() {
            max_tokens
        } else {
            tokens.len()
        };
        let ghost goal = head_within(self@, tokens@, n as nat, max_tokens as nat);
        while n > 0
            invariant
                n <= max_tokens,
                n <= tokens@.len(),
                self.wf(),
                head_within(self@, tokens@, n as nat, max_tokens as nat) == goal,
                goal == head_within(
                    old(self)@,
                    tokens@,
                    if max_tokens <= tokens@.len() {
                        max_tokens as nat
                    } else {
                        tokens@.len()
                    },
                    max_tokens as nat,
                ),
            decreases n,
        {
            let candidate = self.decode_lossy(slice_subrange(tokens, 0, n));
            assert(tokens@.subrange(0, n as int) =~= tokens@.take(n as int));
            if let Some(count) = self.counted(candidate.as_str()) {
                if count <= max_tokens {
                    return candidate;
                }
            }
            n -= 1;
        }
        let none = self.decode_lossy(slice_subrange(tokens, 0, 0));
        let empty = empty_text();
        proof {
            assert(tokens@.subrange(0, 0) =~= tokens@.take(0));
            assert(none@ =~= empty@);
            empty_text_counts_within(self@, none@, max_tokens as nat);
        }
        none
    }

    /// The text itself where it is within the budget; else its two ends around a
    /// marker, or its head alone, cut down until it is counted as within the
    /// budget. A piece that cannot be counted is taken as beyond the budget.
    ///
    /// What was cut down is counted as within the budget from then on. So is a text
    /// that was not, unless its own count is mistaken for that of another text.
    pub fn truncate_to_token_budget_middle_out(&mut self, text: &str, max_tokens: usize) -> (res: String)
        requires
            old(self).wf(),
            tokenizable(text@),
            0 < max_tokens < token_count(text@) ==> tokenizable(TRUNCATION_MARKER@),
        ensures
            final(self).wf(),
            (res@, final(self)@) == truncated(old(self)@, text@, max_tokens as nat),
            token_count(text@) > max_tokens || reported(old(self)@, text@) == token_count(text@)
                ==> counts_within(final(self)@, res@, max_tokens as nat),
            left_of(text@, res@),
            forall|texts: Set<Seq<char>>| #[trigger]
                faithful(old(self)@, texts) && texts.contains(text@) && pieces_among(
                    text@,
                    max_tokens as nat,
                    texts,
                ) ==> (res@ == text@ <==> token_count(text@) <= max_tokens),
    {
        let ghost start = self@;
        let tokens = match encode(text) {
            Ok(tokens) => tokens,
            Err(_) => {
                // The tokenizer takes the text.
                assert(false);
                return String::new();
            },
        };
        if tokens.len() <= max_tokens {
            return text.to_owned();
        }
        if max_tokens == 0 {
            let res = empty_text();
            proof {
                assert(res@ =~= Seq::<char>::empty());
                empty_text_counts_within(self@, res@, 0);
                cut_texts_differ(start, text@, max_tokens as nat);
            }
            return res;
        }
        let marker_tokens = match encode(TRUNCATION_MARKER) {
            Ok(tokens) => tokens.len(),
            Err(_) => 0,
        };
        let ghost all = tokens@;
        let candidate = if max_tokens > marker_tokens {
            let keep: usize = max_tokens - marker_tokens;
            let head_len: usize = keep / 2;
            let tail_len: usize = keep - head_len;
            let mut head = self.decode_lossy(slice_subrange(tokens.as_slice(), 0, head_len));
            let tail = self.decode_lossy(
                slice_subrange(tokens.as_slice(), tokens.len() - tail_len, tokens.len()),
            );
            proof {
                let cut = all.len() - tail_len;
                assert(all.subrange(0, head_len as int) =~= all.take(head_len as int));
                assert(all.subrange(cut as int, all.len() as int) =~= all.skip(cut as int));
                both_ends_left(text@, all, head_len as int, cut as int, head@, tail@);
            }
            head.append(TRUNCATION_MARKER);
            head.append(tail.as_str());
            head
        } else {
            let head = self.decode_lossy(slice_subrange(tokens.as_slice(), 0, max_tokens));
            proof {
                assert(all.subrange(0, max_tokens as int) =~= all.take(max_tokens as int));
                head_left(text@, all, max_tokens as int, head@);
            }
            head
        };
        assert(candidate@ == middle_out(all, max_tokens as nat));
        if let Some(count) = self.counted(candidate.as_str()) {
            if count <= max_tokens {
                proof {
                    cut_texts_differ(start, text@, max_tokens as nat);
                }
                return candidate;
            }
        }
        let res = self.decode_prefix_within_budget(tokens.as_slice(), max_tokens);
        proof {
            let n = choose|n: int|
                0 <= n <= all.len() && res@ == decoded_text(#[trigger] all.take(n)) && reads_back(
                    all.take(n),
                    res@,
                );
            head_left(text@, all, n, res@);
            cut_texts_differ(start, text@, max_tokens as nat);
        }
        res
    }

    /// The text cut down to the budget; `None`, with nothing counted, where the
    /// tokenizer does not take the text, or has to take the marker and does not.
    pub fn try_truncate_to_token_budget_middle_out(&mut self, text: &str, max_tokens: usize) -> (res: Option<String>)
        requires
            old(self).wf(),
        ensures
            final(self).wf(),
            res is Some <==> tokenizable(text@) && (0 < max_tokens < token_count(text@)
                ==> tokenizable(TRUNCATION_MARKER@)),
            res is Some ==> (res->0@, final(self)@) == truncated(
                old(self)@,
                text@,
                max_tokens as nat,
            ),
            res is Some && (token_count(text@) > max_tokens || reported(old(self)@, text@)
                == token_count(text@)) ==> counts_within(
                final(self)@,
                res->0@,
                max_tokens as nat,
            ),
            res is Some ==> left_of(text@, res->0@),
            res is Some ==> forall|texts: Set<Seq<char>>| #[trigger]
                faithful(old(self)@, texts) && texts.contains(text@) && pieces_among(
                    text@,
                    max_tokens as nat,
                    texts,
                ) ==> (res->0@ == text@ <==> token_count(text@) <= max_tokens),
            res is None ==> final(self)@ == old(self)@,
    {
        let tokens = match encode(text) {
            Ok(tokens) => tokens.len(),
            Err(_) => {
                return None;
            },
        };
        if max_tokens == 0 || tokens <= max_tokens || encode(TRUNCATION_MARKER).is_ok() {
            Some(self.truncate_to_token_budget_middle_out(text, max_tokens))
        } else {
            None
        }
    }
}

/// Bytes of the beginning of a text that were read are such a beginning.
proof fn beginning_read(text: Seq<char>, h: int, head: Seq<char>)
    requires
        0 <= h <= encode_utf8(text).len(),
        head == beginning(text, h),
        valid_utf8(encode_utf8(text).take(h)) ==> encode_utf8(head) == encode_utf8(text).take(h),
    ensures
        begins(text, h),
{
    if valid_utf8(encode_utf8(text).take(h)) {
        parted_between_characters(text, h);
        let (a, b) = choose|a: Seq<char>, b: Seq<char>|
            text == a + b && #[trigger] encode_utf8(a) == encode_utf8(text).take(h)
                && #[trigger] encode_utf8(b) == encode_utf8(text).skip(h);
        encoding_is_injective(a, head);
    }
}

/// Bytes of the end of a text that were read are such an end.
proof fn ending_read(text: Seq<char>, t: int, tail: Seq<char>)
    requires
        0 <= t <= encode_utf8(text).len(),
        tail == ending(text, t),
        valid_utf8(encode_utf8(text).skip(t)) ==> encode_utf8(tail) == encode_utf8(text).skip(t),
    ensures
        ends(text, t),
{
    if valid_utf8(encode_utf8(text).skip(t)) {
        parted_between_characters(text, t);
        let (a, b) = choose|a: Seq<char>, b: Seq<char>|
            text == a + b && #[trigger] encode_utf8(a) == encode_utf8(text).take(t)
                && #[trigger] encode_utf8(b) == encode_utf8(text).skip(t);
        encoding_is_injective(b, tail);
    }
}

/// A head of the tokens of a text stands for the beginning of the text.
proof fn head_left(text: Seq<char>, tokens: Seq<u32>, n: int, head: Seq<char>)
    requires
        0 <= n <= tokens.len(),
        decoded_bytes(tokens) == Some(encode_utf8(text)),
        head == decoded_text(tokens.take(n)),
        reads_back(tokens.take(n), head),
    ensures
        left_of(text, head),
{
    decoded_bytes_split(tokens, n);
    let front = decoded_bytes(tokens.take(n))->0;
    let h = front.len() as int;
    assert(front =~= encode_utf8(text).take(h));
    assert(head == beginning(text, h));
    beginning_read(text, h, head);
}

/// A head and a tail of the tokens of a text stand for its beginning and its end.
proof fn both_ends_left(text: Seq<char>, tokens: Seq<u32>, h: int, t: int, head: Seq<char>, tail: Seq<char>)
    requires
        0 <= h <= t <= tokens.len(),
        decoded_bytes(tokens) == Some(encode_utf8(text)),
        head == decoded_text(tokens.take(h)),
        tail == decoded_text(tokens.skip(t)),
        reads_back(tokens.take(h), head),
        reads_back(tokens.skip(t), tail),
    ensures
        left_of(text, head + TRUNCATION_MARKER@ + tail),
{
    decoded_bytes_split(tokens, h);
    decoded_bytes_split(tokens, t);
    decoded_bytes_split(tokens.take(t), h);
    assert(tokens.take(t).take(h) =~= tokens.take(h));
    let bytes = encode_utf8(text);
    let front = decoded_bytes(tokens.take(h))->0;
    let upto = decoded_bytes(tokens.take(t))->0;
    let back = decoded_bytes(tokens.skip(t))->0;
    assert(front =~= bytes.take(front.len() as int));
    assert(back =~= bytes.skip(upto.len() as int));
    assert(head == beginning(text, front.len() as int));
    assert(tail == ending(text, upto.len() as int));
    beginning_read(text, front.len() as int, head);
    ending_read(text, upto.len() as int, tail);
}

/// A text within the budget stays as it is, and nothing is counted for that.
pub proof fn within_budget_stays(entries: Seq<CacheEntry>, text: Seq<char>, max_tokens: nat)
    requires
        tokenizable(text),
        token_count(text) <= max_tokens,
    ensures
        truncated(entries, text, max_tokens) == (text, entries),
{
}

/// Where there is room beside the marker, what is kept of a text that is cut uses it
/// up in two halves, of which the tail has the odd token: the first tokens of the
/// text, the marker, and its last tokens. That is what is left if it is counted as
/// within the budget, else heads are tried.
pub proof fn both_ends_share_the_room(entries: Seq<CacheEntry>, text: Seq<char>, max_tokens: nat, h: int, t: int)
    requires
        o200k_tokens(text) is Some,
        o200k_tokens("\n\n[... content truncated to fit context budget ...]\n\n"@) is Some,
        max_tokens < o200k_tokens(text)->0.len(),
        o200k_tokens("\n\n[... content truncated to fit context budget ...]\n\n"@)->0.len() < max_tokens,
        h + t == max_tokens - o200k_tokens(
            "\n\n[... content truncated to fit context budget ...]\n\n"@,
        )->0.len(),
        h <= t <= h + 1,
    ensures
        ({
            let tokens = o200k_tokens(text)->0;
            let kept = decoded_text(tokens.take(h))
                + "\n\n[... content truncated to fit context budget ...]\n\n"@ + decoded_text(
                tokens.skip(tokens.len() - t),
            );
            &&& countable(entries, kept) && reported(entries, kept) <= max_tokens ==> truncated(
                entries,
                text,
                max_tokens,
            ) == (kept, entries_after(entries, kept))
            &&& countable(entries, kept) && reported(entries, kept) > max_tokens ==> truncated(
                entries,
                text,
                max_tokens,
            ) == head_within(entries_after(entries, kept), tokens, max_tokens, max_tokens)
            &&& !countable(entries, kept) ==> truncated(entries, text, max_tokens) == head_within(
                entries,
                tokens,
                max_tokens,
                max_tokens,
            )
        }),
{
    let keep = (max_tokens - token_count(TRUNCATION_MARKER@)) as nat;
    assert(h == keep / 2);
    assert(t == keep - keep / 2);
}

/// Where there is no room beside the marker, as many of the first tokens of a text
/// that is cut are kept as the budget has; if that is not counted as within it,
/// shorter heads are tried. A budget of nothing leaves nothing.
pub proof fn head_alone_takes_the_room(entries: Seq<CacheEntry>, text: Seq<char>, max_tokens: nat)
    requires
        o200k_tokens(text) is Some,
        max_tokens < o200k_tokens(text)->0.len(),
        o200k_tokens("\n\n[... content truncated to fit context budget ...]\n\n"@) is Some,
        max_tokens <= o200k_tokens(
            "\n\n[... content truncated to fit context budget ...]\n\n"@,
        )->0.len(),
    ensures
        max_tokens == 0 ==> truncated(entries, text, max_tokens) == (Seq::<char>::empty(), entries),
        max_tokens > 0 ==> {
            let tokens = o200k_tokens(text)->0;
            let kept = decoded_text(tokens.take(max_tokens as int));
            &&& countable(entries, kept) && reported(entries, kept) <= max_tokens ==> truncated(
                entries,
                text,
                max_tokens,
            ) == (kept, entries_after(entries, kept))
            &&& countable(entries, kept) && reported(entries, kept) > max_tokens ==> truncated(
                entries,
                text,
                max_tokens,
            ) == head_within(entries_after(entries, kept), tokens, max_tokens, max_tokens)
            &&& !countable(entries, kept) ==> truncated(entries, text, max_tokens) == head_within(
                entries,
                tokens,
                max_tokens,
                max_tokens,
            )
        },
{
}

/// A head is kept if it is counted as within the budget or has no tokens; else the
/// one that is shorter by a token is tried, with what was counted kept.
pub proof fn shorter_heads_are_tried(entries: Seq<CacheEntry>, tokens: Seq<u32>, n: nat, max_tokens: nat)
    ensures
        head_within(entries, tokens, 0, max_tokens) == (decoded_text(tokens.take(0)), entries),
        n > 0 ==> {
            let head = decoded_text(tokens.take(n as int));
            &&& countable(entries, head) && reported(entries, head) <= max_tokens ==> head_within(
                entries,
                tokens,
                n,
                max_tokens,
            ) == (head, entries_after(entries, head))
            &&& countable(entries, head) && reported(entries, head) > max_tokens ==> head_within(
                entries,
                tokens,
                n,
                max_tokens,
            ) == head_within(entries_after(entries, head), tokens, (n - 1) as nat, max_tokens)
            &&& !countable(entries, head) ==> head_within(entries, tokens, n, max_tokens)
                == head_within(entries, tokens, (n - 1) as nat, max_tokens)
        },
{
}

/// A token more adds its bytes to those that tokens stand for, and the text of tokens
/// is read out of all their bytes; tokens of which one stands for no bytes have none.
pub proof fn one_token_more(tokens: Seq<u32>, token: u32)
    ensures
        decoded_bytes(Seq::empty()) == Some(Seq::<u8>::empty()),
        decoded_bytes(tokens) is Some && o200k_token_bytes(token) is Some ==> decoded_bytes(
            tokens.push(token),
        ) == Some(decoded_bytes(tokens)->0 + o200k_token_bytes(token)->0),
        decoded_bytes(tokens) is None || o200k_token_bytes(token) is None ==> decoded_bytes(
            tokens.push(token),
        ) is None,
        decoded_bytes(tokens) is Some ==> decoded_text(tokens) == utf8_lossy(
            decoded_bytes(tokens)->0,
        ),
        decoded_bytes(tokens) is None ==> decoded_text(tokens).len() == 0,
{
    assert(tokens.push(token).drop_last() =~= tokens);
}

/// The pieces of a text that may be counted while it is cut down are among the
/// texts.
pub open spec fn pieces_among(text: Seq<char>, max_tokens: nat, texts: Set<Seq<char>>) -> bool {
    let tokens = o200k_tokens(text)->0;
    &&& texts.contains(middle_out(tokens, max_tokens))
    &&& forall|n: int|
        0 <= n <= max_tokens ==> texts.contains(decoded_text(#[trigger] tokens.take(n)))
}

proof fn heads_stay_faithful(
    entries: Seq<CacheEntry>,
    texts: Set<Seq<char>>,
    tokens: Seq<u32>,
    n: nat,
    max_tokens: nat,
)
    requires
        faithful(entries, texts),
        forall|m: int| 0 <= m <= n ==> texts.contains(decoded_text(#[trigger] tokens.take(m))),
    ensures
        faithful(head_within(entries, tokens, n, max_tokens).1, texts),
    decreases n,
{
    let candidate = decoded_text(tokens.take(n as int));
    if n > 0 {
        if countable(entries, candidate) {
            counting_stays_faithful(entries, texts, candidate);
        }
        if !counts_within(entries, candidate, max_tokens) {
            heads_stay_faithful(
                entries_after_try(entries, candidate),
                texts,
                tokens,
                (n - 1) as nat,
                max_tokens,
            );
        }
    }
}

/// Whether the head of `k` tokens is the longest of at most `n` tokens that has no
/// more tokens than the budget, where a head of no tokens always counts as such.
pub open spec fn longest_head(tokens: Seq<u32>, k: int, n: nat, max_tokens: nat) -> bool {
    &&& 0 <= k <= n
    &&& k > 0 ==> tokenizable(decoded_text(tokens.take(k))) && token_count(
        decoded_text(tokens.take(k)),
    ) <= max_tokens
    &&& forall|m: int|
        k < m <= n && tokenizable(decoded_text(#[trigger] tokens.take(m))) ==> token_count(
            decoded_text(tokens.take(m)),
        ) > max_tokens
}

/// The head that is kept is the longest that has no more tokens than the budget,
/// where the heads can be told apart from each other and from what is kept.
pub proof fn no_longer_head_fits(
    entries: Seq<CacheEntry>,
    texts: Set<Seq<char>>,
    tokens: Seq<u32>,
    n: nat,
    max_tokens: nat,
)
    requires
        faithful(entries, texts),
        forall|m: int| 0 <= m <= n ==> texts.contains(decoded_text(#[trigger] tokens.take(m))),
    ensures
        exists|k: int| #[trigger]
            longest_head(tokens, k, n, max_tokens) && head_within(entries, tokens, n, max_tokens).0
                == decoded_text(tokens.take(k)),
    decreases n,
{
    let candidate = decoded_text(tokens.take(n as int));
    if n == 0 {
        assert(longest_head(tokens, 0, n, max_tokens));
    } else {
        if countable(entries, candidate) {
            count_is_token_count(entries, texts, candidate);
            counting_stays_faithful(entries, texts, candidate);
        }
        if counts_within(entries, candidate, max_tokens) {
            assert(longest_head(tokens, n as int, n, max_tokens));
        } else {
            let rest = entries_after_try(entries, candidate);
            no_longer_head_fits(rest, texts, tokens, (n - 1) as nat, max_tokens);
            let k = choose|k: int| #[trigger]
                longest_head(tokens, k, (n - 1) as nat, max_tokens) && head_within(
                    rest,
                    tokens,
                    (n - 1) as nat,
                    max_tokens,
                ).0 == decoded_text(tokens.take(k));
            assert(longest_head(tokens, k, n, max_tokens));
        }
    }
}

/// Cutting a text down keeps no count but those of texts that can be told apart,
/// where its pieces are among them.
pub proof fn cutting_stays_faithful(entries: Seq<CacheEntry>, texts: Set<Seq<char>>, text: Seq<char>, max_tokens: nat)
    requires
        faithful(entries, texts),
        pieces_among(text, max_tokens, texts),
    ensures
        faithful(truncated(entries, text, max_tokens).1, texts),
{
    let tokens = o200k_tokens(text)->0;
    let candidate = middle_out(tokens, max_tokens);
    if tokens.len() > max_tokens && max_tokens > 0 {
        if countable(entries, candidate) {
            counting_stays_faithful(entries, texts, candidate);
        }
        if !counts_within(entries, candidate, max_tokens) {
            heads_stay_faithful(
                entries_after_try(entries, candidate),
                texts,
                tokens,
                max_tokens,
                max_tokens,
            );
        }
    }
}

/// What is left of a text, once it is counted as within the budget, has no more
/// tokens than the budget, where it and the pieces can be told apart from each
/// other and from what is kept.
pub proof fn cut_text_is_within_budget(entries: Seq<CacheEntry>, texts: Set<Seq<char>>, text: Seq<char>, max_tokens: nat)
    requires
        faithful(entries, texts),
        pieces_among(text, max_tokens, texts),
        texts.contains(truncated(entries, text, max_tokens).0),
        counts_within(
            truncated(entries, text, max_tokens).1,
            truncated(entries, text, max_tokens).0,
            max_tokens,
        ),
    ensures
        tokenizable(truncated(entries, text, max_tokens).0),
        token_count(truncated(entries, text, max_tokens).0) <= max_tokens,
{
    let (rest, after) = truncated(entries, text, max_tokens);
    cutting_stays_faithful(entries, texts, text, max_tokens);
    count_is_token_count(after, texts, rest);
}

/// A text is really cut where it has more tokens than the budget, and only there,
/// where it and the pieces can be told apart from each other and from what is kept.
/// What was cut is counted as within the budget.
pub proof fn only_longer_texts_are_cut(entries: Seq<CacheEntry>, texts: Set<Seq<char>>, text: Seq<char>, max_tokens: nat)
    requires
        tokenizable(text),
        faithful(entries, texts),
        texts.contains(text),
        pieces_among(text, max_tokens, texts),
        token_count(text) > max_tokens ==> counts_within(
            truncated(entries, text, max_tokens).1,
            truncated(entries, text, max_tokens).0,
            max_tokens,
        ),
    ensures
        truncated(entries, text, max_tokens).0 == text <==> token_count(text) <= max_tokens,
{
    if token_count(text) <= max_tokens {
        within_budget_stays(entries, text, max_tokens);
    } else if truncated(entries, text, max_tokens).0 == text {
        cut_text_is_within_budget(entries, texts, text, max_tokens);
    }
}

proof fn cut_texts_differ(entries: Seq<CacheEntry>, text: Seq<char>, max_tokens: nat)
    requires
        tokenizable(text),
        token_count(text) > max_tokens,
        counts_within(
            truncated(entries, text, max_tokens).1,
            truncated(entries, text, max_tokens).0,
            max_tokens,
        ),
    ensures
        forall|texts: Set<Seq<char>>| #[trigger]
            faithful(entries, texts) && texts.contains(text) && pieces_among(
                text,
                max_tokens,
                texts,
            ) ==> truncated(entries, text, max_tokens).0 != text,
{
    assert forall|texts: Set<Seq<char>>| #[trigger]
        faithful(entries, texts) && texts.contains(text) && pieces_among(
            text,
            max_tokens,
            texts,
        ) implies truncated(entries, text, max_tokens).0 != text by {
        only_longer_texts_are_cut(entries, texts, text, max_tokens);
    }
}

/// Cutting down what was cut down, to the same budget or a larger one, changes
/// nothing more, neither the text nor what is kept, where it and the pieces can be
/// told apart from each other and from what is kept.
pub proof fn cutting_again_changes_nothing(
    entries: Seq<CacheEntry>,
    texts: Set<Seq<char>>,
    text: Seq<char>,
    max_tokens: nat,
    larger: nat,
)
    requires
        max_tokens <= larger,
        faithful(entries, texts),
        pieces_among(text, max_tokens, texts),
        texts.contains(truncated(entries, text, max_tokens).0),
        counts_within(
            truncated(entries, text, max_tokens).1,
            truncated(entries, text, max_tokens).0,
            max_tokens,
        ),
    ensures
        truncated(
            truncated(entries, text, max_tokens).1,
            truncated(entries, text, max_tokens).0,
            larger,
        ) == truncated(entries, text, max_tokens),
{
    let (rest, after) = truncated(entries, text, max_tokens);
    cut_text_is_within_budget(entries, texts, text, max_tokens);
    within_budget_stays(after, rest, larger);
}

} // verus!
