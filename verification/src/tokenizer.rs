//! Text to tokens and back, with the `o200k_base` vocabulary, and the digest of
//! a text.

use vstd::prelude::*;
use vstd::utf8::{encode_utf8, valid_utf8};

verus! {

/// `tiktoken_rs::EncodeError`, why a text could not be tokenized.
#[verifier::external_type_specification]
#[verifier::external_body]
pub struct ExEncodeError(tiktoken_rs::EncodeError);

/// `tiktoken_rs::DecodeKeyError`, which token is not in the vocabulary.
#[verifier::external_type_specification]
#[verifier::external_body]
pub struct ExDecodeKeyError(tiktoken_rs::DecodeKeyError);

/// The tokens of a text under `o200k_base`, special tokens included; `None`
/// where the tokenizer gives up on the text.
pub uninterp spec fn o200k_tokens(text: Seq<char>) -> Option<Seq<u32>>;

/// The bytes that a token of `o200k_base` stands for; `None` for a number that
/// is no token.
pub uninterp spec fn o200k_token_bytes(token: u32) -> Option<Seq<u8>>;

/// Whether the tokenizer takes a text.
pub open spec fn tokenizable(text: Seq<char>) -> bool {
    o200k_tokens(text) is Some
}

/// How many tokens a text has.
pub open spec fn token_count(text: Seq<char>) -> nat {
    match o200k_tokens(text) {
        Some(tokens) => tokens.len(),
        None => 0,
    }
}

/// The bytes that a run of tokens stands for, one after another; `None` where
/// one of them is no token.
pub open spec fn decoded_bytes(tokens: Seq<u32>) -> Option<Seq<u8>>
    decreases tokens.len(),
{
    if tokens.len() == 0 {
        Some(Seq::empty())
    } else {
        match (decoded_bytes(tokens.drop_last()), o200k_token_bytes(tokens.last())) {
            (Some(front), Some(back)) => Some(front + back),
            _ => None,
        }
    }
}

/// `tiktoken_rs::CoreBPE::encode` on the shared `o200k_base` tokenizer, with all
/// of its special tokens allowed: the named tokens. No token stands for less
/// than a byte, so there are no more of them than bytes, and the empty text has
/// none. The tokens stand for the bytes of the text, in order and without a gap.
#[verifier::external_body]
pub(crate) fn encode(text: &str) -> (res: Result<Vec<u32>, tiktoken_rs::EncodeError>)
    ensures
        res is Ok <==> o200k_tokens(text@) is Some,
        res matches Ok(tokens) ==> o200k_tokens(text@) == Some(tokens@),
        res matches Ok(tokens) ==> tokens@.len() <= encode_utf8(text@).len(),
        res matches Ok(tokens) ==> decoded_bytes(tokens@) == Some(encode_utf8(text@)),
        text@.len() == 0 ==> res is Ok,
{
    let bpe = tiktoken_rs::o200k_base_singleton();
    bpe.encode(text, &bpe.special_tokens()).map(|(tokens, _)| tokens)
}

/// `tiktoken_rs::CoreBPE::decode_bytes` on the shared `o200k_base` tokenizer: the
/// bytes that the tokens stand for, one after another, which for the tokens of a
/// text are the bytes of that text.
#[verifier::external_body]
pub(crate) fn decode(tokens: &[u32]) -> (res: Result<Vec<u8>, tiktoken_rs::DecodeKeyError>)
    ensures
        res is Ok <==> (forall|i: int|
            0 <= i < tokens@.len() ==> o200k_token_bytes(#[trigger] tokens@[i]) is Some),
        res is Ok <==> decoded_bytes(tokens@) is Some,
        res matches Ok(bytes) ==> decoded_bytes(tokens@) == Some(bytes@),
        forall|text: Seq<char>|
            #[trigger] o200k_tokens(text) == Some(tokens@) ==> res is Ok && res->Ok_0@ == encode_utf8(
                text,
            ),
{
    tiktoken_rs::o200k_base_singleton().decode_bytes(tokens)
}

/// The text that `String::from_utf8_lossy` reads out of bytes.
pub uninterp spec fn utf8_lossy(bytes: Seq<u8>) -> Seq<char>;

/// `String::from_utf8_lossy`: the named text, which is the text itself where the
/// bytes are the UTF-8 of one. Else the replacement character stands in place of
/// what is ill-formed; how many of them, and where, is left to the standard
/// library.
#[verifier::external_body]
pub(crate) fn from_utf8_lossy(bytes: &[u8]) -> (res: String)
    ensures
        res@ == utf8_lossy(bytes@),
        valid_utf8(bytes@) ==> encode_utf8(res@) == bytes@,
        !valid_utf8(bytes@) ==> res@.contains('\u{FFFD}'),
{
    String::from_utf8_lossy(bytes).into_owned()
}

/// The BLAKE3 digest of bytes.
pub uninterp spec fn blake3_digest(data: Seq<u8>) -> Seq<u8>;

/// `blake3::hash`: the named digest, 32 bytes of it.
#[verifier::external_body]
pub(crate) fn digest(data: &[u8]) -> (res: [u8; 32])
    ensures
        res@ == blake3_digest(data@),
{
    *blake3::hash(data).as_bytes()
}

/// Bytes are decoded token by token: a run of tokens stands for what its two
/// parts stand for.
pub proof fn decoded_bytes_split(tokens: Seq<u32>, n: int)
    requires
        0 <= n <= tokens.len(),
        decoded_bytes(tokens) is Some,
    ensures
        decoded_bytes(tokens.take(n)) is Some,
        decoded_bytes(tokens.skip(n)) is Some,
        decoded_bytes(tokens)->0 == decoded_bytes(tokens.take(n))->0 + decoded_bytes(tokens.skip(n))->0,
    decreases tokens.len() - n,
{
    if n == tokens.len() {
        assert(tokens.take(n) =~= tokens);
        assert(tokens.skip(n) =~= Seq::<u32>::empty());
        assert(decoded_bytes(tokens)->0 + Seq::<u8>::empty() =~= decoded_bytes(tokens)->0);
    } else {
        let front = tokens.drop_last();
        decoded_bytes_split(front, n);
        assert(front.take(n) =~= tokens.take(n));
        assert(front.skip(n) =~= tokens.skip(n).drop_last());
        assert(tokens.skip(n).last() == tokens.last());
        let whole = decoded_bytes(tokens)->0;
        assert(whole =~= decoded_bytes(tokens.take(n))->0 + decoded_bytes(tokens.skip(n))->0);
    }
}

} // verus!
