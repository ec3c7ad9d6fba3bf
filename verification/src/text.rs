//! Text: the order of strings, trimming, lower case and decimal numbers.

use vstd::prelude::*;
use vstd::utf8::{
    char_u32_cast, decode_utf8, decode_utf8_encode_utf8, encode_utf8, encode_utf8_decode_utf8,
    encode_utf8_valid_utf8, is_ascii_chars, is_char_boundary_iff_not_is_continuation_byte,
    is_continuation_byte, partial_valid_partial_invalid_utf8, valid_utf8, valid_utf8_split,
};

verus! {

/// The texts that a list of strings holds.
pub open spec fn texts_of(strings: Seq<String>) -> Seq<Seq<char>> {
    strings.map_values(|s: String| s@)
}

/// The order of strings: character by character, a proper prefix first.
pub open spec fn text_le(a: Seq<char>, b: Seq<char>) -> bool
    decreases a.len(),
{
    if a.len() == 0 {
        true
    } else if b.len() == 0 {
        false
    } else if a[0] == b[0] {
        text_le(a.drop_first(), b.drop_first())
    } else {
        (a[0] as u32) < (b[0] as u32)
    }
}

/// Every string comes no later than those behind it.
pub open spec fn texts_sorted(texts: Seq<Seq<char>>) -> bool {
    forall|i: int, j: int| 0 <= i < j < texts.len() ==> text_le(#[trigger] texts[i], #[trigger] texts[j])
}

/// Sorted, and no string occurs twice.
pub open spec fn texts_ascending(texts: Seq<Seq<char>>) -> bool {
    &&& texts_sorted(texts)
    &&& texts.no_duplicates()
}

/// The order of strings is reflexive.
pub proof fn text_le_reflexive(a: Seq<char>)
    ensures
        text_le(a, a),
    decreases a.len(),
{
    if a.len() > 0 {
        text_le_reflexive(a.drop_first());
    }
}

/// The order of strings is antisymmetric.
pub proof fn text_le_antisymmetric(a: Seq<char>, b: Seq<char>)
    requires
        text_le(a, b),
        text_le(b, a),
    ensures
        a == b,
    decreases a.len(),
{
    if a.len() > 0 && b.len() > 0 {
        text_le_antisymmetric(a.drop_first(), b.drop_first());
        assert(a =~= seq![a[0]] + a.drop_first());
        assert(b =~= seq![b[0]] + b.drop_first());
    } else {
        assert(a =~= b);
    }
}

/// Of two strings one comes no later than the other.
pub proof fn text_le_total(a: Seq<char>, b: Seq<char>)
    ensures
        text_le(a, b) || text_le(b, a),
    decreases a.len(),
{
    if a.len() > 0 && b.len() > 0 {
        if a[0] == b[0] {
            text_le_total(a.drop_first(), b.drop_first());
        } else {
            char_u32_cast(a[0], a[0] as u32);
            char_u32_cast(b[0], b[0] as u32);
        }
    }
}

/// The order of strings is transitive.
pub proof fn text_le_transitive(a: Seq<char>, b: Seq<char>, c: Seq<char>)
    requires
        text_le(a, b),
        text_le(b, c),
    ensures
        text_le(a, c),
    decreases a.len(),
{
    if a.len() > 0 && b.len() > 0 && c.len() > 0 && a[0] == b[0] && b[0] == c[0] {
        text_le_transitive(a.drop_first(), b.drop_first(), c.drop_first());
    }
}

/// Strings are ordered by the first character that they differ in, and a string
/// comes before any longer one that starts with it.
pub proof fn first_difference_decides(common: Seq<char>, x: char, y: char, a: Seq<char>, b: Seq<char>)
    requires
        (x as u32) < (y as u32),
    ensures
        text_le(common + seq![x] + a, common + seq![y] + b),
        !text_le(common + seq![y] + b, common + seq![x] + a),
        text_le(common, common + a),
        a.len() > 0 ==> !text_le(common + a, common),
    decreases common.len(),
{
    let s = common + seq![x] + a;
    let t = common + seq![y] + b;
    if common.len() == 0 {
        assert(s[0] == x && t[0] == y);
    } else {
        let rest = common.drop_first();
        assert(s[0] == common[0] && t[0] == common[0]);
        assert(s.drop_first() =~= rest + seq![x] + a);
        assert(t.drop_first() =~= rest + seq![y] + b);
        assert((common + a).drop_first() =~= rest + a);
        first_difference_decides(rest, x, y, a, b);
    }
}

/// A list of strings holds the text of each, in its place.
pub proof fn each_string_has_its_text(strings: Seq<String>)
    ensures
        texts_of(strings).len() == strings.len(),
        forall|i: int| 0 <= i < strings.len() ==> #[trigger] texts_of(strings)[i] == strings[i]@,
{
}

/// Sorted lists with the same strings, each as often, are the same list.
pub proof fn sorted_texts_unique(a: Seq<Seq<char>>, b: Seq<Seq<char>>)
    requires
        texts_sorted(a),
        texts_sorted(b),
        a.to_multiset() == b.to_multiset(),
    ensures
        a == b,
    decreases a.len(),
{
    broadcast use vstd::seq_lib::group_to_multiset_ensures;

    assert(a.len() == b.len()) by {
        a.to_multiset_ensures();
        b.to_multiset_ensures();
    }
    if a.len() == 0 {
        assert(a =~= b);
    } else {
        let x = a.last();
        let y = b.last();
        assert(a.contains(x));
        assert(b.contains(y));
        assert(a.to_multiset().count(x) > 0);
        assert(b.to_multiset().count(y) > 0);
        assert(b.contains(x));
        assert(a.contains(y));
        let i = choose|i: int| 0 <= i < b.len() && b[i] == x;
        let j = choose|j: int| 0 <= j < a.len() && a[j] == y;
        text_le_reflexive(x);
        assert(text_le(x, y)) by {
            if i < b.len() - 1 {
                assert(text_le(b[i], b[b.len() - 1]));
            }
        }
        assert(text_le(y, x)) by {
            if j < a.len() - 1 {
                assert(text_le(a[j], a[a.len() - 1]));
            }
        }
        text_le_antisymmetric(x, y);
        let a0 = a.drop_last();
        let b0 = b.drop_last();
        assert(a =~= a0.push(x));
        assert(b =~= b0.push(x));
        assert(a0.to_multiset() =~= a.to_multiset().remove(x));
        assert(b0.to_multiset() =~= b.to_multiset().remove(x));
        sorted_texts_unique(a0, b0);
    }
}

/// Ascending lists of the same set of strings are the same list.
pub proof fn ascending_texts_unique(a: Seq<Seq<char>>, b: Seq<Seq<char>>)
    requires
        texts_ascending(a),
        texts_ascending(b),
        a.to_set() == b.to_set(),
    ensures
        a == b,
{
    broadcast use vstd::seq_lib::group_to_multiset_ensures;

    a.lemma_multiset_has_no_duplicates();
    b.lemma_multiset_has_no_duplicates();
    assert forall|x: Seq<char>| a.to_multiset().count(x) == b.to_multiset().count(x) by {
        assert(a.to_set().contains(x) == a.contains(x));
        assert(b.to_set().contains(x) == b.contains(x));
        assert(a.to_multiset().count(x) > 0 <==> a.contains(x));
        assert(b.to_multiset().count(x) > 0 <==> b.contains(x));
    }
    assert(a.to_multiset() =~= b.to_multiset());
    sorted_texts_unique(a, b);
}

/// `slice::sort` on strings: the same strings, each as often as before, in the
/// order of strings.
#[verifier::external_body]
pub(crate) fn sort_strings(strings: &mut Vec<String>)
    ensures
        texts_sorted(texts_of(final(strings)@)),
        texts_of(final(strings)@).to_multiset() == texts_of(old(strings)@).to_multiset(),
{
    strings.sort();
}

/// The characters with the Unicode property White_Space.
pub open spec fn is_white_space(c: char) -> bool {
    let u = c as u32;
    ||| 0x9 <= u <= 0xd
    ||| u == 0x20
    ||| u == 0x85
    ||| u == 0xa0
    ||| u == 0x1680
    ||| 0x2000 <= u <= 0x200a
    ||| u == 0x2028
    ||| u == 0x2029
    ||| u == 0x202f
    ||| u == 0x205f
    ||| u == 0x3000
}

/// White space is the tab, the line ends, the space, and those of other scripts.
pub proof fn white_space_characters(c: char)
    ensures
        is_white_space(c) <==> c == ' ' || c == '\t' || c == '\n' || c == '\u{B}' || c == '\u{C}' || c
            == '\r' || c == '\u{85}' || c == '\u{A0}' || c == '\u{1680}' || ('\u{2000}' as u32 <= c as u32
            <= '\u{200A}' as u32) || c == '\u{2028}' || c == '\u{2029}' || c == '\u{202F}' || c
            == '\u{205F}' || c == '\u{3000}',
{
    char_u32_cast(c, c as u32);
}

/// A text without the white space that it starts with.
pub open spec fn trimmed_start(s: Seq<char>) -> Seq<char>
    decreases s.len(),
{
    if s.len() > 0 && is_white_space(s[0]) {
        trimmed_start(s.drop_first())
    } else {
        s
    }
}

/// A text without the white space that it ends with.
pub open spec fn trimmed_end(s: Seq<char>) -> Seq<char>
    decreases s.len(),
{
    if s.len() > 0 && is_white_space(s.last()) {
        trimmed_end(s.drop_last())
    } else {
        s
    }
}

/// A text without the white space at both ends.
pub open spec fn trimmed(s: Seq<char>) -> Seq<char> {
    trimmed_end(trimmed_start(s))
}

/// A text that holds nothing but white space.
pub open spec fn is_blank(s: Seq<char>) -> bool {
    forall|i: int| 0 <= i < s.len() ==> is_white_space(#[trigger] s[i])
}

/// `str::trim`: the text without the white space at both ends.
#[verifier::external_body]
pub(crate) fn trim_text(s: &str) -> (res: &str)
    ensures
        res@ == trimmed(s@),
{
    s.trim()
}

/// Trimming leaves nothing of a blank text, and something of any other.
pub proof fn trimmed_blank(s: Seq<char>)
    ensures
        trimmed(s).len() == 0 <==> is_blank(s),
{
    trimmed_start_blank(s);
    trimmed_end_blank(trimmed_start(s));
}

proof fn trimmed_start_blank(s: Seq<char>)
    ensures
        is_blank(trimmed_start(s)) <==> is_blank(s),
    decreases s.len(),
{
    if s.len() > 0 && is_white_space(s[0]) {
        let t = s.drop_first();
        trimmed_start_blank(t);
        if is_blank(t) {
            assert forall|i: int| 0 <= i < s.len() implies is_white_space(#[trigger] s[i]) by {
                if i > 0 {
                    assert(s[i] == t[i - 1]);
                }
            }
        }
        if is_blank(s) {
            assert forall|i: int| 0 <= i < t.len() implies is_white_space(#[trigger] t[i]) by {
                assert(t[i] == s[i + 1]);
            }
        }
    }
}

proof fn trimmed_end_blank(s: Seq<char>)
    ensures
        trimmed_end(s).len() == 0 <==> is_blank(s),
    decreases s.len(),
{
    if s.len() > 0 && is_white_space(s.last()) {
        let t = s.drop_last();
        trimmed_end_blank(t);
        if is_blank(t) {
            assert forall|i: int| 0 <= i < s.len() implies is_white_space(#[trigger] s[i]) by {
                if i < s.len() - 1 {
                    assert(s[i] == t[i]);
                }
            }
        }
        if is_blank(s) {
            assert forall|i: int| 0 <= i < t.len() implies is_white_space(#[trigger] t[i]) by {
                assert(t[i] == s[i]);
            }
        }
    } else if s.len() > 0 {
        assert(!is_white_space(s[s.len() - 1]));
    }
}

/// White space around a text does not matter to what trimming leaves of it.
pub proof fn padding_is_trimmed(before: Seq<char>, s: Seq<char>, after: Seq<char>)
    requires
        is_blank(before),
        is_blank(after),
    ensures
        trimmed(before + s + after) == trimmed(s),
{
    leading_padding_is_trimmed(before, s + after);
    assert(before + s + after =~= before + (s + after));
    if is_blank(s) {
        assert forall|i: int| 0 <= i < (s + after).len() implies is_white_space(
            #[trigger] (s + after)[i],
        ) by {
            if i < s.len() {
                assert((s + after)[i] == s[i]);
            } else {
                assert((s + after)[i] == after[i - s.len()]);
            }
        }
        blank_is_trimmed(s + after);
        blank_is_trimmed(s);
    } else {
        start_of_padded(s, after);
        trailing_padding_is_trimmed(trimmed_start(s), after);
    }
}

/// What trimming leaves of a text is all between the white space at both ends.
pub proof fn only_white_space_around_goes(before: Seq<char>, core: Seq<char>, after: Seq<char>)
    requires
        forall|i: int| 0 <= i < before.len() ==> is_white_space(#[trigger] before[i]),
        forall|i: int| 0 <= i < after.len() ==> is_white_space(#[trigger] after[i]),
        core.len() > 0 ==> !is_white_space(core[0]) && !is_white_space(core.last()),
    ensures
        trimmed(before + core + after) == core,
        is_blank(before + core + after) <==> core.len() == 0,
{
    padding_is_trimmed(before, core, after);
    trimmed_blank(before + core + after);
}

proof fn leading_padding_is_trimmed(before: Seq<char>, s: Seq<char>)
    requires
        is_blank(before),
    ensures
        trimmed_start(before + s) == trimmed_start(s),
    decreases before.len(),
{
    if before.len() == 0 {
        assert(before + s =~= s);
    } else {
        assert(is_white_space(before[0]));
        assert((before + s).drop_first() =~= before.drop_first() + s);
        assert forall|i: int| 0 <= i < before.drop_first().len() implies is_white_space(
            #[trigger] before.drop_first()[i],
        ) by {
            assert(before.drop_first()[i] == before[i + 1]);
        }
        leading_padding_is_trimmed(before.drop_first(), s);
    }
}

proof fn trailing_padding_is_trimmed(s: Seq<char>, after: Seq<char>)
    requires
        is_blank(after),
    ensures
        trimmed_end(s + after) == trimmed_end(s),
    decreases after.len(),
{
    if after.len() == 0 {
        assert(s + after =~= s);
    } else {
        assert(is_white_space(after[after.len() - 1]));
        assert((s + after).drop_last() =~= s + after.drop_last());
        assert forall|i: int| 0 <= i < after.drop_last().len() implies is_white_space(
            #[trigger] after.drop_last()[i],
        ) by {
            assert(after.drop_last()[i] == after[i]);
        }
        trailing_padding_is_trimmed(s, after.drop_last());
    }
}

proof fn start_of_padded(s: Seq<char>, after: Seq<char>)
    requires
        !is_blank(s),
    ensures
        trimmed_start(s + after) == trimmed_start(s) + after,
    decreases s.len(),
{
    if s.len() > 0 && is_white_space(s[0]) {
        let t = s.drop_first();
        assert((s + after).drop_first() =~= t + after);
        assert(!is_blank(t)) by {
            let i = choose|i: int| 0 <= i < s.len() && !is_white_space(#[trigger] s[i]);
            assert(t[i - 1] == s[i]);
        }
        start_of_padded(t, after);
    }
}

proof fn blank_is_trimmed(s: Seq<char>)
    ensures
        is_blank(s) ==> trimmed(s) == Seq::<char>::empty(),
{
    trimmed_blank(s);
    if is_blank(s) {
        assert(trimmed(s) =~= Seq::<char>::empty());
    }
}

/// A text without the run of `c` that it ends with.
pub open spec fn without_trailing(s: Seq<char>, c: char) -> Seq<char>
    decreases s.len(),
{
    if s.len() > 0 && s.last() == c {
        without_trailing(s.drop_last(), c)
    } else {
        s
    }
}

/// A text with a run of `c` at the end.
pub open spec fn with_trailing(s: Seq<char>, c: char, n: nat) -> Seq<char> {
    s + Seq::new(n, |i: int| c)
}

/// A run of `c` at the end does not matter to what is left without it.
pub proof fn trailing_run_is_dropped(s: Seq<char>, c: char, n: nat)
    ensures
        without_trailing(with_trailing(s, c, n), c) == without_trailing(s, c),
    decreases n,
{
    if n == 0 {
        assert(with_trailing(s, c, n) =~= s);
    } else {
        assert(with_trailing(s, c, n).last() == c);
        assert(with_trailing(s, c, n).drop_last() =~= with_trailing(s, c, (n - 1) as nat));
        trailing_run_is_dropped(s, c, (n - 1) as nat);
    }
}

/// What is left without the run of `c` at the end is all before that run.
pub proof fn only_the_run_at_the_end_goes(core: Seq<char>, c: char, n: nat)
    requires
        core.len() > 0 ==> core.last() != c,
    ensures
        without_trailing(core + Seq::new(n, |i: int| c), c) == core,
{
    trailing_run_is_dropped(core, c, n);
}

/// `str::trim_end_matches` with a character: the text without the run of that
/// character that it ends with.
#[verifier::external_body]
pub(crate) fn trim_trailing(s: &str, c: char) -> (res: &str)
    ensures
        res@ == without_trailing(s@, c),
{
    s.trim_end_matches(c)
}

/// The text that `str::to_lowercase` makes of a text.
pub uninterp spec fn lowercase(s: Seq<char>) -> Seq<char>;

/// The lower case of an ASCII character.
pub open spec fn ascii_lowercase(c: char) -> char {
    if 'A' as u32 <= c as u32 <= 'Z' as u32 {
        ((c as u32 + 32) as u32) as char
    } else {
        c
    }
}

/// `str::to_lowercase`: the named text, which for a text of ASCII characters
/// alone is that text with each letter in lower case. What becomes of other
/// characters is left to the Unicode tables of the standard library.
#[verifier::external_body]
pub(crate) fn to_lowercase(s: &str) -> (res: String)
    ensures
        res@ == lowercase(s@),
        is_ascii_chars(s@) ==> res@ == ascii_lowered(s@),
{
    s.to_lowercase()
}

/// A text with each ASCII letter in lower case.
pub open spec fn ascii_lowered(s: Seq<char>) -> Seq<char> {
    s.map_values(|c: char| ascii_lowercase(c))
}

/// Lower case leaves white space as it is, so it does not matter which of the two
/// comes first, lower case or trimming.
pub proof fn trimming_commutes_with_lowering(s: Seq<char>)
    ensures
        trimmed(ascii_lowered(s)) == ascii_lowered(trimmed(s)),
{
    start_commutes_with_lowering(s);
    end_commutes_with_lowering(trimmed_start(s));
}

proof fn start_commutes_with_lowering(s: Seq<char>)
    ensures
        trimmed_start(ascii_lowered(s)) == ascii_lowered(trimmed_start(s)),
    decreases s.len(),
{
    if s.len() > 0 && is_white_space(s[0]) {
        assert(ascii_lowered(s).drop_first() =~= ascii_lowered(s.drop_first()));
        start_commutes_with_lowering(s.drop_first());
    } else if s.len() > 0 {
        assert(ascii_lowered(s)[0] == ascii_lowercase(s[0]));
    }
}

proof fn end_commutes_with_lowering(s: Seq<char>)
    ensures
        trimmed_end(ascii_lowered(s)) == ascii_lowered(trimmed_end(s)),
    decreases s.len(),
{
    if s.len() > 0 && is_white_space(s.last()) {
        assert(ascii_lowered(s).drop_last() =~= ascii_lowered(s.drop_last()));
        end_commutes_with_lowering(s.drop_last());
    } else if s.len() > 0 {
        assert(ascii_lowered(s).last() == ascii_lowercase(s.last()));
    }
}

/// A text is encoded character by character.
pub proof fn encoding_splits(a: Seq<char>, b: Seq<char>)
    ensures
        encode_utf8(a + b) == encode_utf8(a) + encode_utf8(b),
    decreases a.len(),
{
    if a.len() == 0 {
        assert(a + b =~= b);
        assert(encode_utf8(a) + encode_utf8(b) =~= encode_utf8(b));
    } else {
        assert((a + b).drop_first() =~= a.drop_first() + b);
        encoding_splits(a.drop_first(), b);
        assert(encode_utf8(a + b) =~= encode_utf8(a) + encode_utf8(b));
    }
}

/// Texts with the same bytes are the same.
pub proof fn encoding_is_injective(a: Seq<char>, b: Seq<char>)
    requires
        encode_utf8(a) == encode_utf8(b),
    ensures
        a == b,
{
    encode_utf8_decode_utf8(a);
    encode_utf8_decode_utf8(b);
}

/// Where the bytes of a text are parted between two characters, each part is the
/// bytes of that part of the text.
pub proof fn parted_between_characters(text: Seq<char>, n: int)
    requires
        0 <= n <= encode_utf8(text).len(),
        valid_utf8(encode_utf8(text).take(n)) || valid_utf8(encode_utf8(text).skip(n)),
    ensures
        exists|a: Seq<char>, b: Seq<char>|
            text == a + b && #[trigger] encode_utf8(a) == encode_utf8(text).take(n)
                && #[trigger] encode_utf8(b) == encode_utf8(text).skip(n),
{
    let bytes = encode_utf8(text);
    let front = bytes.take(n);
    let back = bytes.skip(n);
    encode_utf8_valid_utf8(text);
    assert(bytes.subrange(0, n) =~= front);
    assert(bytes.subrange(n, bytes.len() as int) =~= back);
    if !valid_utf8(back) {
        partial_valid_partial_invalid_utf8(bytes, n);
    }
    if !valid_utf8(front) {
        if n == bytes.len() {
            assert(front =~= bytes);
        } else {
            assert(!is_continuation_byte(back[0]));
            is_char_boundary_iff_not_is_continuation_byte(bytes, n);
            valid_utf8_split(bytes, n);
        }
    }
    let a = decode_utf8(front);
    let b = decode_utf8(back);
    decode_utf8_encode_utf8(front);
    decode_utf8_encode_utf8(back);
    encoding_splits(a, b);
    assert(front + back =~= bytes);
    encoding_is_injective(a + b, text);
}

/// Whether two texts are the same.
pub fn same_text(a: &str, b: &str) -> (res: bool)
    ensures
        res == (a@ == b@),
{
    let x = a.as_bytes();
    let y = b.as_bytes();
    proof {
        encode_utf8_decode_utf8(a@);
        encode_utf8_decode_utf8(b@);
    }
    if x.len() != y.len() {
        return false;
    }
    let mut i: usize = 0;
    while i < x.len()
        invariant
            i <= x.len(),
            x.len() == y.len(),
            x@ == encode_utf8(a@),
            y@ == encode_utf8(b@),
            forall|j: int| 0 <= j < i ==> x@[j] == y@[j],
        decreases x.len() - i,
    {
        if x[i] != y[i] {
            return false;
        }
        i += 1;
    }
    assert(x@ =~= y@);
    true
}

/// The decimal digit of a number below ten.
pub open spec fn digit(n: nat) -> char {
    ((n + 48) as u32) as char
}

/// The decimal digits of a number, without leading zeros.
pub open spec fn decimal(n: nat) -> Seq<char>
    decreases n,
{
    if n < 10 {
        seq![digit(n)]
    } else {
        decimal(n / 10).push(digit(n % 10))
    }
}

/// A number below ten is one digit; ten times a number and a digit more has that
/// digit behind those of the number.
pub proof fn a_digit_more(n: nat, d: nat)
    requires
        d < 10,
    ensures
        decimal(d) == seq![((48 + d) as u32) as char],
        n > 0 ==> decimal(10 * n + d) == decimal(n) + seq![((48 + d) as u32) as char],
{
    if n > 0 {
        assert((10 * n + d) / 10 == n && (10 * n + d) % 10 == d);
        assert(decimal(10 * n + d) =~= decimal(n) + seq![((48 + d) as u32) as char]);
    }
}

fn digit_text(n: u64) -> (res: &'static str)
    requires
        n < 10,
    ensures
        res@ == seq![digit(n as nat)],
{
    proof {
        reveal_strlit("0");
        reveal_strlit("1");
        reveal_strlit("2");
        reveal_strlit("3");
        reveal_strlit("4");
        reveal_strlit("5");
        reveal_strlit("6");
        reveal_strlit("7");
        reveal_strlit("8");
        reveal_strlit("9");
    }
    if n == 0 {
        "0"
    } else if n == 1 {
        "1"
    } else if n == 2 {
        "2"
    } else if n == 3 {
        "3"
    } else if n == 4 {
        "4"
    } else if n == 5 {
        "5"
    } else if n == 6 {
        "6"
    } else if n == 7 {
        "7"
    } else if n == 8 {
        "8"
    } else {
        "9"
    }
}

/// A number in decimal digits.
pub fn decimal_text(n: u64) -> (res: String)
    ensures
        res@ == decimal(n as nat),
    decreases n,
{
    if n < 10 {
        digit_text(n).to_owned()
    } else {
        let mut s = decimal_text(n / 10);
        s.append(digit_text(n % 10));
        assert(s@ =~= decimal((n / 10) as nat).push(digit((n % 10) as nat)));
        s
    }
}

} // verus!
