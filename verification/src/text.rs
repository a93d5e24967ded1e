//! Text of a command line: its characters, the tokens that white space
//! separates, and decimal numbers.

use vstd::prelude::*;

verus! {

/// Whether `c` separates tokens: the characters that Unicode lists as white
/// space.
pub open spec fn is_whitespace(c: char) -> bool {
    let u = c as u32;
    ||| 0x09 <= u <= 0x0D
    ||| u == 0x20
    ||| u == 0x85
    ||| u == 0xA0
    ||| u == 0x1680
    ||| 0x2000 <= u <= 0x200A
    ||| u == 0x2028
    ||| u == 0x2029
    ||| u == 0x202F
    ||| u == 0x205F
    ||| u == 0x3000
}

/// The number of characters at the start of `s` before its first white space.
pub open spec fn word_len(s: Seq<char>) -> nat
    decreases s.len(),
{
    if s.len() == 0 || is_whitespace(s[0]) {
        0
    } else {
        1 + word_len(s.skip(1))
    }
}

/// The tokens of `s`: its longest runs of characters that are not white
/// space, from left to right.
pub open spec fn split_whitespace(s: Seq<char>) -> Seq<Seq<char>>
    decreases s.len(),
    via split_whitespace_decreases
{
    if s.len() == 0 {
        Seq::empty()
    } else if is_whitespace(s[0]) {
        split_whitespace(s.skip(1))
    } else {
        let n = word_len(s) as int;
        seq![s.take(n)] + split_whitespace(s.skip(n))
    }
}

#[via_fn]
proof fn split_whitespace_decreases(s: Seq<char>) {
    if s.len() > 0 && !is_whitespace(s[0]) {
        lemma_word_len_bound(s);
    }
}

/// A word is no longer than the text it starts, and a text that starts with
/// another character than white space starts with a word that is not empty.
pub proof fn lemma_word_len_bound(s: Seq<char>)
    ensures
        word_len(s) <= s.len(),
        s.len() > 0 && !is_whitespace(s[0]) ==> word_len(s) >= 1,
    decreases s.len(),
{
    if s.len() > 0 && !is_whitespace(s[0]) {
        lemma_word_len_bound(s.skip(1));
    }
}

/// Whether `c` is one of the decimal digits `0` to `9`.
pub open spec fn is_digit(c: char) -> bool {
    '0' <= c <= '9'
}

/// The number that the decimal digits `s` write.
pub open spec fn digits_value(s: Seq<char>) -> nat
    decreases s.len(),
{
    if s.len() == 0 {
        0
    } else {
        digits_value(s.drop_last()) * 10 + (s.last() as u32 - '0' as u32) as nat
    }
}

/// Whether all of `s` are decimal digits.
pub open spec fn all_digits(s: Seq<char>) -> bool {
    forall|i: int| 0 <= i < s.len() ==> is_digit(#[trigger] s[i])
}

/// The number that the token `s` stands for, if it stands for one that fits
/// 32 bits: an optional `+`, then one decimal digit or more.
pub open spec fn parse_u32(s: Seq<char>) -> Option<u32> {
    let digits = if s.len() > 0 && s[0] == '+' {
        s.skip(1)
    } else {
        s
    };
    if digits.len() > 0 && all_digits(digits) && digits_value(digits) <= u32::MAX {
        Some(digits_value(digits) as u32)
    } else {
        None
    }
}

/// A token of a text: the characters from `start` up to `end`.
#[derive(Clone, Copy, Debug)]
pub struct Span {
    pub start: usize,
    pub end: usize,
}

impl Span {
    /// The characters of `s` that the span covers.
    pub open spec fn of(self, s: Seq<char>) -> Seq<char> {
        s.subrange(self.start as int, self.end as int)
    }
}

/// The texts that `spans` cover in `s`, in the order of `spans`.
pub open spec fn texts(s: Seq<char>, spans: Seq<Span>) -> Seq<Seq<char>> {
    Seq::new(spans.len(), |k: int| spans[k].of(s))
}

/// The characters of `s`.
pub fn chars_of(s: &str) -> (chars: Vec<char>)
    ensures
        chars@ == s@,
{
    let mut chars: Vec<char> = Vec::new();
    for c in it: s.chars()
        invariant
            it.seq() == s@,
            chars@ == it.seq().take(it.index()),
    {
        chars.push(c);
    }
    chars
}

/// Tells whether `c` is white space.
pub fn char_is_whitespace(c: char) -> (b: bool)
    ensures
        b == is_whitespace(c),
{
    let u: u32 = c as u32;
    (0x09 <= u && u <= 0x0D) || u == 0x20 || u == 0x85 || u == 0xA0 || u == 0x1680
        || (0x2000 <= u && u <= 0x200A) || u == 0x2028 || u == 0x2029 || u == 0x202F
        || u == 0x205F || u == 0x3000
}

/// Skipping `a` characters and then `b` more skips `a + b`.
proof fn lemma_skip_skip(s: Seq<char>, a: int, b: int)
    requires
        0 <= a,
        0 <= b,
        a + b <= s.len(),
    ensures
        s.skip(a).skip(b) == s.skip(a + b),
{
    assert(s.skip(a).skip(b) =~= s.skip(a + b));
}

/// Whether `spans` are the tokens of `s`, from left to right: each covers
/// characters that are not white space, one at least; white space lies
/// between one and the next; and no other character of `s` is left out.
pub open spec fn are_tokens(s: Seq<char>, spans: Seq<Span>) -> bool {
    &&& forall|k: int|
        0 <= k < spans.len() ==> (#[trigger] spans[k]).start < spans[k].end <= s.len()
    &&& forall|k: int| 0 <= k < spans.len() - 1 ==> (#[trigger] spans[k]).end < spans[k + 1].start
    &&& forall|k: int, i: int|
        #![trigger spans[k], s[i]]
        0 <= k < spans.len() && spans[k].start <= i < spans[k].end ==> !is_whitespace(s[i])
    &&& forall|i: int|
        0 <= i < s.len() && !is_whitespace(#[trigger] s[i]) ==> exists|k: int|
            0 <= k < spans.len() && (#[trigger] spans[k]).start <= i < spans[k].end
}

/// Finds the tokens of `chars`.
pub fn tokenize(chars: &Vec<char>) -> (spans: Vec<Span>)
    ensures
        are_tokens(chars@, spans@),
        texts(chars@, spans@) == split_whitespace(chars@),
{
    let n = chars.len();
    let mut spans: Vec<Span> = Vec::new();
    let mut pos: usize = 0;
    proof {
        assert(chars@.skip(0) =~= chars@);
        assert(texts(chars@, spans@) + split_whitespace(chars@) =~= split_whitespace(chars@));
    }
    while pos < n
        invariant
            n == chars@.len(),
            pos <= n,
            split_whitespace(chars@) == texts(chars@, spans@) + split_whitespace(
                chars@.skip(pos as int),
            ),
            are_tokens(chars@.take(pos as int), spans@),
            spans@.len() > 0 && spans@.last().end == pos ==> pos == n || is_whitespace(
                chars@[pos as int],
            ),
        decreases n - pos,
    {
        let ghost rest = chars@.skip(pos as int);
        let ghost seen = chars@.take(pos as int);
        let ghost found = spans@;
        if char_is_whitespace(chars[pos]) {
            proof {
                lemma_skip_skip(chars@, pos as int, 1);
            }
            pos += 1;
            proof {
                let now = chars@.take(pos as int);
                assert forall|i: int| 0 <= i < now.len() && !is_whitespace(
                    #[trigger] now[i],
                ) implies exists|k: int|
                    0 <= k < found.len() && (#[trigger] found[k]).start <= i < found[k].end by {
                    assert(seen[i] == now[i]);
                }
                assert forall|k: int, i: int|
                    #![trigger found[k], now[i]]
                    0 <= k < found.len() && found[k].start <= i < found[k].end
                    implies !is_whitespace(now[i]) by {
                    assert(found[k].end <= seen.len());
                    assert(seen[i] == now[i]);
                }
            }
        } else {
            let start = pos;
            while pos < n && !char_is_whitespace(chars[pos])
                invariant
                    n == chars@.len(),
                    start <= pos <= n,
                    word_len(rest) == (pos - start) + word_len(chars@.skip(pos as int)),
                    rest == chars@.skip(start as int),
                    forall|i: int| start <= i < pos ==> !is_whitespace(#[trigger] chars@[i]),
                decreases n - pos,
            {
                proof {
                    lemma_skip_skip(chars@, pos as int, 1);
                }
                pos += 1;
            }
            let span = Span { start, end: pos };
            proof {
                let len = (pos - start) as int;
                assert(word_len(chars@.skip(pos as int)) == 0);
                assert(word_len(rest) == len);
                assert(rest.len() > 0 && !is_whitespace(rest[0]));
                assert(split_whitespace(rest) == seq![rest.take(len)] + split_whitespace(
                    rest.skip(len),
                ));
                lemma_skip_skip(chars@, start as int, len);
                assert(rest.take(len) =~= chars@.subrange(start as int, pos as int));
                assert(texts(chars@, found.push(span)) =~= texts(chars@, found) + seq![
                    rest.take(len),
                ]);
                let now = chars@.take(pos as int);
                let all = found.push(span);
                assert forall|k: int| 0 <= k < all.len() implies (#[trigger] all[k]).start
                    < all[k].end <= now.len() by {
                    if k < found.len() {
                        assert(found[k].end <= seen.len());
                    }
                }
                assert forall|k: int| 0 <= k < all.len() - 1 implies (#[trigger] all[k]).end < all[k
                    + 1].start by {
                    if k < found.len() - 1 {
                        assert(found[k].end < found[k + 1].start);
                    } else {
                        assert(all[k] == found.last());
                        assert(found.last().end <= seen.len());
                    }
                }
                assert forall|k: int, i: int|
                    #![trigger all[k], now[i]]
                    0 <= k < all.len() && all[k].start <= i < all[k].end implies !is_whitespace(
                    now[i],
                ) by {
                    if k < found.len() {
                        assert(found[k].end <= seen.len());
                        assert(seen[i] == now[i]);
                    } else {
                        assert(now[i] == chars@[i]);
                    }
                }
                assert forall|i: int| 0 <= i < now.len() && !is_whitespace(
                    #[trigger] now[i],
                ) implies exists|k: int|
                    0 <= k < all.len() && (#[trigger] all[k]).start <= i < all[k].end by {
                    if i < start {
                        assert(seen[i] == now[i]);
                        let k = choose|k: int|
                            0 <= k < found.len() && (#[trigger] found[k]).start <= i < found[k].end;
                        assert(all[k] == found[k]);
                    } else {
                        assert(all[found.len() as int] == span);
                    }
                }
            }
            spans.push(span);
        }
    }
    proof {
        assert(chars@.skip(pos as int).len() == 0);
        assert(texts(chars@, spans@) + Seq::<Seq<char>>::empty() =~= texts(chars@, spans@));
        assert(chars@.take(pos as int) =~= chars@);
    }
    spans
}

/// The digits of a text write at least the number that the digits of its
/// start write.
proof fn lemma_digits_value_grows(s: Seq<char>, k: int)
    requires
        0 <= k <= s.len(),
    ensures
        digits_value(s.take(k)) <= digits_value(s),
    decreases s.len(),
{
    if k == s.len() {
        assert(s.take(k) =~= s);
    } else {
        lemma_digits_value_grows(s.drop_last(), k);
        assert(s.drop_last().take(k) =~= s.take(k));
    }
}

/// Reads the token of `chars` from `start` up to `end` as a number.
pub fn parse_number(chars: &Vec<char>, start: usize, end: usize) -> (value: Option<u32>)
    requires
        start <= end <= chars@.len(),
    ensures
        value == parse_u32(chars@.subrange(start as int, end as int)),
{
    let ghost token = chars@.subrange(start as int, end as int);
    let first: usize = if start < end && chars[start] == '+' {
        start + 1
    } else {
        start
    };
    let ghost digits = chars@.subrange(first as int, end as int);
    proof {
        if first == start {
            assert(digits =~= token);
            if token.len() > 0 {
                assert(token[0] == chars@[start as int]);
            }
        } else {
            assert(token[0] == '+');
            assert(digits =~= token.skip(1));
        }
    }
    if first == end {
        return None;
    }
    let mut value: u64 = 0;
    let mut pos: usize = first;
    while pos < end
        invariant
            first <= pos <= end <= chars@.len(),
            first < end,
            token == chars@.subrange(start as int, end as int),
            digits == chars@.subrange(first as int, end as int),
            digits == if token.len() > 0 && token[0] == '+' {
                token.skip(1)
            } else {
                token
            },
            all_digits(digits.take(pos - first)),
            value == digits_value(digits.take(pos - first)),
            value <= u32::MAX,
        decreases end - pos,
    {
        let c = chars[pos];
        let ghost before = digits.take(pos - first);
        let ghost upto = digits.take(pos - first + 1);
        proof {
            assert(digits[pos - first] == c);
            assert(upto.drop_last() =~= before);
            assert(upto.last() == c);
        }
        if !('0' <= c && c <= '9') {
            assert(!all_digits(digits));
            return None;
        }
        let digit: u64 = (c as u32 - '0' as u32) as u64;
        let next: u64 = value * 10 + digit;
        proof {
            assert(next == digits_value(upto));
            assert forall|i: int| 0 <= i < upto.len() implies is_digit(#[trigger] upto[i]) by {
                if i < before.len() {
                    assert(upto[i] == before[i]);
                }
            }
        }
        if next > 0xFFFF_FFFF {
            proof {
                lemma_digits_value_grows(digits, pos - first + 1);
            }
            return None;
        }
        value = next;
        pos += 1;
    }
    proof {
        assert(digits.take(end - first) =~= digits);
    }
    Some(value as u32)
}

/// Tells whether the characters of `chars` from `start` up to `end` are those
/// of `word`.
pub fn span_is(chars: &Vec<char>, start: usize, end: usize, word: &str) -> (same: bool)
    requires
        start <= end <= chars@.len(),
    ensures
        same == (chars@.subrange(start as int, end as int) == word@),
{
    let expected = chars_of(word);
    let ghost token = chars@.subrange(start as int, end as int);
    if end - start != expected.len() {
        return false;
    }
    let mut i: usize = 0;
    while i < expected.len()
        invariant
            start <= end <= chars@.len(),
            expected@ == word@,
            end - start == expected@.len(),
            token == chars@.subrange(start as int, end as int),
            i <= expected@.len(),
            forall|j: int| 0 <= j < i ==> token[j] == expected@[j],
        decreases expected@.len() - i,
    {
        if chars[start + i] != expected[i] {
            assert(token[i as int] != word@[i as int]);
            return false;
        }
        i += 1;
    }
    assert(token =~= word@);
    true
}

} // verus!
