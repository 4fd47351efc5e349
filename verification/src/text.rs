//! String slices cut at single-byte characters, and decimal numerals.
//!
//! Contracts speak of a string as its sequence of characters; the code walks
//! the UTF-8 bytes, and the lemmas below connect the two.

use vstd::prelude::*;
use vstd::string::*;
use vstd::utf8::*;

verus! {

broadcast use {vstd::utf8::group_utf8_lib, vstd::slice::group_slice_axioms};

/// True when `c` is encoded in UTF-8 as the single byte `c as u8`.
pub open spec fn single_byte(c: char) -> bool {
    c as u32 <= 0x7f
}

/// The encoding of a character starts with the byte of a single-byte
/// character exactly when it is that character, and is then that byte alone.
proof fn lemma_encode_scalar_head(x: char, c: char)
    requires
        single_byte(c),
    ensures
        1 <= encode_scalar(x as u32).len() <= 4,
        encode_scalar(x as u32)[0] == c as u8 <==> x == c,
        x == c ==> encode_scalar(x as u32) == seq![c as u8],
        c as u8 <= 0x7f,
{
    let v = x as u32;
    let b = c as u8;
    char_is_scalar(x);
    char_u32_cast(x, v);
    char_u32_cast(c, c as u32);
    assert(v <= 0x7f ==> (v & 0x7f) as u8 == v) by (bit_vector);
    assert(forall|y: u8| #![auto] (0xC0u8 | y) >= 0xC0u8) by (bit_vector);
    assert(forall|y: u8| #![auto] (0xE0u8 | y) >= 0xE0u8) by (bit_vector);
    assert(forall|y: u8| #![auto] (0xF0u8 | y) >= 0xF0u8) by (bit_vector);
    if x == c {
        assert(encode_scalar(v) =~= seq![b]);
    }
}

/// Encoding distributes over concatenation.
proof fn lemma_encode_concat(a: Seq<char>, b: Seq<char>)
    ensures
        encode_utf8(a + b) == encode_utf8(a) + encode_utf8(b),
    decreases a.len(),
{
    if a.len() == 0 {
        assert(a + b =~= b);
        assert(encode_utf8(a) + encode_utf8(b) =~= encode_utf8(b));
    } else {
        lemma_encode_concat(a.drop_first(), b);
        assert((a + b).drop_first() =~= a.drop_first() + b);
        assert(encode_utf8(a + b) =~= encode_utf8(a) + encode_utf8(b));
    }
}

/// A string has no more characters than bytes.
proof fn lemma_encode_len(s: Seq<char>)
    ensures
        s.len() <= encode_utf8(s).len(),
    decreases s.len(),
{
    if s.len() > 0 {
        lemma_encode_scalar_head(s[0], '\0');
        lemma_encode_len(s.drop_first());
    }
}

/// A single-byte character that occurs in a string occurs as a byte of its encoding.
proof fn lemma_encode_contains(s: Seq<char>, c: char)
    requires
        single_byte(c),
        s.contains(c),
    ensures
        encode_utf8(s).contains(c as u8),
    decreases s.len(),
{
    let bytes = encode_utf8(s);
    lemma_encode_scalar_head(s[0], c);
    if s[0] == c {
        assert(bytes[0] == c as u8);
    } else {
        let rest = s.drop_first();
        let i = choose|i: int| 0 <= i < s.len() && s[i] == c;
        assert(rest[i - 1] == c);
        lemma_encode_contains(rest, c);
        let j = choose|j: int| 0 <= j < encode_utf8(rest).len() && encode_utf8(rest)[j] == c as u8;
        assert(bytes[encode_scalar(s[0] as u32).len() + j] == c as u8);
    }
}

/// The encoding of a non-empty string starts with a given 7-bit byte exactly
/// when the string starts with that character.
proof fn lemma_encode_head(s: Seq<char>, c: char)
    requires
        single_byte(c),
        s.len() > 0,
    ensures
        encode_utf8(s).len() > 0,
        encode_utf8(s)[0] == c as u8 <==> s[0] == c,
        c as u8 <= 0x7f,
{
    lemma_encode_scalar_head(s[0], c);
}

/// The encoding of a character ends with the byte of a single-byte
/// character exactly when it is that character.
proof fn lemma_encode_scalar_tail(x: char, c: char)
    requires
        single_byte(c),
    ensures
        encode_scalar(x as u32).last() == c as u8 <==> x == c,
{
    lemma_encode_scalar_head(x, c);
    assert(forall|y: u8| #![auto] (0x80u8 | y) >= 0x80u8) by (bit_vector);
}

/// The encoding of a non-empty string ends with a given 7-bit byte exactly
/// when the string ends with that character.
proof fn lemma_encode_last(s: Seq<char>, c: char)
    requires
        single_byte(c),
        s.len() > 0,
    ensures
        encode_utf8(s).len() > 0,
        encode_utf8(s).last() == c as u8 <==> s.last() == c,
        c as u8 <= 0x7f,
{
    let last = seq![s.last()];
    lemma_encode_concat(s.drop_last(), last);
    assert(s =~= s.drop_last() + last);
    lemma_encode_scalar_head(s.last(), c);
    lemma_encode_scalar_tail(s.last(), c);
    reveal_with_fuel(encode_utf8, 2);
    assert(last.drop_first() =~= Seq::<char>::empty());
    assert(encode_utf8(last) =~= encode_scalar(s.last() as u32));
}

/// The number of characters of a string slice fits in a `usize`.
pub(crate) proof fn lemma_len_fits(s: &str, bytes: &[u8])
    requires
        bytes@ == s.spec_bytes(),
    ensures
        s@.len() <= usize::MAX,
{
    lemma_encode_len(s@);
    assert(vstd::slice::spec_slice_len(bytes) == bytes@.len());
}

/// Where a string is cut before the first occurrence of a character, the
/// cut is at that character's first index.
proof fn lemma_first_at(s: Seq<char>, head: Seq<char>, tail: Seq<char>, c: char)
    requires
        head + tail == s,
        !head.contains(c),
        tail.len() > 0,
        tail[0] == c,
    ensures
        s.index_of_first(c) == Some(head.len() as int),
        head == s.subrange(0, head.len() as int),
        tail == s.subrange(head.len() as int, s.len() as int),
{
    let at = head.len() as int;
    s.index_of_first_ensures(c);
    assert(s[at] == tail[0]);
    assert forall|j: int| 0 <= j < at implies s[j] != c by {
        assert(s[j] == head[j]);
    }
    assert(head =~= s.subrange(0, at));
    assert(tail =~= s.subrange(at, s.len() as int));
}

/// The first index of a character in a string that starts with another
/// character is one more than its first index in the rest.
pub(crate) proof fn lemma_first_after_head(s: Seq<char>, c: char)
    requires
        s.len() > 0,
        s[0] != c,
    ensures
        s.index_of_first(c) == match s.drop_first().index_of_first(c) {
            Some(i) => Some(i + 1),
            None => None,
        },
{
    let rest = s.drop_first();
    s.index_of_first_ensures(c);
    rest.index_of_first_ensures(c);
    match rest.index_of_first(c) {
        Some(i) => {
            assert(s[i + 1] == rest[i]);
            assert forall|j: int| 0 <= j < i + 1 implies s[j] != c by {
                if j > 0 {
                    assert(s[j] == rest[j - 1]);
                }
            }
        },
        None => {
            if s.contains(c) {
                let k = choose|k: int| 0 <= k < s.len() && s[k] == c;
                assert(rest[k - 1] == c);
            }
        },
    }
}

/// The two halves of a valid encoding cut at a character boundary decode to
/// the two halves of the string.
proof fn lemma_split(s: &str, head: &str, tail: &str, mid: int)
    requires
        is_char_boundary(s.spec_bytes(), mid),
        head.spec_bytes() == s.spec_bytes().subrange(0, mid),
        tail.spec_bytes() == s.spec_bytes().subrange(mid, s.spec_bytes().len() as int),
    ensures
        head@ + tail@ == s@,
{
    let bytes = s.spec_bytes();
    decode_utf8_split(bytes, mid);
    assert(decode_utf8(bytes) == s@);
    assert(decode_utf8(head.spec_bytes()) == head@);
    assert(decode_utf8(tail.spec_bytes()) == tail@);
}

/// Whether `s` starts with the single-byte character `c`.
pub(crate) fn starts_with(s: &str, c: char) -> (r: bool)
    requires
        single_byte(c),
    ensures
        r == (s@.len() > 0 && s@[0] == c),
{
    let bytes = s.as_bytes();
    if bytes.len() == 0 {
        proof {
            lemma_encode_len(s@);
        }
        false
    } else {
        proof {
            if s@.len() > 0 {
                lemma_encode_head(s@, c);
            }
        }
        bytes[0] == c as u8
    }
}

/// Cuts `s` in two before the first occurrence of the single-byte character
/// `c`; `None` when `c` does not occur.
pub(crate) fn split_before<'a>(s: &'a str, c: char) -> (r: Option<(&'a str, &'a str)>)
    requires
        single_byte(c),
    ensures
        match r {
            Some((head, tail)) => {
                &&& s@.index_of_first(c) == Some(head@.len() as int)
                &&& head@ == s@.subrange(0, head@.len() as int)
                &&& tail@ == s@.subrange(head@.len() as int, s@.len() as int)
                &&& tail@.len() > 0
                &&& tail@[0] == c
            },
            None => s@.index_of_first(c) is None,
        },
{
    let bytes = s.as_bytes();
    let b = c as u8;
    let mut i: usize = 0;
    while i < bytes.len()
        invariant
            i <= bytes@.len(),
            bytes@ == s.spec_bytes(),
            b == c as u8,
            single_byte(c),
            forall|j: int| 0 <= j < i ==> bytes@[j] != b,
        decreases bytes.len() - i,
    {
        if bytes[i] == b {
            proof {
                is_char_boundary_iff_not_is_continuation_byte(bytes@, i as int);
            }
            let (head, tail) = s.split_at(i);
            proof {
                lemma_split(s, head, tail, i as int);
                if head@.contains(c) {
                    lemma_encode_contains(head@, c);
                }
                assert(tail.spec_bytes()[0] == b);
                if tail@.len() > 0 {
                    lemma_encode_head(tail@, c);
                }
                lemma_first_at(s@, head@, tail@, c);
            }
            return Some((head, tail));
        }
        i += 1;
    }
    proof {
        if s@.contains(c) {
            lemma_encode_contains(s@, c);
        }
        s@.index_of_first_ensures(c);
    }
    None
}

/// `s` without its first character, which is a single-byte one.
pub(crate) fn skip_first<'a>(s: &'a str) -> (r: &'a str)
    requires
        s@.len() > 0,
        single_byte(s@[0]),
    ensures
        r@ == s@.drop_first(),
{
    proof {
        let bytes = s.spec_bytes();
        lemma_encode_head(s@, s@[0]);
        assert(is_leading_byte_width_1(bytes[0]));
        assert(length_of_first_scalar(bytes) == 1);
        assert(valid_utf8(pop_first_scalar(bytes)));
        assert(is_char_boundary(pop_first_scalar(bytes), 0));
        assert(is_char_boundary(bytes, 1));
    }
    let (head, tail) = s.split_at(1);
    proof {
        lemma_split(s, head, tail, 1);
        lemma_encode_len(head@);
        assert(head@.len() == 1);
        assert(tail@ =~= s@.drop_first());
    }
    tail
}

/// Whether `s` ends with the single-byte character `c`.
pub(crate) fn ends_with(s: &str, c: char) -> (r: bool)
    requires
        single_byte(c),
    ensures
        r == (s@.len() > 0 && s@.last() == c),
{
    let bytes = s.as_bytes();
    let n = bytes.len();
    if n == 0 {
        proof {
            lemma_encode_len(s@);
        }
        false
    } else {
        proof {
            if s@.len() > 0 {
                lemma_encode_last(s@, c);
            }
        }
        bytes[n - 1] == c as u8
    }
}

/// `s` without its last character, which is a single-byte one.
pub(crate) fn skip_last<'a>(s: &'a str) -> (r: &'a str)
    requires
        s@.len() > 0,
        single_byte(s@.last()),
    ensures
        r@ == s@.drop_last(),
{
    let bytes = s.as_bytes();
    let n = bytes.len();
    proof {
        lemma_encode_last(s@, s@.last());
        is_char_boundary_iff_not_is_continuation_byte(bytes@, n - 1);
    }
    let (head, tail) = s.split_at(n - 1);
    proof {
        lemma_split(s, head, tail, n - 1);
        lemma_encode_len(tail@);
        assert(tail@.len() == 1);
        assert(head@ =~= s@.drop_last());
    }
    head
}

/// The ten digits, in order.
pub open spec fn digits() -> Seq<char> {
    seq!['0', '1', '2', '3', '4', '5', '6', '7', '8', '9']
}

/// The decimal numeral of `n`, without leading zeros.
pub open spec fn decimal(n: nat) -> Seq<char>
    decreases n,
{
    if n < 10 {
        seq![digits()[n as int]]
    } else {
        decimal(n / 10).push(digits()[(n % 10) as int])
    }
}

/// Appends the decimal numeral of `n` to `out`.
pub(crate) fn push_decimal(out: &mut String, n: usize)
    ensures
        final(out)@ == old(out)@ + decimal(n as nat),
    decreases n,
{
    if n >= 10 {
        push_decimal(out, n / 10);
    }
    let digit = match n % 10 {
        0 => "0",
        1 => "1",
        2 => "2",
        3 => "3",
        4 => "4",
        5 => "5",
        6 => "6",
        7 => "7",
        8 => "8",
        _ => "9",
    };
    proof {
        reveal_strlit("0");
        reveal_strlit("1");
        reveal_strlit("2");
        reveal_strlit("3");
        reveal_strlit("4");
        reveal_strlit("5");
        reveal_strlit("6");
        reveal_strlit("7");
        reveal_strlit("8");
        reveal_strlit("9");
        assert(digit@ =~= seq![digits()[(n % 10) as int]]);
    }
    out.append(digit);
    proof {
        if n >= 10 {
            assert(out@ =~= old(out)@ + decimal((n / 10) as nat).push(digits()[(n % 10) as int]));
        } else {
            assert(out@ =~= old(out)@ + decimal(n as nat));
        }
    }
}

} // verus!
