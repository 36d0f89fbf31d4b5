//! Reading the size of a video from the answer of the stream probe, which
//! prints it as `<width>x<height>`.

use crate::text::{trim, trimmed_text};
use vstd::prelude::*;
use vstd::utf8::encode_utf8;

verus! {

/// The byte of the digit 0.
pub const ZERO: u8 = 0x30;

/// The byte of the digit 9.
pub const NINE: u8 = 0x39;

/// The byte of the plus sign.
pub const PLUS: u8 = 0x2b;

/// The byte of the letter x.
pub const X: u8 = 0x78;

pub open spec fn is_digit(b: u8) -> bool {
    ZERO <= b && b <= NINE
}

/// The number that the decimal digits `s` write.
pub open spec fn digits_value(s: Seq<u8>) -> nat
    decreases s.len(),
{
    if s.len() == 0 {
        0
    } else {
        digits_value(s.drop_last()) * 10 + (s.last() - ZERO) as nat
    }
}

pub open spec fn all_digits(s: Seq<u8>) -> bool {
    forall|i: int| 0 <= i < s.len() ==> is_digit(#[trigger] s[i])
}

/// The number that the digits `digits` write: at least one digit, nothing
/// but digits, and a value that the machine's word holds.
pub open spec fn digits_number(digits: Seq<u8>) -> Option<usize> {
    if digits.len() > 0 && all_digits(digits) && digits_value(digits) <= usize::MAX {
        Some(digits_value(digits) as usize)
    } else {
        None
    }
}

/// The number that `s` writes: decimal digits with or without a `+` before
/// them.
pub open spec fn parsed_number(s: Seq<u8>) -> Option<usize> {
    digits_number(
        if s.len() > 0 && s[0] == PLUS {
            s.drop_first()
        } else {
            s
        },
    )
}

/// `t` has its first `x` at `i`.
pub open spec fn first_x_at(t: Seq<u8>, i: int) -> bool {
    &&& 0 <= i < t.len()
    &&& t[i] == X
    &&& forall|j: int| 0 <= j < i ==> #[trigger] t[j] != X
}

/// Width and height that the bytes `t` give: two numbers with one `x`
/// between them.
pub open spec fn size_of_text(t: Seq<u8>) -> Option<(usize, usize)> {
    if exists|i: int| first_x_at(t, i) {
        let i = choose|i: int| first_x_at(t, i);
        match (parsed_number(t.take(i)), parsed_number(t.skip(i + 1))) {
            (Some(w), Some(h)) => Some((w, h)),
            _ => None,
        }
    } else {
        None
    }
}

/// Width and height that the probe's answer `output` gives: two numbers
/// with one `x` between them, and white space, as Unicode knows it, at most
/// around the whole.
pub open spec fn dimensions_of(output: Seq<char>) -> Option<(usize, usize)> {
    size_of_text(encode_utf8(trimmed_text(output)))
}

/// More digits write a number that is no smaller.
proof fn lemma_digits_value_grows(s: Seq<u8>, n: int)
    requires
        0 <= n <= s.len(),
        all_digits(s),
    ensures
        digits_value(s.take(n)) <= digits_value(s),
    decreases s.len() - n,
{
    if n < s.len() {
        let front = s.drop_last();
        assert(all_digits(front)) by {
            assert forall|i: int| 0 <= i < front.len() implies is_digit(#[trigger] front[i]) by {
            }
        }
        lemma_digits_value_grows(front, n);
        assert(front.take(n) =~= s.take(n));
    } else {
        assert(s.take(n) =~= s);
    }
}

/// The number that the digits `s[first..to]` write.
fn parse_digits(s: &[u8], first: usize, to: usize) -> (r: Option<usize>)
    requires
        first <= to <= s@.len(),
    ensures
        r == digits_number(s@.subrange(first as int, to as int)),
{
    let ghost digits = s@.subrange(first as int, to as int);
    if first == to {
        return None;
    }
    let mut value: usize = 0;
    let mut i: usize = first;
    while i < to
        invariant
            first <= i <= to <= s@.len(),
            first < to,
            digits == s@.subrange(first as int, to as int),
            all_digits(digits.take(i - first)),
            value == digits_value(digits.take(i - first)),
        decreases to - i,
    {
        let b = s[i];
        let ghost seen = digits.take(i - first);
        let ghost next = digits.take(i + 1 - first);
        proof {
            assert(next.drop_last() =~= seen);
        }
        if !(ZERO <= b && b <= NINE) {
            proof {
                if all_digits(digits) {
                    assert(is_digit(digits[i - first]));
                }
            }
            return None;
        }
        let d: usize = (b - ZERO) as usize;
        let grown = match value.checked_mul(10) {
            Some(v) => v.checked_add(d),
            None => None,
        };
        proof {
            assert(all_digits(next)) by {
                assert forall|j: int| 0 <= j < next.len() implies is_digit(#[trigger] next[j]) by {
                }
            }
        }
        match grown {
            Some(v) => {
                value = v;
            },
            None => {
                proof {
                    if all_digits(digits) {
                        lemma_digits_value_grows(digits, i + 1 - first);
                    }
                }
                return None;
            },
        }
        i = i + 1;
    }
    proof {
        assert(digits.take(i - first) =~= digits);
    }
    Some(value)
}

/// The number that `s[from..to]` writes.
fn parse_number(s: &[u8], from: usize, to: usize) -> (r: Option<usize>)
    requires
        from <= to <= s@.len(),
    ensures
        r == parsed_number(s@.subrange(from as int, to as int)),
{
    let ghost text = s@.subrange(from as int, to as int);
    if from < to && s[from] == PLUS {
        proof {
            assert(text.drop_first() =~= s@.subrange(from + 1, to as int));
        }
        parse_digits(s, from + 1, to)
    } else {
        parse_digits(s, from, to)
    }
}

/// Width and height of a video, read from what the stream probe printed.
pub fn parse_dimensions(output: &str) -> (r: Option<(usize, usize)>)
    ensures
        r == dimensions_of(output@),
{
    let text = trim(output).as_bytes();
    let ghost t = text@;
    let mut i: usize = 0;
    while i < text.len() && text[i] != X
        invariant
            i <= text@.len(),
            t == text@,
            forall|j: int| 0 <= j < i ==> #[trigger] t[j] != X,
        decreases text@.len() - i,
    {
        i = i + 1;
    }
    if i == text.len() {
        proof {
            assert forall|k: int| !first_x_at(t, k) by {}
        }
        return None;
    }
    proof {
        assert(first_x_at(t, i as int));
        let w = choose|k: int| first_x_at(t, k);
        assert(w == i);
        assert(t.take(i as int) =~= text@.subrange(0, i as int));
        assert(t.skip(i + 1) =~= text@.subrange(i + 1, text@.len() as int));
    }
    let width = parse_number(text, 0, i);
    let height = parse_number(text, i + 1, text.len());
    match (width, height) {
        (Some(w), Some(h)) => Some((w, h)),
        _ => None,
    }
}

} // verus!
