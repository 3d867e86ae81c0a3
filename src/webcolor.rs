//! Parsing of `#rrggbb` web colors.
use vstd::prelude::*;

use crate::text::chars_of;

verus! {

/// Why a web color was rejected.
#[derive(Debug, Clone, Copy, PartialEq, Eq, Structural)]
pub enum WebcolorError {
    /// No leading `#`, or not six bytes after it.
    Format,
    /// Six bytes after the `#`, but not a hexadecimal number.
    Digit,
}

/// The number of bytes that `c` takes in UTF-8.
pub open spec fn utf8_len(c: char) -> nat {
    if (c as u32) < 0x80 {
        1
    } else if (c as u32) < 0x800 {
        2
    } else if (c as u32) < 0x10000 {
        3
    } else {
        4
    }
}

/// The number of bytes that `s` takes in UTF-8.
pub open spec fn utf8_size(s: Seq<char>) -> nat
    decreases s.len(),
{
    if s.len() == 0 {
        0
    } else {
        utf8_size(s.drop_last()) + utf8_len(s.last())
    }
}

/// The value of a hexadecimal digit, either case.
pub open spec fn hex_digit(c: char) -> Option<nat> {
    if '0' <= c && c <= '9' {
        Some((c as nat - '0' as nat) as nat)
    } else if 'a' <= c && c <= 'f' {
        Some((c as nat - 'a' as nat + 10) as nat)
    } else if 'A' <= c && c <= 'F' {
        Some((c as nat - 'A' as nat + 10) as nat)
    } else {
        None
    }
}

pub open spec fn all_hex(s: Seq<char>) -> bool {
    forall|i: int| 0 <= i < s.len() ==> (#[trigger] hex_digit(s[i])) is Some
}

/// The number written by hexadecimal digits `s`, most significant first.
pub open spec fn hex_value(s: Seq<char>) -> nat
    decreases s.len(),
{
    if s.len() == 0 {
        0
    } else {
        hex_value(s.drop_last()) * 16 + hex_digit(s.last()).unwrap_or(0)
    }
}

/// Six bytes of a hexadecimal number: six digits, or a `+` sign and five digits.
pub open spec fn hex_number(s: Seq<char>) -> Option<nat> {
    if s.len() == 6 && all_hex(s) {
        Some(hex_value(s))
    } else if s.len() == 6 && s[0] == '+' && all_hex(s.skip(1)) {
        Some(hex_value(s.skip(1)))
    } else {
        None
    }
}

/// The meaning of a web color expression.
pub open spec fn webcolor(e: Seq<char>) -> Result<nat, WebcolorError> {
    if e.len() == 0 || e[0] != '#' || utf8_size(e.skip(1)) != 6 {
        Err(WebcolorError::Format)
    } else {
        match hex_number(e.skip(1)) {
            Some(v) => Ok(v),
            None => Err(WebcolorError::Digit),
        }
    }
}

pub open spec fn pow16(n: nat) -> nat
    decreases n,
{
    if n == 0 {
        1
    } else {
        16 * pow16((n - 1) as nat)
    }
}

fn digit_value(c: char) -> (r: Option<u32>)
    ensures
        match r {
            Some(v) => hex_digit(c) == Some(v as nat),
            None => hex_digit(c) is None,
        },
{
    if '0' <= c && c <= '9' {
        Some(c as u32 - '0' as u32)
    } else if 'a' <= c && c <= 'f' {
        Some(c as u32 - 'a' as u32 + 10)
    } else if 'A' <= c && c <= 'F' {
        Some(c as u32 - 'A' as u32 + 10)
    } else {
        None
    }
}

fn char_size(c: char) -> (r: usize)
    ensures
        r == utf8_len(c),
{
    let v = c as u32;
    if v < 0x80 {
        1
    } else if v < 0x800 {
        2
    } else if v < 0x10000 {
        3
    } else {
        4
    }
}

/// Parses digits `s[from..]`, all of which must be hexadecimal, at most six of them.
fn hex_digits(s: &Vec<char>, from: usize) -> (r: Option<u32>)
    requires
        from <= s@.len(),
        s@.len() - from <= 6,
    ensures
        match r {
            Some(v) => all_hex(s@.skip(from as int)) && v == hex_value(s@.skip(from as int)),
            None => !all_hex(s@.skip(from as int)),
        },
{
    let mut acc: u32 = 0;
    let mut i: usize = from;
    proof {
        assert(s@.subrange(from as int, from as int) =~= Seq::<char>::empty());
    }
    while i < s.len()
        invariant
            from <= i <= s@.len(),
            s@.len() - from <= 6,
            all_hex(s@.subrange(from as int, i as int)),
            acc == hex_value(s@.subrange(from as int, i as int)),
            acc < pow16((i - from) as nat),
        decreases s@.len() - i,
    {
        let ghost prefix = s@.subrange(from as int, i as int);
        let ghost next = s@.subrange(from as int, i + 1);
        proof {
            assert(next.drop_last() =~= prefix);
            assert(next.last() == s@[i as int]);
        }
        match digit_value(s[i]) {
            Some(d) => {
                proof {
                    assert(pow16((i - from) as nat) <= pow16(5)) by {
                        lemma_pow16_mono((i - from) as nat, 5);
                    }
                    assert(pow16(0) == 1);
                    assert(pow16(1) == 16);
                    assert(pow16(2) == 256);
                    assert(pow16(3) == 4096);
                    assert(pow16(4) == 65536);
                    assert(pow16(5) == 1048576);
                    assert(acc * 16 + d < pow16((i - from) as nat) * 16) by (nonlinear_arith)
                        requires acc < pow16((i - from) as nat), d < 16;
                    assert(pow16((i + 1 - from) as nat) == 16 * pow16((i - from) as nat));
                    assert(all_hex(next)) by {
                        assert forall|j: int| 0 <= j < next.len() implies (#[trigger] hex_digit(next[j])) is Some by {
                            if j < prefix.len() {
                                assert(next[j] == prefix[j]);
                            }
                        }
                    }
                }
                acc = acc * 16 + d;
                i = i + 1;
            },
            None => {
                proof {
                    let k = i - from;
                    assert(s@.skip(from as int)[k] == s@[i as int]);
                }
                return None;
            },
        }
    }
    proof {
        assert(s@.subrange(from as int, i as int) =~= s@.skip(from as int));
    }
    Some(acc)
}

proof fn lemma_pow16_mono(a: nat, b: nat)
    requires
        a <= b,
    ensures
        pow16(a) <= pow16(b),
    decreases b,
{
    if a < b {
        lemma_pow16_mono(a, (b - 1) as nat);
    }
}

/// Parses `#rrggbb` into the number `0xrrggbb`.
pub fn parse_webcolor(expr: &str) -> (r: Result<u32, WebcolorError>)
    ensures
        match r {
            Ok(v) => webcolor(expr@) == Ok::<nat, WebcolorError>(v as nat),
            Err(e) => webcolor(expr@) == Err::<nat, WebcolorError>(e),
        },
{
    let chars = chars_of(expr);
    if chars.len() == 0 || chars[0] != '#' {
        return Err(WebcolorError::Format);
    }
    let ghost hex = expr@.skip(1);
    // Count the bytes after the `#`, stopping early once there are more than six.
    let mut size: usize = 0;
    let mut i: usize = 1;
    while i < chars.len() && size <= 6
        invariant
            chars@ == expr@,
            1 <= i <= chars@.len(),
            size == utf8_size(chars@.subrange(1, i as int)),
            size <= 10,
        decreases chars@.len() - i,
    {
        proof {
            assert(chars@.subrange(1, i + 1).drop_last() =~= chars@.subrange(1, i as int));
        }
        size = size + char_size(chars[i]);
        i = i + 1;
    }
    proof {
        if i == chars.len() {
            assert(chars@.subrange(1, i as int) =~= hex);
        } else {
            lemma_utf8_size_prefix(hex, (i - 1) as nat);
            assert(chars@.subrange(1, i as int) =~= hex.subrange(0, i - 1));
        }
    }
    if size != 6 {
        return Err(WebcolorError::Format);
    }
    proof {
        assert(i == chars.len());
    }
    // Six bytes with a `#` before them: at most six characters.
    proof {
        lemma_utf8_size_at_least_len(hex);
    }
    if chars[1] == '+' {
        proof {
            lemma_all_hex_ascii(hex);
            assert(hex[0] == '+');
            assert(!all_hex(hex)) by {
                assert(hex_digit(hex[0]) is None);
            }
        }
        match hex_digits(&chars, 2) {
            Some(v) => {
                proof {
                    assert(chars@.skip(2) =~= hex.skip(1));
                    lemma_all_hex_sized(hex.skip(1));
                    lemma_utf8_size_skip_first(hex);
                }
                Ok(v)
            },
            None => {
                proof {
                    assert(chars@.skip(2) =~= hex.skip(1));
                }
                Err(WebcolorError::Digit)
            },
        }
    } else {
        match hex_digits(&chars, 1) {
            Some(v) => {
                proof {
                    assert(chars@.skip(1) =~= hex);
                    lemma_all_hex_sized(hex);
                }
                Ok(v)
            },
            None => {
                proof {
                    assert(chars@.skip(1) =~= hex);
                    assert(!(hex.len() > 0 && hex[0] == '+'));
                }
                Err(WebcolorError::Digit)
            },
        }
    }
}

proof fn lemma_utf8_size_prefix(s: Seq<char>, n: nat)
    requires
        n <= s.len(),
    ensures
        utf8_size(s.subrange(0, n as int)) <= utf8_size(s),
    decreases s.len(),
{
    if n < s.len() {
        assert(s.drop_last().subrange(0, n as int) =~= s.subrange(0, n as int));
        lemma_utf8_size_prefix(s.drop_last(), n);
    } else {
        assert(s.subrange(0, n as int) =~= s);
    }
}

proof fn lemma_utf8_size_at_least_len(s: Seq<char>)
    ensures
        utf8_size(s) >= s.len(),
    decreases s.len(),
{
    if s.len() > 0 {
        lemma_utf8_size_at_least_len(s.drop_last());
    }
}

/// Hexadecimal digits are ASCII, so their byte size is their count.
proof fn lemma_all_hex_sized(s: Seq<char>)
    requires
        all_hex(s),
    ensures
        utf8_size(s) == s.len(),
    decreases s.len(),
{
    if s.len() > 0 {
        let p = s.drop_last();
        assert(all_hex(p)) by {
            assert forall|i: int| 0 <= i < p.len() implies (#[trigger] hex_digit(p[i])) is Some by {
                assert(hex_digit(s[i]) is Some);
            }
        }
        lemma_all_hex_sized(p);
        assert(hex_digit(s[s.len() - 1]) is Some);
    }
}

proof fn lemma_all_hex_ascii(s: Seq<char>)
    ensures
        s.len() > 0 && s[0] == '+' ==> hex_digit(s[0]) is None,
{
}

proof fn lemma_utf8_size_skip_first(s: Seq<char>)
    requires
        s.len() > 0,
    ensures
        utf8_size(s) == utf8_len(s[0]) + utf8_size(s.skip(1)),
    decreases s.len(),
{
    if s.len() > 1 {
        lemma_utf8_size_skip_first(s.drop_last());
        assert(s.drop_last().skip(1) =~= s.skip(1).drop_last());
    } else {
        assert(s.skip(1) =~= Seq::<char>::empty());
        assert(s.drop_last() =~= Seq::<char>::empty());
    }
}

} // verus!
