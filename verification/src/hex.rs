//! Hexadecimal text of bytes.

use vstd::prelude::*;

verus! {

/// The lower-case hexadecimal digit of `n` (below 16).
pub open spec fn hex_digit(n: u8) -> char {
    if n < 10 {
        (48 + n) as char
    } else {
        (87 + n) as char
    }
}

/// The lower-case hexadecimal text of `bytes`: two digits per byte, the
/// high nibble first.
pub open spec fn hex_of(bytes: Seq<u8>) -> Seq<char>
    decreases bytes.len(),
{
    if bytes.len() == 0 {
        Seq::empty()
    } else {
        hex_of(bytes.drop_last()) + seq![hex_digit(bytes.last() >> 4), hex_digit(bytes.last() & 0x0f)]
    }
}

/// A lower-case hexadecimal digit: `0`-`9` (code points 48 to 57) or
/// `a`-`f` (code points 97 to 102).
pub open spec fn is_lower_hex(c: char) -> bool {
    (48 <= c as int <= 57) || (97 <= c as int <= 102)
}

/// The value that a lower-case hexadecimal digit reads as: `0` is 0, `9`
/// is 9, `a` is 10, `f` is 15.
pub open spec fn hex_value(c: char) -> int {
    if c as int <= 57 {
        c as int - 48
    } else {
        c as int - 87
    }
}

/// The two characters at `2 * i` and `2 * i + 1` of `text` are lower-case
/// hexadecimal digits that read back as `byte`, the first worth sixteen
/// times its value.
pub open spec fn reads_back_at(text: Seq<char>, i: int, byte: u8) -> bool {
    &&& is_lower_hex(text[2 * i])
    &&& is_lower_hex(text[2 * i + 1])
    &&& hex_value(text[2 * i]) * 16 + hex_value(text[2 * i + 1]) == byte
}

/// The two digits that one byte is written as read back as that byte.
proof fn lemma_byte_reads_back(b: u8)
    ensures
        is_lower_hex(hex_digit(b >> 4)),
        is_lower_hex(hex_digit(b & 0x0f)),
        hex_value(hex_digit(b >> 4)) * 16 + hex_value(hex_digit(b & 0x0f)) == b,
{
    assert((b >> 4) < 16 && (b & 0x0f) < 16 && (b >> 4) * 16 + (b & 0x0f) == b) by (bit_vector);
    let hi = b >> 4;
    let lo = b & 0x0f;
    if hi < 10 {
        assert(hex_digit(hi) as int == 48 + hi);
    } else {
        assert(hex_digit(hi) as int == 87 + hi);
    }
    if lo < 10 {
        assert(hex_digit(lo) as int == 48 + lo);
    } else {
        assert(hex_digit(lo) as int == 87 + lo);
    }
}

/// The length of the hexadecimal text, and the two digits at byte `i`.
proof fn lemma_hex_at(bytes: Seq<u8>, i: int)
    requires
        0 <= i < bytes.len(),
    ensures
        hex_of(bytes).len() == 2 * bytes.len(),
        hex_of(bytes)[2 * i] == hex_digit(bytes[i] >> 4),
        hex_of(bytes)[2 * i + 1] == hex_digit(bytes[i] & 0x0f),
    decreases bytes.len(),
{
    let d = bytes.drop_last();
    lemma_hex_len(d);
    if i < d.len() {
        lemma_hex_at(d, i);
        assert(d[i] == bytes[i]);
    }
}

/// Two digits per byte.
proof fn lemma_hex_len(bytes: Seq<u8>)
    ensures
        hex_of(bytes).len() == 2 * bytes.len(),
    decreases bytes.len(),
{
    if bytes.len() > 0 {
        lemma_hex_len(bytes.drop_last());
    }
}

/// The hexadecimal text of bytes reads back as those bytes: two lower-case
/// digits per byte, the first worth sixteen times its value.
pub proof fn hex_reads_back(bytes: Seq<u8>)
    ensures
        hex_of(bytes).len() == 2 * bytes.len(),
        forall|i: int| 0 <= i < bytes.len() ==> reads_back_at(hex_of(bytes), i, #[trigger] bytes[i]),
{
    lemma_hex_len(bytes);
    assert forall|i: int| 0 <= i < bytes.len() implies reads_back_at(hex_of(bytes), i, #[trigger] bytes[i]) by {
        lemma_hex_at(bytes, i);
        lemma_byte_reads_back(bytes[i]);
    }
}

/// The one-character text of the hexadecimal digit `n`.
pub fn digit_text(n: u8) -> (s: &'static str)
    requires
        n < 16,
    ensures
        s@ == seq![hex_digit(n)],
        is_lower_hex(s@[0]),
        hex_value(s@[0]) == n,
{
    match n {
        0 => {
            proof {
                reveal_strlit("0");
            }
            "0"
        },
        1 => {
            proof {
                reveal_strlit("1");
            }
            "1"
        },
        2 => {
            proof {
                reveal_strlit("2");
            }
            "2"
        },
        3 => {
            proof {
                reveal_strlit("3");
            }
            "3"
        },
        4 => {
            proof {
                reveal_strlit("4");
            }
            "4"
        },
        5 => {
            proof {
                reveal_strlit("5");
            }
            "5"
        },
        6 => {
            proof {
                reveal_strlit("6");
            }
            "6"
        },
        7 => {
            proof {
                reveal_strlit("7");
            }
            "7"
        },
        8 => {
            proof {
                reveal_strlit("8");
            }
            "8"
        },
        9 => {
            proof {
                reveal_strlit("9");
            }
            "9"
        },
        10 => {
            proof {
                reveal_strlit("a");
            }
            "a"
        },
        11 => {
            proof {
                reveal_strlit("b");
            }
            "b"
        },
        12 => {
            proof {
                reveal_strlit("c");
            }
            "c"
        },
        13 => {
            proof {
                reveal_strlit("d");
            }
            "d"
        },
        14 => {
            proof {
                reveal_strlit("e");
            }
            "e"
        },
        15 => {
            proof {
                reveal_strlit("f");
            }
            "f"
        },
        _ => {
            proof {
                reveal_strlit("f");
            }
            "f"
        },
    }
}

/// Lower-case hexadecimal encoding of `bytes`.
pub fn to_hex(bytes: &[u8]) -> (out: String)
    ensures
        out@ == hex_of(bytes@),
        out@.len() == 2 * bytes@.len(),
        forall|i: int| 0 <= i < bytes@.len() ==> reads_back_at(out@, i, #[trigger] bytes@[i]),
{
    let n = bytes.len();
    let mut out = String::new();
    let mut i: usize = 0;
    while i < n
        invariant
            n == bytes@.len(),
            0 <= i <= n,
            out@ == hex_of(bytes@.take(i as int)),
        decreases n - i,
    {
        let b = bytes[i];
        assert(b >> 4 < 16 && b & 0x0f < 16) by (bit_vector);
        out.append(digit_text(b >> 4));
        out.append(digit_text(b & 0x0f));
        proof {
            assert(bytes@.take(i + 1).drop_last() =~= bytes@.take(i as int));
            assert(out@ =~= hex_of(bytes@.take(i + 1)));
        }
        i = i + 1;
    }
    proof {
        assert(bytes@.take(n as int) =~= bytes@);
        hex_reads_back(bytes@);
    }
    out
}

} // verus!
