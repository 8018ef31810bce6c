use vstd::prelude::*;
use vstd::string::StrSliceExecFns;
use vstd::string::StringExecFns;

verus! {

// The ledger hashes its records over a fixed, self-contained binary schema:
// integers are little-endian, a string is its character count followed by each
// character as a 32-bit code point, and an optional index is a presence byte
// followed by the index. Digests are rendered as lowercase hex.

/// The eight little-endian bytes of a 64-bit integer.
pub open spec fn u64_le(x: u64) -> Seq<u8> {
    seq![
        (x % 0x100) as u8,
        ((x / 0x100) % 0x100) as u8,
        ((x / 0x1_0000) % 0x100) as u8,
        ((x / 0x100_0000) % 0x100) as u8,
        ((x / 0x1_0000_0000) % 0x100) as u8,
        ((x / 0x100_0000_0000) % 0x100) as u8,
        ((x / 0x1_0000_0000_0000) % 0x100) as u8,
        ((x / 0x100_0000_0000_0000) % 0x100) as u8,
    ]
}

/// The four little-endian bytes of a 32-bit integer.
pub open spec fn u32_le(x: u32) -> Seq<u8> {
    seq![
        (x % 0x100) as u8,
        ((x / 0x100) % 0x100) as u8,
        ((x / 0x1_0000) % 0x100) as u8,
        ((x / 0x100_0000) % 0x100) as u8,
    ]
}

/// One character encoded as its code point, little-endian.
pub open spec fn char_bytes(c: char) -> Seq<u8> {
    u32_le(c as u32)
}

/// The characters of a string, each as four bytes, in order.
pub open spec fn chars_bytes(s: Seq<char>) -> Seq<u8>
    decreases s.len(),
{
    if s.len() == 0 {
        Seq::empty()
    } else {
        chars_bytes(s.drop_last()) + char_bytes(s.last())
    }
}

/// A string: its character count, then its characters.
pub open spec fn str_encoding(s: Seq<char>) -> Seq<u8> {
    u64_le(s.len() as u64) + chars_bytes(s)
}

pub(crate) fn push_u64_le(buf: &mut Vec<u8>, x: u64)
    ensures
        final(buf)@ == old(buf)@ + u64_le(x),
{
    buf.push((x % 0x100) as u8);
    buf.push(((x / 0x100) % 0x100) as u8);
    buf.push(((x / 0x1_0000) % 0x100) as u8);
    buf.push(((x / 0x100_0000) % 0x100) as u8);
    buf.push(((x / 0x1_0000_0000) % 0x100) as u8);
    buf.push(((x / 0x100_0000_0000) % 0x100) as u8);
    buf.push(((x / 0x1_0000_0000_0000) % 0x100) as u8);
    buf.push(((x / 0x100_0000_0000_0000) % 0x100) as u8);
    proof {
        assert(buf@ =~= old(buf)@ + u64_le(x));
    }
}

pub(crate) fn push_u32_le(buf: &mut Vec<u8>, x: u32)
    ensures
        final(buf)@ == old(buf)@ + u32_le(x),
{
    buf.push((x % 0x100) as u8);
    buf.push(((x / 0x100) % 0x100) as u8);
    buf.push(((x / 0x1_0000) % 0x100) as u8);
    buf.push(((x / 0x100_0000) % 0x100) as u8);
    proof {
        assert(buf@ =~= old(buf)@ + u32_le(x));
    }
}

pub(crate) fn push_str_encoding(buf: &mut Vec<u8>, s: &str)
    ensures
        final(buf)@ == old(buf)@ + str_encoding(s@),
{
    let n = s.unicode_len();
    push_u64_le(buf, n as u64);
    let mut i: usize = 0;
    while i < n
        invariant
            n == s@.len(),
            i <= n,
            buf@ == old(buf)@ + u64_le(n as u64) + chars_bytes(s@.take(i as int)),
        decreases n - i,
    {
        let c = s.get_char(i);
        push_u32_le(buf, c as u32);
        proof {
            assert(s@.take(i + 1).drop_last() =~= s@.take(i as int));
            assert(s@.take(i + 1).last() == s@[i as int]);
            assert(buf@ =~= old(buf)@ + u64_le(n as u64) + chars_bytes(s@.take(i + 1)));
        }
        i = i + 1;
    }
    proof {
        assert(s@.take(n as int) =~= s@);
        assert(buf@ =~= old(buf)@ + str_encoding(s@));
    }
}

/// The lowercase hex character for a value below sixteen.
pub open spec fn hex_char(n: int) -> char {
    if n == 0 {
        '0'
    } else if n == 1 {
        '1'
    } else if n == 2 {
        '2'
    } else if n == 3 {
        '3'
    } else if n == 4 {
        '4'
    } else if n == 5 {
        '5'
    } else if n == 6 {
        '6'
    } else if n == 7 {
        '7'
    } else if n == 8 {
        '8'
    } else if n == 9 {
        '9'
    } else if n == 10 {
        'a'
    } else if n == 11 {
        'b'
    } else if n == 12 {
        'c'
    } else if n == 13 {
        'd'
    } else if n == 14 {
        'e'
    } else {
        'f'
    }
}

/// The two hex characters of one byte, high nibble first.
pub open spec fn byte_hex(b: u8) -> Seq<char> {
    seq![hex_char(b as int / 16), hex_char(b as int % 16)]
}

/// The lowercase hex rendering of a byte sequence.
pub open spec fn hex_of(bytes: Seq<u8>) -> Seq<char>
    decreases bytes.len(),
{
    if bytes.len() == 0 {
        Seq::empty()
    } else {
        hex_of(bytes.drop_last()) + byte_hex(bytes.last())
    }
}

/// Hex rendering doubles the length: two characters for each byte.
pub proof fn lemma_hex_len(bytes: Seq<u8>)
    ensures
        hex_of(bytes).len() == 2 * bytes.len(),
    decreases bytes.len(),
{
    if bytes.len() > 0 {
        lemma_hex_len(bytes.drop_last());
    }
}

pub(crate) fn push_hex_digit(s: &mut String, n: u8)
    requires
        n < 16,
    ensures
        final(s)@ == old(s)@ + seq![hex_char(n as int)],
{
    if n == 0 {
        proof {
            reveal_strlit("0");
        }
        s.append("0");
    } else if n == 1 {
        proof {
            reveal_strlit("1");
        }
        s.append("1");
    } else if n == 2 {
        proof {
            reveal_strlit("2");
        }
        s.append("2");
    } else if n == 3 {
        proof {
            reveal_strlit("3");
        }
        s.append("3");
    } else if n == 4 {
        proof {
            reveal_strlit("4");
        }
        s.append("4");
    } else if n == 5 {
        proof {
            reveal_strlit("5");
        }
        s.append("5");
    } else if n == 6 {
        proof {
            reveal_strlit("6");
        }
        s.append("6");
    } else if n == 7 {
        proof {
            reveal_strlit("7");
        }
        s.append("7");
    } else if n == 8 {
        proof {
            reveal_strlit("8");
        }
        s.append("8");
    } else if n == 9 {
        proof {
            reveal_strlit("9");
        }
        s.append("9");
    } else if n == 10 {
        proof {
            reveal_strlit("a");
        }
        s.append("a");
    } else if n == 11 {
        proof {
            reveal_strlit("b");
        }
        s.append("b");
    } else if n == 12 {
        proof {
            reveal_strlit("c");
        }
        s.append("c");
    } else if n == 13 {
        proof {
            reveal_strlit("d");
        }
        s.append("d");
    } else if n == 14 {
        proof {
            reveal_strlit("e");
        }
        s.append("e");
    } else {
        proof {
            reveal_strlit("f");
        }
        s.append("f");
    }
    proof {
        assert(s@ =~= old(s)@ + seq![hex_char(n as int)]);
    }
}

pub(crate) fn hex_string(bytes: &[u8]) -> (r: String)
    ensures
        r@ == hex_of(bytes@),
{
    let mut r = String::new();
    let n = bytes.len();
    let mut i: usize = 0;
    while i < n
        invariant
            n == bytes@.len(),
            i <= n,
            r@ == hex_of(bytes@.take(i as int)),
        decreases n - i,
    {
        let b = bytes[i];
        push_hex_digit(&mut r, b / 16);
        push_hex_digit(&mut r, b % 16);
        proof {
            assert(bytes@.take(i + 1).drop_last() =~= bytes@.take(i as int));
            assert(bytes@.take(i + 1).last() == bytes@[i as int]);
            assert(r@ =~= hex_of(bytes@.take(i + 1)));
        }
        i = i + 1;
    }
    proof {
        assert(bytes@.take(n as int) =~= bytes@);
    }
    r
}

} // verus!
