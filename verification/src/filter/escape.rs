//! Backslash-hex escapes in filter values: `\HH` stands for the byte with the
//! hexadecimal value `HH`.

use vstd::prelude::*;

verus! {

/// The backslash, which starts an escape.
pub const BACKSLASH: u8 = 0x5c;

/// Whether `c` is one of `0-9`, `a-f`, `A-F`.
pub open spec fn is_hex_digit(c: u8) -> bool {
    (0x30 <= c <= 0x39) || (0x61 <= c <= 0x66) || (0x41 <= c <= 0x46)
}

/// Value of a hexadecimal digit.
pub open spec fn hex_value(c: u8) -> int {
    if 0x30 <= c <= 0x39 {
        c - 0x30
    } else if 0x61 <= c <= 0x66 {
        c - 0x61 + 10
    } else {
        c - 0x41 + 10
    }
}

/// The byte that two hexadecimal digits spell.
pub open spec fn hex_pair_value(hi: u8, lo: u8) -> u8 {
    (hex_value(hi) * 16 + hex_value(lo)) as u8
}

/// Whether an escape `\HH` stands at position `i` of `s`.
pub open spec fn escape_at(s: Seq<u8>, i: int) -> bool {
    &&& 0 <= i
    &&& i + 2 < s.len()
    &&& s[i] == BACKSLASH
    &&& is_hex_digit(s[i + 1])
    &&& is_hex_digit(s[i + 2])
}

/// `s` with every escape, taken from the left, replaced by the byte it
/// stands for. Bytes that start no escape stay as they are.
pub open spec fn unescaped(s: Seq<u8>) -> Seq<u8>
    decreases s.len(),
{
    if s.len() == 0 {
        s
    } else if escape_at(s, 0) {
        seq![hex_pair_value(s[1], s[2])] + unescaped(s.skip(3))
    } else {
        seq![s[0]] + unescaped(s.skip(1))
    }
}

/// Whether `c` is a hexadecimal digit.
pub fn is_hex(c: u8) -> (r: bool)
    ensures
        r == is_hex_digit(c),
{
    (0x30 <= c && c <= 0x39) || (0x61 <= c && c <= 0x66) || (0x41 <= c && c <= 0x46)
}

/// Value of the hexadecimal digit `c`.
pub fn c2b(c: u8) -> (r: u8)
    requires
        is_hex_digit(c),
    ensures
        r == hex_value(c),
        r < 16,
{
    if 0x30 <= c && c <= 0x39 {
        c - 0x30
    } else if 0x61 <= c && c <= 0x66 {
        c - 0x61 + 10
    } else {
        c - 0x41 + 10
    }
}

/// The byte that the first two bytes of `data`, two hexadecimal digits, spell.
pub fn hex2b(data: &[u8]) -> (r: u8)
    requires
        data.len() >= 2,
        is_hex_digit(data[0]),
        is_hex_digit(data[1]),
    ensures
        r == hex_pair_value(data[0], data[1]),
{
    c2b(data[0]) * 16 + c2b(data[1])
}

/// What remains of `s` from `i` on, unescaped, is what remains after one step.
proof fn lemma_unescaped_step(s: Seq<u8>, i: int)
    requires
        0 <= i < s.len(),
    ensures
        escape_at(s, i) ==> unescaped(s.skip(i)) == seq![hex_pair_value(s[i + 1], s[i + 2])]
            + unescaped(s.skip(i + 3)),
        !escape_at(s, i) ==> unescaped(s.skip(i)) == seq![s[i]] + unescaped(s.skip(i + 1)),
{
    let t = s.skip(i);
    assert(escape_at(t, 0) == escape_at(s, i));
    if escape_at(s, i) {
        assert(t.skip(3) =~= s.skip(i + 3));
    } else {
        assert(t.skip(1) =~= s.skip(i + 1));
    }
}

/// Replaces every escape `\HH` in `s` by the byte it stands for.
pub fn unescape(s: &[u8]) -> (out: Vec<u8>)
    ensures
        out@ == unescaped(s@),
{
    let mut out: Vec<u8> = Vec::new();
    let mut i: usize = 0;
    assert(s@.skip(0) =~= s@);
    while i < s.len()
        invariant
            i <= s.len(),
            unescaped(s@) == out@ + unescaped(s@.skip(i as int)),
        decreases s.len() - i,
    {
        proof {
            lemma_unescaped_step(s@, i as int);
        }
        if s[i] == BACKSLASH && s.len() - i > 2 && is_hex(s[i + 1]) && is_hex(s[i + 2]) {
            let ghost before = out@;
            out.push(c2b(s[i + 1]) * 16 + c2b(s[i + 2]));
            assert(out@ + unescaped(s@.skip(i + 3)) =~= before + (seq![
                hex_pair_value(s@[i + 1], s@[i + 2]),
            ] + unescaped(s@.skip(i + 3))));
            i += 3;
        } else {
            let ghost before = out@;
            out.push(s[i]);
            assert(out@ + unescaped(s@.skip(i + 1)) =~= before + (seq![s@[i as int]] + unescaped(
                s@.skip(i + 1),
            )));
            i += 1;
        }
    }
    assert(unescaped(s@.skip(i as int)) =~= Seq::<u8>::empty());
    assert(out@ + Seq::<u8>::empty() =~= out@);
    out
}

} // verus!
