//! The part of BER that a control value of two fields needs: definite
//! lengths, and a tag, a length and the contents in a row.

use vstd::prelude::*;

verus! {

/// The number that the bytes of `s` spell in base 256, most significant
/// byte first.
pub open spec fn be_value(s: Seq<u8>) -> nat
    decreases s.len(),
{
    if s.len() == 0 {
        0
    } else {
        be_value(s.drop_last()) * 256 + s.last() as nat
    }
}

/// The shortest spelling of `n` in base 256, most significant byte first;
/// one zero byte for zero.
pub open spec fn be_digits(n: nat) -> Seq<u8>
    decreases n,
{
    if n < 256 {
        seq![n as u8]
    } else {
        be_digits(n / 256).push((n % 256) as u8)
    }
}

/// The length octets for contents of `n` bytes, in the shortest form: the
/// number itself below 128, else the count of digits with the top bit set,
/// and the digits.
pub open spec fn der_length(n: nat) -> Seq<u8> {
    if n < 128 {
        seq![n as u8]
    } else {
        seq![(0x80 + be_digits(n).len()) as u8] + be_digits(n)
    }
}

/// A tag, the length of the contents and the contents.
pub open spec fn tlv(tag: u8, content: Seq<u8>) -> Seq<u8> {
    seq![tag] + der_length(content.len()) + content
}

/// The contents octets of a non-negative INTEGER: its digits, after a zero
/// byte where the first digit has its top bit set.
pub open spec fn integer_content(n: nat) -> Seq<u8> {
    if be_digits(n)[0] >= 0x80 {
        seq![0u8] + be_digits(n)
    } else {
        be_digits(n)
    }
}

/// Reads length octets at `i`: where the contents start and how long they
/// are. The indefinite form is not read.
pub open spec fn read_length(s: Seq<u8>, i: int) -> Option<(int, nat)> {
    if !(0 <= i < s.len()) {
        None
    } else if s[i] < 0x80 {
        Some((i + 1, s[i] as nat))
    } else if s[i] == 0x80 {
        None
    } else {
        let k = s[i] - 0x80;
        if i + 1 + k <= s.len() {
            Some((i + 1 + k, be_value(s.subrange(i + 1, i + 1 + k))))
        } else {
            None
        }
    }
}

/// Reads at `i` an element with the tag `tag` that lies within `s`: where
/// its contents start and end.
pub open spec fn read_tlv(s: Seq<u8>, i: int, tag: u8) -> Option<(int, int)> {
    if 0 <= i < s.len() && s[i] == tag {
        match read_length(s, i + 1) {
            Some((a, n)) => if a + n <= s.len() {
                Some((a, a + n))
            } else {
                None
            },
            None => None,
        }
    } else {
        None
    }
}

/// 256 to the power of `k`.
pub open spec fn radix_pow(k: nat) -> nat
    decreases k,
{
    if k == 0 {
        1
    } else {
        256 * radix_pow((k - 1) as nat)
    }
}

/// The digits of a number spell it, and are as few as its size allows.
pub proof fn lemma_be_digits(n: nat, k: nat)
    requires
        k >= 1,
        n < radix_pow(k),
    ensures
        be_value(be_digits(n)) == n,
        1 <= be_digits(n).len() <= k,
        n >= 256 ==> be_digits(n)[0] != 0,
        n >= 128 ==> be_digits(n).len() > 1 || be_digits(n)[0] >= 0x80,
    decreases n,
{
    reveal_with_fuel(radix_pow, 2);
    reveal_with_fuel(be_value, 2);
    if n < 256 {
        assert(be_digits(n).drop_last() =~= Seq::<u8>::empty());
    } else {
        let m = n / 256;
        assert(k >= 2) by {
            if k == 1 {
                assert(radix_pow(1) == 256);
            }
        }
        assert(m < radix_pow((k - 1) as nat));
        lemma_be_digits(m, (k - 1) as nat);
        let d = be_digits(m);
        assert(be_digits(n).drop_last() =~= d);
        assert(be_digits(n)[0] == d[0]);
        assert(m >= 1);
        if m < 256 {
            assert(d[0] == m as u8);
        }
    }
}

/// A number below 2 to the 64 has at most eight digits.
pub proof fn lemma_radix_pow_8()
    ensures
        radix_pow(8) == 0x1_0000_0000_0000_0000,
        radix_pow(4) == 0x1_0000_0000,
{
    reveal_with_fuel(radix_pow, 9);
}

/// A zero byte in front changes no value.
pub proof fn lemma_be_value_leading_zero(s: Seq<u8>)
    ensures
        be_value(seq![0u8] + s) == be_value(s),
    decreases s.len(),
{
    reveal_with_fuel(be_value, 2);
    let t = seq![0u8] + s;
    if s.len() == 0 {
        assert(t.drop_last() =~= Seq::<u8>::empty());
    } else {
        assert(t.drop_last() =~= seq![0u8] + s.drop_last());
        lemma_be_value_leading_zero(s.drop_last());
    }
}

/// Reading one byte more multiplies by 256 and adds the byte.
pub proof fn lemma_be_value_step(s: Seq<u8>, a: int, j: int)
    requires
        0 <= a <= j < s.len(),
    ensures
        be_value(s.subrange(a, j + 1)) == be_value(s.subrange(a, j)) * 256 + s[j] as nat,
{
    assert(s.subrange(a, j + 1).drop_last() =~= s.subrange(a, j));
}

/// The value of a prefix is no more than the value of the whole.
pub proof fn lemma_be_value_prefix(s: Seq<u8>, j: int)
    requires
        0 <= j <= s.len(),
    ensures
        be_value(s.take(j)) <= be_value(s),
    decreases s.len(),
{
    if j == s.len() {
        assert(s.take(j) =~= s);
    } else {
        assert(s.drop_last().take(j) =~= s.take(j));
        lemma_be_value_prefix(s.drop_last(), j);
    }
}

/// The length octets written for `n` are read back as `n`.
pub proof fn lemma_read_length(s: Seq<u8>, i: int, n: nat)
    requires
        0 <= i,
        n < 0x1_0000_0000_0000_0000,
        i + der_length(n).len() <= s.len(),
        s.subrange(i, i + der_length(n).len()) == der_length(n),
    ensures
        read_length(s, i) == Some((i + der_length(n).len(), n)),
        1 <= der_length(n).len() <= 9,
{
    lemma_radix_pow_8();
    lemma_be_digits(n, 8);
    let l = der_length(n);
    assert(s[i] == l[0]);
    if n >= 128 {
        let d = be_digits(n);
        assert(l.len() == 1 + d.len());
        assert(s.subrange(i + 1, i + 1 + d.len()) =~= d) by {
            assert forall|k: int| 0 <= k < d.len() implies s.subrange(i + 1, i + 1 + d.len())[k]
                == d[k] by {
                assert(s[i + 1 + k] == l[1 + k]);
            }
        }
    }
}

/// An element, written at `i`, is read back with its contents.
pub proof fn lemma_read_tlv(s: Seq<u8>, i: int, tag: u8, content: Seq<u8>)
    requires
        0 <= i,
        content.len() < 0x1_0000_0000_0000_0000,
        i + tlv(tag, content).len() <= s.len(),
        s.subrange(i, i + tlv(tag, content).len()) == tlv(tag, content),
    ensures
        read_tlv(s, i, tag) == Some(
            (i + 1 + der_length(content.len()).len(), i + tlv(tag, content).len()),
        ),
        s.subrange(i + 1 + der_length(content.len()).len(), i + tlv(tag, content).len())
            == content,
        tlv(tag, content).len() == 1 + der_length(content.len()).len() + content.len(),
{
    let t = tlv(tag, content);
    let l = der_length(content.len());
    assert(s[i] == t[0]);
    assert(s.subrange(i + 1, i + 1 + l.len()) =~= l) by {
        assert forall|k: int| 0 <= k < l.len() implies s.subrange(i + 1, i + 1 + l.len())[k]
            == l[k] by {
            assert(s[i + 1 + k] == t[1 + k]);
        }
    }
    lemma_read_length(s, i + 1, content.len());
    assert(s.subrange(i + 1 + l.len(), i + t.len()) =~= content) by {
        assert forall|k: int| 0 <= k < content.len() implies s.subrange(
            i + 1 + l.len(),
            i + t.len(),
        )[k] == content[k] by {
            assert(s[i + 1 + l.len() + k] == t[1 + l.len() + k]);
        }
    }
}

/// Appends the digits of `n`.
pub fn push_be_digits(n: usize, out: &mut Vec<u8>)
    ensures
        final(out)@ == old(out)@ + be_digits(n as nat),
    decreases n,
{
    if n >= 256 {
        push_be_digits(n / 256, out);
        out.push((n % 256) as u8);
        assert(out@ =~= old(out)@ + be_digits(n as nat));
    } else {
        out.push(n as u8);
        assert(out@ =~= old(out)@ + be_digits(n as nat));
    }
}

/// Appends the length octets for contents of `n` bytes.
pub fn push_length(n: usize, out: &mut Vec<u8>)
    ensures
        final(out)@ == old(out)@ + der_length(n as nat),
{
    if n < 128 {
        out.push(n as u8);
        assert(out@ =~= old(out)@ + der_length(n as nat));
    } else {
        let mut digits: Vec<u8> = Vec::new();
        push_be_digits(n, &mut digits);
        proof {
            lemma_radix_pow_8();
            lemma_be_digits(n as nat, 8);
            assert(digits@ =~= be_digits(n as nat));
        }
        out.push(0x80 + digits.len() as u8);
        out.extend_from_slice(digits.as_slice());
        assert(out@ =~= old(out)@ + der_length(n as nat));
    }
}

/// Reads at `i` an element with the tag `tag` that lies within `s`: where
/// its contents start and end.
#[verifier::loop_isolation(false)]
pub fn read_tlv_at(s: &[u8], i: usize, tag: u8) -> (r: Option<(usize, usize)>)
    ensures
        match read_tlv(s@, i as int, tag) {
            Some((a, b)) => r == Some((a as usize, b as usize)) && i < a <= b <= s.len(),
            None => r is None,
        },
{
    if i >= s.len() || s[i] != tag {
        return None;
    }
    if s.len() - i < 2 {
        return None;
    }
    let first = s[i + 1];
    if first < 0x80 {
        let a = i + 2;
        if first as usize <= s.len() - a {
            return Some((a, a + first as usize));
        } else {
            return None;
        }
    }
    if first == 0x80 {
        return None;
    }
    let k = (first - 0x80) as usize;
    if k > s.len() - (i + 2) {
        return None;
    }
    let a = i + 2 + k;
    let mut j: usize = i + 2;
    let mut acc: usize = 0;
    assert(s@.subrange(i + 2, j as int) =~= Seq::<u8>::empty());
    while j < a
        invariant
            i + 2 <= j <= a <= s.len(),
            a == i + 2 + k,
            acc == be_value(s@.subrange(i + 2, j as int)),
            acc <= s.len(),
        decreases a - j,
    {
        proof {
            lemma_be_value_step(s@, i + 2, j as int);
        }
        let next: u128 = acc as u128 * 256 + s[j] as u128;
        if next > s.len() as u128 {
            proof {
                let whole = s@.subrange(i + 2, a as int);
                assert(whole.take(j + 1 - (i + 2)) =~= s@.subrange(i + 2, j + 1));
                lemma_be_value_prefix(whole, j + 1 - (i + 2));
                assert(be_value(whole) >= next);
                assert(read_length(s@, i + 1) == Some((a as int, be_value(whole))));
            }
            return None;
        }
        acc = next as usize;
        j += 1;
    }
    if acc <= s.len() - a {
        Some((a, a + acc))
    } else {
        None
    }
}

} // verus!
