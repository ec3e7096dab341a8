//! LDAP controls

use vstd::prelude::*;
use vstd::slice::{slice_subrange, slice_to_vec};
use vstd::string::StringSliceAdditionalSpecFns;
use crate::controls::ber::{
    be_digits, be_value, der_length, integer_content, lemma_be_digits, lemma_be_value_leading_zero,
    lemma_be_value_step, lemma_radix_pow_8, lemma_read_tlv, push_be_digits,
    push_length, read_tlv, read_tlv_at, tlv,
};
use crate::error::Error;
use crate::model::{Control, ControlView};
use crate::oid::SIMPLE_PAGED_RESULTS_CONTROL_OID;

pub mod ber;

verus! {

pub const TAG_SEQUENCE: u8 = 0x30;

pub const TAG_INTEGER: u8 = 0x02;

pub const TAG_OCTET_STRING: u8 = 0x04;

/// The text of the error for a control value that cannot be read.
pub const MALFORMED_VALUE: &'static str = "malformed paged results control value";

/// Mathematical value of a [`SimplePagedResultsControl`].
pub struct PagedResultsView {
    pub size: u32,
    pub cookie: Seq<u8>,
    pub has_entries: bool,
}

/// Simple paged result control, OID 1.2.840.113556.1.4.319
#[derive(Debug, PartialEq, Eq, Hash)]
pub struct SimplePagedResultsControl {
    size: u32,
    cookie: Vec<u8>,
    has_entries: bool,
}

impl View for SimplePagedResultsControl {
    type V = PagedResultsView;

    closed spec fn view(&self) -> PagedResultsView {
        PagedResultsView { size: self.size, cookie: self.cookie@, has_entries: self.has_entries }
    }
}

impl Clone for SimplePagedResultsControl {
    fn clone(&self) -> (r: Self)
        ensures
            r@ == self@,
    {
        SimplePagedResultsControl {
            size: self.size,
            cookie: self.cookie.clone(),
            has_entries: self.has_entries,
        }
    }
}

/// The control value: `SEQUENCE { size INTEGER, cookie OCTET STRING }` in
/// BER, with lengths in the shortest form.
pub open spec fn paged_value(size: u32, cookie: Seq<u8>) -> Seq<u8> {
    tlv(
        TAG_SEQUENCE,
        tlv(TAG_INTEGER, integer_content(size as nat)) + tlv(TAG_OCTET_STRING, cookie),
    )
}

/// The size that the contents octets of an INTEGER stand for, as far as 32
/// bits hold it: a negative number reads as 0, a number above 2^32 - 1 as
/// 2^32 - 1.
pub open spec fn size_of(content: Seq<u8>) -> u32 {
    if content.len() > 0 && content[0] >= 0x80 {
        0
    } else if be_value(content) > u32::MAX {
        u32::MAX
    } else {
        be_value(content) as u32
    }
}

/// The two fields of a control value, read from `a`: the size, the cookie,
/// and where the fields end. The fields are an INTEGER of at least one
/// octet and an OCTET STRING, both primitive and of definite length.
pub open spec fn parse_paged_fields(s: Seq<u8>, a: int) -> Option<(u32, Seq<u8>, int)> {
    match read_tlv(s, a, TAG_INTEGER) {
        None => None,
        Some((ia, ib)) => match read_tlv(s, ib, TAG_OCTET_STRING) {
            None => None,
            Some((ca, cb)) => if ia < ib {
                Some((size_of(s.subrange(ia, ib)), s.subrange(ca, cb), cb))
            } else {
                None
            },
        },
    }
}

/// Whether the SEQUENCE at the start of `s` has the indefinite length.
pub open spec fn is_indefinite(s: Seq<u8>) -> bool {
    s.len() >= 2 && s[0] == TAG_SEQUENCE && s[1] == 0x80
}

/// The size and the cookie that a control value holds.
///
/// The value starts with a SEQUENCE that holds the two fields and nothing
/// else. Its length is definite, in any number of octets, or indefinite,
/// and then two zero octets follow the fields. What follows the SEQUENCE
/// does not count.
pub open spec fn parse_paged_value(s: Seq<u8>) -> Option<(u32, Seq<u8>)> {
    if is_indefinite(s) {
        match parse_paged_fields(s, 2) {
            Some((size, cookie, end)) => if end + 1 < s.len() && s[end] == 0 && s[end + 1] == 0 {
                Some((size, cookie))
            } else {
                None
            },
            None => None,
        }
    } else {
        match read_tlv(s, 0, TAG_SEQUENCE) {
            None => None,
            Some((a, b)) => match parse_paged_fields(s, a) {
                Some((size, cookie, end)) => if end == b {
                    Some((size, cookie))
                } else {
                    None
                },
                None => None,
            },
        }
    }
}

/// The control that carries the paging state `p`.
pub open spec fn control_of(p: PagedResultsView) -> ControlView {
    ControlView {
        control_type: SIMPLE_PAGED_RESULTS_CONTROL_OID.spec_bytes(),
        criticality: false,
        control_value: Some(paged_value(p.size, p.cookie)),
    }
}

/// The paging state that the control `c` carries: the size and the cookie of
/// its value, an absent value taken as empty; there are more entries if and
/// only if the cookie is not empty.
pub open spec fn paged_of(c: ControlView) -> Option<PagedResultsView> {
    let value = match c.control_value {
        Some(v) => v,
        None => Seq::empty(),
    };
    match parse_paged_value(value) {
        Some((size, cookie)) => Some(
            PagedResultsView { size, cookie, has_entries: cookie.len() > 0 },
        ),
        None => None,
    }
}

/// A control value that was written for a size and a cookie is read back as
/// that size and that cookie.
pub proof fn lemma_paged_value_round_trip(size: u32, cookie: Seq<u8>)
    requires
        paged_value(size, cookie).len() <= usize::MAX,
    ensures
        parse_paged_value(paged_value(size, cookie)) == Some((size, cookie)),
{
    lemma_radix_pow_8();
    lemma_be_digits(size as nat, 4);
    let digits = be_digits(size as nat);
    let ic = integer_content(size as nat);
    if digits[0] >= 0x80 {
        lemma_be_value_leading_zero(digits);
    }
    assert(be_value(ic) == size);
    assert(ic.len() <= 5);
    let first = tlv(TAG_INTEGER, ic);
    let second = tlv(TAG_OCTET_STRING, cookie);
    let body = first + second;
    let s = paged_value(size, cookie);
    assert(s.len() >= body.len() >= second.len() >= cookie.len());
    assert(s.subrange(0, s.len() as int) =~= s);
    lemma_read_tlv(s, 0, TAG_SEQUENCE, body);
    let a: int = 1 + der_length(body.len()).len() as int;
    let b = s.len() as int;
    assert(s.subrange(a, b) == body);
    assert(s.subrange(a, a + first.len()) =~= first) by {
        assert forall|k: int| 0 <= k < first.len() implies s.subrange(a, a + first.len())[k]
            == first[k] by {
            assert(s.subrange(a, b)[k] == body[k]);
        }
    }
    lemma_read_tlv(s, a, TAG_INTEGER, ic);
    let ib: int = a + first.len();
    assert(s.subrange(ib, ib + second.len()) =~= second) by {
        assert forall|k: int| 0 <= k < second.len() implies s.subrange(ib, ib + second.len())[k]
            == second[k] by {
            assert(s.subrange(a, b)[first.len() + k] == body[first.len() + k]);
        }
    }
    lemma_read_tlv(s, ib, TAG_OCTET_STRING, cookie);
    let ia: int = a + 1 + der_length(ic.len()).len() as int;
    assert(s.subrange(ia, ib) == ic);
    assert(s[ia] == ic[0]);
    assert(s[1] != 0x80) by {
        assert(s[1] == der_length(body.len())[0]);
        if body.len() >= 128 {
            lemma_be_digits(body.len(), 8);
        }
    }
}

/// Decoding the control that encoding made gives the size and the cookie
/// back, and says that there are more entries if and only if the cookie is
/// not empty. This holds of every control value that a machine can hold.
pub proof fn lemma_control_round_trip(p: PagedResultsView)
    requires
        paged_value(p.size, p.cookie).len() <= usize::MAX,
    ensures
        paged_of(control_of(p)) == Some(
            PagedResultsView { size: p.size, cookie: p.cookie, has_entries: p.cookie.len() > 0 },
        ),
{
    lemma_paged_value_round_trip(p.size, p.cookie);
}

/// Writes the control value for a size and a cookie. Reading the value
/// gives the size and the cookie back.
pub fn encode_paged_value(size: u32, cookie: &Vec<u8>) -> (out: Vec<u8>)
    ensures
        out@ == paged_value(size, cookie@),
        parse_paged_value(out@) == Some((size, cookie@)),
{
    let mut digits: Vec<u8> = Vec::new();
    push_be_digits(size as usize, &mut digits);
    proof {
        lemma_radix_pow_8();
        lemma_be_digits(size as nat, 4);
        assert(digits@ =~= be_digits(size as nat));
    }
    let mut content: Vec<u8> = Vec::new();
    if digits[0] >= 0x80 {
        content.push(0);
    }
    content.extend_from_slice(digits.as_slice());
    assert(content@ =~= integer_content(size as nat));
    let mut body: Vec<u8> = Vec::new();
    body.push(TAG_INTEGER);
    push_length(content.len(), &mut body);
    body.extend_from_slice(content.as_slice());
    assert(body@ =~= tlv(TAG_INTEGER, content@));
    let ghost first = body@;
    body.push(TAG_OCTET_STRING);
    push_length(cookie.len(), &mut body);
    body.extend_from_slice(cookie.as_slice());
    assert(body@ =~= first + tlv(TAG_OCTET_STRING, cookie@));
    let mut out: Vec<u8> = Vec::new();
    out.push(TAG_SEQUENCE);
    push_length(body.len(), &mut out);
    out.extend_from_slice(body.as_slice());
    assert(out@ =~= tlv(TAG_SEQUENCE, body@));
    proof {
        assert(out@ == paged_value(size, cookie@));
        assert(paged_value(size, cookie@).len() == out.len());
        lemma_paged_value_round_trip(size, cookie@);
    }
    out
}

/// The size that the contents octets of an INTEGER between `ia` and `ib`
/// stand for, as far as 32 bits hold it.
#[verifier::loop_isolation(false)]
fn read_size(s: &[u8], ia: usize, ib: usize) -> (size: u32)
    requires
        ia < ib <= s.len(),
    ensures
        size == size_of(s@.subrange(ia as int, ib as int)),
{
    let ghost whole = s@.subrange(ia as int, ib as int);
    assert(whole[0] == s@[ia as int]);
    if s[ia] >= 0x80 {
        return 0;
    }
    let mut j: usize = ia;
    let mut acc: u64 = 0;
    assert(s@.subrange(ia as int, j as int) =~= Seq::<u8>::empty());
    while j < ib
        invariant
            ia <= j <= ib <= s.len(),
            acc <= u32::MAX,
            acc == if be_value(s@.subrange(ia as int, j as int)) > u32::MAX {
                u32::MAX as nat
            } else {
                be_value(s@.subrange(ia as int, j as int))
            },
        decreases ib - j,
    {
        proof {
            lemma_be_value_step(s@, ia as int, j as int);
        }
        let next: u64 = acc * 256 + s[j] as u64;
        acc = if next > u32::MAX as u64 {
            u32::MAX as u64
        } else {
            next
        };
        j += 1;
    }
    assert(s@.subrange(ia as int, j as int) =~= whole);
    acc as u32
}

/// Reads the two fields of a control value from `a`.
fn decode_paged_fields(s: &[u8], a: usize) -> (r: Option<(u32, Vec<u8>, usize)>)
    ensures
        match parse_paged_fields(s@, a as int) {
            Some((size, cookie, end)) => r matches Some((n, c, e)) && n == size && c@ == cookie
                && e == end && e <= s.len(),
            None => r is None,
        },
{
    let (ia, ib) = match read_tlv_at(s, a, TAG_INTEGER) {
        None => {
            return None;
        },
        Some(range) => range,
    };
    let (ca, cb) = match read_tlv_at(s, ib, TAG_OCTET_STRING) {
        None => {
            return None;
        },
        Some(range) => range,
    };
    if ia >= ib {
        return None;
    }
    Some((read_size(s, ia, ib), slice_to_vec(slice_subrange(s, ca, cb)), cb))
}

/// Reads the size and the cookie off a control value.
pub fn decode_paged_value(s: &[u8]) -> (r: Option<(u32, Vec<u8>)>)
    ensures
        match parse_paged_value(s@) {
            Some((size, cookie)) => r matches Some((n, c)) && n == size && c@ == cookie,
            None => r is None,
        },
{
    if s.len() >= 2 && s[0] == TAG_SEQUENCE && s[1] == 0x80 {
        match decode_paged_fields(s, 2) {
            Some((size, cookie, end)) => {
                if s.len() - end >= 2 && s[end] == 0 && s[end + 1] == 0 {
                    Some((size, cookie))
                } else {
                    None
                }
            },
            None => None,
        }
    } else {
        let (a, b) = match read_tlv_at(s, 0, TAG_SEQUENCE) {
            None => {
                return None;
            },
            Some(range) => range,
        };
        match decode_paged_fields(s, a) {
            Some((size, cookie, end)) => {
                if end == b {
                    Some((size, cookie))
                } else {
                    None
                }
            },
            None => None,
        }
    }
}

impl SimplePagedResultsControl {
    /// Control OID
    pub const OID: &'static str = SIMPLE_PAGED_RESULTS_CONTROL_OID;

    /// Create paged result control with a given page size: no cookie yet,
    /// and entries to come.
    pub fn new(size: u32) -> (r: Self)
        ensures
            r@ == (PagedResultsView { size, cookie: Seq::empty(), has_entries: true }),
    {
        SimplePagedResultsControl { size, cookie: Vec::new(), has_entries: true }
    }

    /// Replace the page size for a given control
    pub fn with_size(self, size: u32) -> (r: Self)
        ensures
            r@ == (PagedResultsView { size, ..self@ }),
    {
        SimplePagedResultsControl { size, cookie: self.cookie, has_entries: self.has_entries }
    }

    /// The same state with no more entries to come: the paged search is
    /// over.
    pub fn without_entries(self) -> (r: Self)
        ensures
            r@ == (PagedResultsView { has_entries: false, ..self@ }),
    {
        SimplePagedResultsControl { size: self.size, cookie: self.cookie, has_entries: false }
    }

    /// Return a cookie
    pub fn cookie(&self) -> (r: &Vec<u8>)
        ensures
            r@ == self@.cookie,
    {
        &self.cookie
    }

    /// Return a current size
    pub fn size(&self) -> (r: u32)
        ensures
            r == self@.size,
    {
        self.size
    }

    /// Returns true if this control indicates more entries are available
    pub fn has_entries(&self) -> (r: bool)
        ensures
            r == self@.has_entries,
    {
        self.has_entries
    }

    /// Reads the paging state off a control, whatever its type says.
    ///
    /// `AsnDecode` where the control's value, an absent one taken as empty,
    /// is no paged-results value.
    pub fn try_from(value: Control) -> (r: Result<Self, Error>)
        ensures
            match paged_of(value@) {
                Some(p) => r matches Ok(c) && c@ == p,
                None => r matches Err(Error::AsnDecode(text)) && text@ == MALFORMED_VALUE@,
            },
    {
        let decoded = match &value.control_value {
            Some(v) => decode_paged_value(v.as_slice()),
            None => {
                let empty: Vec<u8> = Vec::new();
                decode_paged_value(empty.as_slice())
            },
        };
        match decoded {
            Some((size, cookie)) => {
                let has_entries = cookie.len() > 0;
                Ok(SimplePagedResultsControl { size, cookie, has_entries })
            },
            None => Err(Error::AsnDecode(MALFORMED_VALUE.to_owned())),
        }
    }
}

impl Control {
    /// The control that carries a paging state: not critical, with the
    /// paged-results OID and the state's size and cookie as its value.
    pub fn try_from(control: SimplePagedResultsControl) -> (r: Result<Self, Error>)
        ensures
            r matches Ok(c) && c@ == control_of(control@) && paged_of(c@) == Some(
                PagedResultsView { has_entries: control@.cookie.len() > 0, ..control@ },
            ),
    {
        let value = encode_paged_value(control.size, &control.cookie);
        Ok(
            Control::new(
                slice_to_vec(SIMPLE_PAGED_RESULTS_CONTROL_OID.as_bytes()),
                false,
                Some(value),
            ),
        )
    }
}

} // verus!
