//! The filter parser: reads the bytes of a filter text from left to right
//! and builds the tree that the grammar gives for it.

use vstd::prelude::*;
use vstd::slice::{slice_subrange, slice_to_vec};
use crate::filter::escape::{is_hex, unescape, BACKSLASH};
use crate::filter::grammar::{
    assign_at, attr_end, is_attr_char, is_dn, ordering_filter, parse_extensible,
    parse_filter_at, parse_item, parse_list, parse_match_value, parse_pattern, parse_pieces,
    value_end, value_of, AMPERSAND, BANG, COLON, EQUALS, GREATER, LESS, LPAREN, PIPE, RPAREN, STAR,
    TILDE,
};
use crate::filter::order::{filter_key, lemma_insert_at, rank, set_of, Rank};
use crate::filter::render::render;
use crate::filter::tree::{
    choices_view, filters_view, AttributeValueAssertion, Filter, FilterView, MatchingRuleAssertion,
    SubstringChoice, SubstringChoiceView, SubstringFilter,
};

verus! {

/// Whether a parser's result is what the grammar gives: the same tree and the
/// same end, or nothing where the grammar gives nothing.
pub open spec fn found(r: Option<(Filter, usize)>, want: Option<(FilterView, int)>) -> bool {
    match want {
        Some((f, e)) => r matches Some((g, n)) && g@ == f && n == e,
        None => r is None,
    }
}

/// `acc` put before the pieces of `r`.
pub open spec fn with_pieces(
    acc: Seq<SubstringChoiceView>,
    r: Option<(Seq<SubstringChoiceView>, int)>,
) -> Option<(Seq<SubstringChoiceView>, int)> {
    match r {
        None => None,
        Some((rest, end)) => Some((acc + rest, end)),
    }
}

/// `acc` put before the filters of `r`.
pub open spec fn with_filters(acc: Seq<FilterView>, r: Option<(Seq<FilterView>, int)>) -> Option<
    (Seq<FilterView>, int),
> {
    match r {
        None => None,
        Some((rest, end)) => Some((acc + rest, end)),
    }
}

/// Whether `c` may stand in an attribute description or a rule identifier.
pub fn attr_char(c: u8) -> (r: bool)
    ensures
        r == is_attr_char(c),
{
    (0x30 <= c && c <= 0x39) || (0x41 <= c && c <= 0x5a) || (0x61 <= c && c <= 0x7a) || c == 0x2d
        || c == 0x2e || c == 0x3b
}

/// End of the attribute description or rule identifier that starts at `i`.
pub fn scan_attr(s: &[u8], i: usize) -> (e: usize)
    requires
        i <= s.len(),
    ensures
        e == attr_end(s@, i as int),
        i <= e <= s.len(),
{
    let mut j = i;
    while j < s.len() && attr_char(s[j])
        invariant
            i <= j <= s.len(),
            attr_end(s@, i as int) == attr_end(s@, j as int),
        decreases s.len() - j,
    {
        j += 1;
    }
    j
}

/// End of the value text that starts at `i`; `None` where it holds a
/// backslash that starts no escape.
pub fn scan_value(s: &[u8], i: usize) -> (r: Option<usize>)
    requires
        i <= s.len(),
    ensures
        match value_end(s@, i as int) {
            Some(e) => r == Some(e as usize) && i <= e <= s.len(),
            None => r is None,
        },
{
    let mut j = i;
    while j < s.len()
        invariant
            i <= j <= s.len(),
            value_end(s@, i as int) == value_end(s@, j as int),
        decreases s.len() - j,
    {
        let c = s[j];
        if c == BACKSLASH {
            if s.len() - j > 2 && is_hex(s[j + 1]) && is_hex(s[j + 2]) {
                j += 3;
            } else {
                return None;
            }
        } else if c != 0 && c != LPAREN && c != RPAREN && c != STAR {
            j += 1;
        } else {
            return Some(j);
        }
    }
    Some(j)
}

/// The bytes that the value text between `i` and `e` stands for.
pub fn value_bytes(s: &[u8], i: usize, e: usize) -> (v: Vec<u8>)
    requires
        i <= e <= s.len(),
    ensures
        v@ == value_of(s@, i as int, e as int),
{
    unescape(slice_subrange(s, i, e))
}

/// The bytes between `i` and `e`, as they are.
pub fn range_bytes(s: &[u8], i: usize, e: usize) -> (v: Vec<u8>)
    requires
        i <= e <= s.len(),
    ensures
        v@ == s@.subrange(i as int, e as int),
{
    slice_to_vec(slice_subrange(s, i, e))
}

/// Whether `:=` stands at `i`.
pub fn is_assign(s: &[u8], i: usize) -> (r: bool)
    requires
        i <= s.len(),
    ensures
        r == assign_at(s@, i as int),
{
    s.len() - i >= 2 && s[i] == COLON && s[i + 1] == EQUALS
}

/// Reads what follows `attr=` from `i`: an equality, a presence test or a
/// substring pattern with its pieces in order.
#[verifier::loop_isolation(false)]
pub fn substring_to_ldap(s: &[u8], attr: Vec<u8>, i: usize) -> (r: Option<(Filter, usize)>)
    requires
        i <= s.len(),
    ensures
        found(r, parse_pattern(s@, attr@, i as int)),
        r matches Some((_, n)) ==> i <= n <= s.len(),
{
    let e = match scan_value(s, i) {
        None => {
            return None;
        },
        Some(e) => e,
    };
    if !(e < s.len() && s[e] == STAR) {
        let a = AttributeValueAssertion::new(attr, value_bytes(s, i, e));
        return Some((Filter::EqualityMatch(a), e));
    }
    let mut out: Vec<SubstringChoice> = Vec::new();
    let ghost mut lead: Seq<SubstringChoiceView> = Seq::empty();
    if e > i {
        out.push(SubstringChoice::Initial(value_bytes(s, i, e)));
        proof {
            lead = seq![SubstringChoiceView::Initial(value_of(s@, i as int, e as int))];
        }
    }
    let ghost mut acc: Seq<SubstringChoiceView> = Seq::empty();
    let mut p: usize = e + 1;
    assert(choices_view(out@) =~= lead + acc);
    assert(with_pieces(acc, parse_pieces(s@, p as int)) == parse_pieces(s@, e + 1)) by {
        match parse_pieces(s@, p as int) {
            None => {},
            Some((rest, end)) => {
                assert(acc + rest =~= rest);
            },
        }
    }
    loop
        invariant
            e < p <= s.len(),
            parse_pieces(s@, e + 1) == with_pieces(acc, parse_pieces(s@, p as int)),
            choices_view(out@) == lead + acc,
        decreases s.len() - p,
    {
        let q = match scan_value(s, p) {
            None => {
                return None;
            },
            Some(q) => q,
        };
        if q < s.len() && s[q] == STAR {
            if q == p {
                return None;
            }
            let piece = SubstringChoice::Any(value_bytes(s, p, q));
            proof {
                let before = acc;
                acc = acc.push(piece@);
                match parse_pieces(s@, q + 1) {
                    None => {},
                    Some((rest, end)) => {
                        assert(before + (seq![piece@] + rest) =~= acc + rest);
                    },
                }
                assert(choices_view(out@.push(piece)) =~= choices_view(out@).push(piece@));
                assert((lead + before).push(piece@) =~= lead + acc);
            }
            out.push(piece);
            p = q + 1;
        } else {
            if q > p {
                let piece = SubstringChoice::Final(value_bytes(s, p, q));
                proof {
                    let before = acc;
                    acc = acc.push(piece@);
                    assert(before + seq![piece@] =~= acc);
                    assert(choices_view(out@.push(piece)) =~= choices_view(out@).push(piece@));
                    assert((lead + before).push(piece@) =~= lead + acc);
                }
                out.push(piece);
            } else {
                assert(acc + Seq::<SubstringChoiceView>::empty() =~= acc);
            }
            assert(parse_pieces(s@, e + 1) == Some((acc, q as int)));
            if out.len() == 0 {
                assert(lead + acc =~= Seq::<SubstringChoiceView>::empty()) by {
                    assert((lead + acc).len() == 0);
                }
                return Some((Filter::Present(attr), q));
            }
            return Some((Filter::Substrings(SubstringFilter::new(attr, out)), q));
        }
    }
}

/// Reads the value of `attr op value` from `i`, where `op` is one of `~`,
/// `>`, `<` and stood before `=`.
pub fn parse_simple(s: &[u8], op: u8, attr: Vec<u8>, i: usize) -> (r: Option<(Filter, usize)>)
    requires
        i <= s.len(),
    ensures
        match value_end(s@, i as int) {
            Some(e) => r matches Some((g, n)) && g@ == ordering_filter(
                op,
                attr@,
                value_of(s@, i as int, e),
            ) && n == e && i <= n <= s.len(),
            None => r is None,
        },
{
    match scan_value(s, i) {
        None => None,
        Some(e) => {
            let a = AttributeValueAssertion::new(attr, value_bytes(s, i, e));
            let f = if op == TILDE {
                Filter::ApproxMatch(a)
            } else if op == GREATER {
                Filter::GreaterOrEqual(a)
            } else {
                Filter::LessOrEqual(a)
            };
            Some((f, e))
        },
    }
}

/// Reads the value of an extensible item from `i` and joins it with what
/// stood before it.
pub fn parse_match_value_at(
    s: &[u8],
    attr: Option<Vec<u8>>,
    dn: bool,
    rule: Option<Vec<u8>>,
    i: usize,
) -> (r: Option<(Filter, usize)>)
    requires
        i <= s.len(),
    ensures
        found(
            r,
            parse_match_value(
                s@,
                crate::filter::tree::opt_bytes_view(attr),
                dn,
                crate::filter::tree::opt_bytes_view(rule),
                i as int,
            ),
        ),
        r matches Some((_, n)) ==> i <= n <= s.len(),
{
    match scan_value(s, i) {
        None => None,
        Some(e) => {
            let m = MatchingRuleAssertion::new(rule, attr, value_bytes(s, i, e), dn);
            Some((Filter::ExtensibleMatch(m), e))
        },
    }
}

/// Reads an extensible item from its first `:` on, at `a`; `attr` stood
/// before it.
pub fn parse_extensible_at(s: &[u8], attr: Option<Vec<u8>>, a: usize) -> (r: Option<
    (Filter, usize),
>)
    requires
        a < s.len(),
    ensures
        found(r, parse_extensible(s@, crate::filter::tree::opt_bytes_view(attr), a as int)),
        r matches Some((_, n)) ==> a < n <= s.len(),
{
    let t = scan_attr(s, a + 1);
    let dn = t - a == 3 && s[a + 1] == 0x64 && s[a + 2] == 0x6e;
    assert(dn == is_dn(s@, a + 1, t as int));
    if is_assign(s, a) {
        if attr.is_some() {
            parse_match_value_at(s, attr, false, None, a + 2)
        } else {
            None
        }
    } else if t > a + 1 && is_assign(s, t) {
        if dn && attr.is_some() {
            parse_match_value_at(s, attr, true, None, t + 2)
        } else {
            parse_match_value_at(s, attr, false, Some(range_bytes(s, a + 1, t)), t + 2)
        }
    } else if dn && t < s.len() && s[t] == COLON {
        let r = scan_attr(s, t + 1);
        if r > t + 1 && is_assign(s, r) {
            parse_match_value_at(s, attr, true, Some(range_bytes(s, t + 1, r)), r + 2)
        } else {
            None
        }
    } else {
        None
    }
}

/// Reads an item from `i`.
pub fn parse_item_at(s: &[u8], i: usize) -> (r: Option<(Filter, usize)>)
    requires
        i <= s.len(),
    ensures
        found(r, parse_item(s@, i as int)),
        r matches Some((_, n)) ==> i < n <= s.len(),
{
    let a = scan_attr(s, i);
    if a >= s.len() {
        return None;
    }
    let c = s[a];
    if c == COLON {
        let attr = if a > i {
            Some(range_bytes(s, i, a))
        } else {
            None
        };
        parse_extensible_at(s, attr, a)
    } else if a == i {
        None
    } else if c == EQUALS {
        substring_to_ldap(s, range_bytes(s, i, a), a + 1)
    } else if (c == TILDE || c == GREATER || c == LESS) && s.len() - a >= 2 && s[a + 1] == EQUALS {
        parse_simple(s, c, range_bytes(s, i, a), a + 2)
    } else {
        None
    }
}

/// Reads a filter in its parentheses from `i`.
pub fn parse_rule(s: &[u8], i: usize) -> (r: Option<(Filter, usize)>)
    requires
        i <= s.len(),
    ensures
        found(r, parse_filter_at(s@, i as int)),
        r matches Some((_, n)) ==> i < n <= s.len(),
    decreases s.len() - i, 0int,
{
    if s.len() - i < 2 || s[i] != LPAREN {
        return None;
    }
    let c = s[i + 1];
    let body: Option<(Filter, usize)> = if c == AMPERSAND {
        match parse_set(s, i + 2) {
            None => None,
            Some((fs, e)) => Some((Filter::And(fs), e)),
        }
    } else if c == PIPE {
        match parse_set(s, i + 2) {
            None => None,
            Some((fs, e)) => Some((Filter::Or(fs), e)),
        }
    } else if c == BANG {
        match parse_rule(s, i + 2) {
            None => None,
            Some((f, e)) => Some((Filter::Not(Box::new(f)), e)),
        }
    } else {
        parse_item_at(s, i + 1)
    };
    match body {
        None => None,
        Some((f, e)) => if e < s.len() && s[e] == RPAREN {
            Some((f, e + 1))
        } else {
            None
        },
    }
}

/// Where in the ordered texts `texts` the text `text` goes: the first place
/// whose text does not stand before it, and whether the text stands there.
pub fn find_place(texts: &Vec<Vec<u8>>, text: &Vec<u8>) -> (r: (usize, bool))
    ensures
        r.0 <= texts.len(),
        forall|i: int| 0 <= i < r.0 ==> crate::filter::order::text_key(#[trigger] texts@[i]@)
            < crate::filter::order::text_key(text@),
        r.0 < texts.len() ==> crate::filter::order::text_key(text@)
            <= crate::filter::order::text_key(texts@[r.0 as int]@),
        r.1 == (r.0 < texts.len() && crate::filter::order::text_key(text@)
            == crate::filter::order::text_key(texts@[r.0 as int]@)),
{
    let mut p: usize = 0;
    while p < texts.len()
        invariant
            p <= texts.len(),
            forall|i: int| 0 <= i < p ==> crate::filter::order::text_key(#[trigger] texts@[i]@)
                < crate::filter::order::text_key(text@),
        decreases texts.len() - p,
    {
        match rank(texts[p].as_slice(), text.as_slice()) {
            Rank::Before => {},
            Rank::Same => {
                return (p, true);
            },
            Rank::After => {
                return (p, false);
            },
        }
        p += 1;
    }
    (p, false)
}

/// Reads one or more filters in a row from `i` and gives them as a set:
/// each filter once, in the order of sets.
#[verifier::loop_isolation(false)]
pub fn parse_set(s: &[u8], i: usize) -> (r: Option<(Vec<Filter>, usize)>)
    requires
        i <= s.len(),
    ensures
        match parse_list(s@, i as int) {
            Some((fs, e)) => r matches Some((out, n)) && filters_view(out@) == set_of(fs) && n == e
                && i < n <= s.len(),
            None => r is None,
        },
    decreases s.len() - i, 1int,
{
    let mut out: Vec<Filter> = Vec::new();
    let mut texts: Vec<Vec<u8>> = Vec::new();
    let ghost mut all: Seq<FilterView> = Seq::empty();
    let mut cur: usize = i;
    assert(filters_view(out@) =~= set_of(all));
    assert(parse_list(s@, i as int) == with_filters(all, parse_list(s@, cur as int))) by {
        match parse_list(s@, cur as int) {
            None => {},
            Some((rest, end)) => {
                assert(all + rest =~= rest);
            },
        }
    }
    loop
        invariant
            i <= cur <= s.len(),
            parse_list(s@, i as int) == with_filters(all, parse_list(s@, cur as int)),
            filters_view(out@) == set_of(all),
            texts.len() == out.len(),
            forall|k: int| 0 <= k < out.len() ==> (#[trigger] texts@[k])@ == render(out@[k]@),
        decreases s.len() - cur,
    {
        let (f, e) = match parse_rule(s, cur) {
            None => {
                return None;
            },
            Some((f, e)) => (f, e),
        };
        proof {
            let before = all;
            all = all.push(f@);
            assert(all.drop_last() =~= before);
            assert(all.last() == f@);
            if cur < e < s.len() && s@[e as int] == LPAREN {
                match parse_list(s@, e as int) {
                    None => {},
                    Some((rest, end)) => {
                        assert(before + (seq![f@] + rest) =~= all + rest);
                    },
                }
            } else {
                assert(before + seq![f@] =~= all);
            }
        }
        let text = f.render();
        let (p, there) = find_place(&texts, &text);
        proof {
            let held = filters_view(out@);
            assert forall|k: int| 0 <= k < p implies filter_key(#[trigger] held[k]) < filter_key(
                f@,
            ) by {
                assert(texts@[k]@ == render(out@[k]@));
            }
            if p < out.len() {
                assert(texts@[p as int]@ == render(out@[p as int]@));
            }
            lemma_insert_at(held, f@, p as int);
        }
        if !there {
            assert(filters_view(out@.insert(p as int, f)) =~= filters_view(out@).insert(
                p as int,
                f@,
            ));
            out.insert(p, f);
            texts.insert(p, text);
        }
        if e < s.len() && s[e] == LPAREN {
            cur = e;
        } else {
            return Some((out, e));
        }
    }
}

} // verus!
