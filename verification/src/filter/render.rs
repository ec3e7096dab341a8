//! The text of a filter tree: the renderer, and the laws that tie it to the
//! parser.

use vstd::prelude::*;
use crate::filter::escape::{escape_at, hex_pair_value, is_hex_digit, unescaped, BACKSLASH};
use crate::filter::grammar::{
    assign_at, attr_end, is_attr_char, is_dn, is_plain_char, ordering_filter, parse,
    parse_extensible, parse_filter_at, parse_item, parse_list, parse_match_value, parse_pattern,
    parse_pieces, value_end, value_of, AMPERSAND, BANG, COLON, EQUALS, GREATER, LESS, LPAREN, PIPE,
    RPAREN, STAR, TILDE,
};
use crate::filter::order::{
    filter_key, lemma_set_of, lemma_set_of_sorted, lemma_sorted_is_unique,
    lemma_text_key_is_one_to_one, set_of, sorted,
};
use crate::filter::tree::{
    choices_view, filters_view, AttributeValueAssertion, AttributeValueAssertionView, Filter,
    FilterView, MatchingRuleAssertion, MatchingRuleAssertionView, SubstringChoice,
    SubstringChoiceView, SubstringFilter, SubstringFilterView,
};

verus! {

/// Whether `c` goes into a value text as it is: a printable ASCII
/// character that the grammar does not use.
pub open spec fn is_raw_char(c: u8) -> bool {
    0x20 <= c <= 0x7e && c != LPAREN && c != RPAREN && c != STAR && c != BACKSLASH
}

/// The lower-case hexadecimal digit for `n`, which is below 16.
pub open spec fn hex_digit(n: int) -> u8 {
    if n < 10 {
        (0x30 + n) as u8
    } else {
        (0x61 + n - 10) as u8
    }
}

/// The text for one byte of a value: the byte itself, or its escape.
pub open spec fn escaped_byte(c: u8) -> Seq<u8> {
    if is_raw_char(c) {
        seq![c]
    } else {
        seq![BACKSLASH, hex_digit(c as int / 16), hex_digit(c as int % 16)]
    }
}

/// The text for a value.
pub open spec fn escaped(v: Seq<u8>) -> Seq<u8>
    decreases v.len(),
{
    if v.len() == 0 {
        v
    } else {
        escaped_byte(v[0]) + escaped(v.skip(1))
    }
}

/// Whether `x` stands in `s` at position `i`.
pub open spec fn at(s: Seq<u8>, i: int, x: Seq<u8>) -> bool {
    0 <= i && i + x.len() <= s.len() && s.subrange(i, i + x.len()) == x
}

/// Whether a value text that reaches position `j` ends there: `s` ends, or a
/// byte follows that is neither a plain character nor a backslash.
pub open spec fn value_stops(s: Seq<u8>, j: int) -> bool {
    j >= s.len() || (0 <= j && !is_plain_char(s[j]) && s[j] != BACKSLASH)
}

/// Whether a name that reaches position `j` ends there.
pub open spec fn attr_stops(s: Seq<u8>, j: int) -> bool {
    j >= s.len() || (0 <= j && !is_attr_char(s[j]))
}

/// Whether `a` is an attribute description or a rule identifier: not empty,
/// and of the characters of names.
pub open spec fn wf_attr(a: Seq<u8>) -> bool {
    a.len() > 0 && forall|k: int| 0 <= k < a.len() ==> is_attr_char(#[trigger] a[k])
}

/// What stands at a position of `s` stands, piece by piece, where its
/// pieces are.
pub proof fn lemma_at_split(s: Seq<u8>, i: int, x: Seq<u8>, y: Seq<u8>)
    requires
        at(s, i, x + y),
    ensures
        at(s, i, x),
        at(s, i + x.len(), y),
{
    let w = s.subrange(i, i + (x + y).len());
    assert(s.subrange(i, i + x.len()) =~= x) by {
        assert forall|k: int| 0 <= k < x.len() implies s.subrange(i, i + x.len())[k] == x[k] by {
            assert(w[k] == (x + y)[k]);
        }
    }
    assert(s.subrange(i + x.len(), i + x.len() + y.len()) =~= y) by {
        assert forall|k: int| 0 <= k < y.len() implies s.subrange(
            i + x.len(),
            i + x.len() + y.len(),
        )[k] == y[k] by {
            assert(w[x.len() + k] == (x + y)[x.len() + k]);
        }
    }
}

/// The byte at a position within what stands at `i`.
pub proof fn lemma_at_index(s: Seq<u8>, i: int, x: Seq<u8>, k: int)
    requires
        at(s, i, x),
        0 <= k < x.len(),
    ensures
        s[i + k] == x[k],
{
    assert(s.subrange(i, i + x.len())[k] == x[k]);
}

/// The two digits of an escape spell the byte.
pub proof fn lemma_hex_digits(c: u8)
    ensures
        is_hex_digit(hex_digit(c as int / 16)),
        is_hex_digit(hex_digit(c as int % 16)),
        hex_pair_value(hex_digit(c as int / 16), hex_digit(c as int % 16)) == c,
{
}

/// The text of a value holds no byte that the grammar reads as syntax or
/// refuses: no parenthesis, no `*`, no NUL; every byte of it is a printable
/// ASCII character. A byte of the value can so never be taken for syntax.
pub proof fn lemma_escaped_is_text(v: Seq<u8>, k: int)
    requires
        0 <= k < escaped(v).len(),
    ensures
        escaped(v)[k] != LPAREN,
        escaped(v)[k] != RPAREN,
        escaped(v)[k] != STAR,
        0x20 <= escaped(v)[k] <= 0x7e,
    decreases v.len(),
{
    if v.len() > 0 {
        let head = escaped_byte(v[0]);
        if k >= head.len() {
            lemma_escaped_is_text(v.skip(1), k - head.len());
        }
    }
}

/// The text of a value is at least as long as the value.
pub proof fn lemma_escaped_len(v: Seq<u8>)
    ensures
        escaped(v).len() >= v.len(),
    decreases v.len(),
{
    if v.len() > 0 {
        lemma_escaped_len(v.skip(1));
    }
}

/// Unescaping the text of a value gives the value.
pub proof fn lemma_unescape_escaped(v: Seq<u8>)
    ensures
        unescaped(escaped(v)) == v,
    decreases v.len(),
{
    if v.len() > 0 {
        let c = v[0];
        let rest = escaped(v.skip(1));
        let t = escaped(v);
        lemma_unescape_escaped(v.skip(1));
        lemma_hex_digits(c);
        if is_raw_char(c) {
            assert(t[0] == c);
            assert(!escape_at(t, 0));
            assert(t.skip(1) =~= rest);
            assert(seq![c] + v.skip(1) =~= v);
        } else {
            assert(t[0] == BACKSLASH);
            assert(t[1] == hex_digit(c as int / 16));
            assert(t[2] == hex_digit(c as int % 16));
            assert(escape_at(t, 0));
            assert(t.skip(3) =~= rest);
            assert(seq![c] + v.skip(1) =~= v);
        }
    }
}

/// A value text that stands at `i` and stops after its last byte is read
/// as a whole, and stands for its value.
pub proof fn lemma_value_end_escaped(s: Seq<u8>, i: int, v: Seq<u8>)
    requires
        at(s, i, escaped(v)),
        value_stops(s, i + escaped(v).len()),
    ensures
        value_end(s, i) == Some(i + escaped(v).len()),
        value_of(s, i, i + escaped(v).len()) == v,
    decreases v.len(),
{
    lemma_unescape_escaped(v);
    if v.len() > 0 {
        let c = v[0];
        let head = escaped_byte(c);
        let rest = escaped(v.skip(1));
        lemma_at_split(s, i, head, rest);
        lemma_value_end_escaped(s, i + head.len(), v.skip(1));
        lemma_hex_digits(c);
        if is_raw_char(c) {
            lemma_at_index(s, i, head, 0);
        } else {
            lemma_at_index(s, i, head, 0);
            lemma_at_index(s, i, head, 1);
            lemma_at_index(s, i, head, 2);
            assert(escape_at(s, i));
        }
    }
}

/// A name that stands at `i` and stops after its last byte is read as a
/// whole.
pub proof fn lemma_attr_end_name(s: Seq<u8>, i: int, a: Seq<u8>)
    requires
        at(s, i, a),
        forall|k: int| 0 <= k < a.len() ==> is_attr_char(#[trigger] a[k]),
        attr_stops(s, i + a.len()),
    ensures
        attr_end(s, i) == i + a.len(),
    decreases a.len(),
{
    if a.len() > 0 {
        lemma_at_index(s, i, a, 0);
        assert(seq![a[0]] + a.skip(1) =~= a);
        lemma_at_split(s, i, seq![a[0]], a.skip(1));
        assert forall|k: int| 0 <= k < a.skip(1).len() implies is_attr_char(
            #[trigger] a.skip(1)[k],
        ) by {
            assert(a.skip(1)[k] == a[k + 1]);
        }
        lemma_attr_end_name(s, i + 1, a.skip(1));
    }
}

/// The bytes that a name scan passed are characters of names.
pub proof fn lemma_attr_end_scanned(s: Seq<u8>, i: int)
    requires
        0 <= i <= s.len(),
    ensures
        i <= attr_end(s, i) <= s.len(),
        forall|k: int| i <= k < attr_end(s, i) ==> is_attr_char(#[trigger] s[k]),
        attr_stops(s, attr_end(s, i)),
    decreases s.len() - i,
{
    if i < s.len() && is_attr_char(s[i]) {
        lemma_attr_end_scanned(s, i + 1);
    }
}

/// A value scan ends within the text, where the value stops.
pub proof fn lemma_value_end_bounds(s: Seq<u8>, i: int)
    requires
        0 <= i <= s.len(),
    ensures
        value_end(s, i) matches Some(e) ==> i <= e <= s.len() && value_stops(s, e),
    decreases s.len() - i,
{
    if i < s.len() {
        if s[i] == BACKSLASH {
            if escape_at(s, i) {
                lemma_value_end_bounds(s, i + 3);
            }
        } else if is_plain_char(s[i]) {
            lemma_value_end_bounds(s, i + 1);
        }
    }
}

/// The name `dn`, which after a colon is the flag of an extensible match.
pub open spec fn dn_name() -> Seq<u8> {
    seq![0x64u8, 0x6e]
}

/// Whether the pieces that follow a `*` are in order: any number of
/// pieces for the middle, then at most one for the end; none is empty.
pub open spec fn wf_tail(ps: Seq<SubstringChoiceView>) -> bool
    decreases ps.len(),
{
    if ps.len() == 0 {
        true
    } else {
        match ps[0] {
            SubstringChoiceView::Any(x) => x.len() > 0 && wf_tail(ps.skip(1)),
            SubstringChoiceView::Final(y) => y.len() > 0 && ps.len() == 1,
            SubstringChoiceView::Initial(_) => false,
        }
    }
}

/// Whether the pieces of a substring pattern are in order: at least one
/// piece; at most one for the start, which comes first; at most one for the
/// end, which comes last; none is empty.
pub open spec fn wf_pieces(ps: Seq<SubstringChoiceView>) -> bool {
    ps.len() > 0 && match ps[0] {
        SubstringChoiceView::Initial(x) => x.len() > 0 && wf_tail(ps.skip(1)),
        _ => wf_tail(ps),
    }
}

/// Whether an extensible match can be written down: its names are names, it
/// has an attribute or a rule, and after an attribute the rule is not
/// called `dn` unless the flag is set too.
pub open spec fn wf_extensible(m: MatchingRuleAssertionView) -> bool {
    &&& m.attribute_desc matches Some(a) ==> wf_attr(a)
    &&& m.matching_rule matches Some(r) ==> wf_attr(r)
    &&& m.attribute_desc is Some || m.matching_rule is Some
    &&& !(m.attribute_desc is Some && !m.dn_attributes && m.matching_rule == Some(dn_name()))
}

/// Whether a filter is one that the parser gives: names are names, sets are
/// not empty and hold their members once and in the order of sets, and
/// substring patterns are in order.
pub open spec fn wf(f: FilterView) -> bool
    decreases f,
{
    match f {
        FilterView::And(fs) => fs.len() > 0 && sorted(fs) && wf_all(fs),
        FilterView::Or(fs) => fs.len() > 0 && sorted(fs) && wf_all(fs),
        FilterView::Not(g) => wf(*g),
        FilterView::EqualityMatch(a) => wf_attr(a.attribute_desc),
        FilterView::Substrings(s) => wf_attr(s.attribute_desc) && wf_pieces(s.substrings),
        FilterView::GreaterOrEqual(a) => wf_attr(a.attribute_desc),
        FilterView::LessOrEqual(a) => wf_attr(a.attribute_desc),
        FilterView::Present(a) => wf_attr(a),
        FilterView::ApproxMatch(a) => wf_attr(a.attribute_desc),
        FilterView::ExtensibleMatch(m) => wf_extensible(m),
    }
}

/// Whether every filter of a list is well-formed.
pub open spec fn wf_all(fs: Seq<FilterView>) -> bool
    decreases fs,
{
    if fs.len() == 0 {
        true
    } else {
        wf(fs[0]) && wf_all(fs.skip(1))
    }
}

/// The text of the pieces that follow a `*`.
pub open spec fn render_tail(ps: Seq<SubstringChoiceView>) -> Seq<u8>
    decreases ps.len(),
{
    if ps.len() == 0 {
        Seq::empty()
    } else {
        match ps[0] {
            SubstringChoiceView::Any(x) => escaped(x) + (seq![STAR] + render_tail(ps.skip(1))),
            SubstringChoiceView::Final(y) => escaped(y),
            SubstringChoiceView::Initial(_) => Seq::empty(),
        }
    }
}

/// The text of a substring pattern.
pub open spec fn render_pieces(ps: Seq<SubstringChoiceView>) -> Seq<u8> {
    if ps.len() > 0 && ps[0] is Initial {
        escaped(ps[0]->Initial_0) + (seq![STAR] + render_tail(ps.skip(1)))
    } else {
        seq![STAR] + render_tail(ps)
    }
}

/// The text of `attr op value`, where `op` is the operator's text.
pub open spec fn render_assertion(op: Seq<u8>, a: AttributeValueAssertionView) -> Seq<u8> {
    seq![LPAREN] + (a.attribute_desc + (op + (escaped(a.assertion_value) + seq![RPAREN])))
}

/// The text of an extensible match from its first colon on.
pub open spec fn render_match(m: MatchingRuleAssertionView) -> Seq<u8> {
    (if m.dn_attributes {
        seq![COLON] + dn_name()
    } else {
        Seq::empty()
    }) + ((match m.matching_rule {
        Some(r) => seq![COLON] + r,
        None => Seq::empty(),
    }) + (seq![COLON, EQUALS] + (escaped(m.match_value) + seq![RPAREN])))
}

/// The text of an extensible match.
pub open spec fn render_extensible(m: MatchingRuleAssertionView) -> Seq<u8> {
    seq![LPAREN] + ((match m.attribute_desc {
        Some(a) => a,
        None => Seq::empty(),
    }) + render_match(m))
}

/// The text of a filter: every value with its escapes, every byte that is
/// no printable ASCII character or that the grammar uses as `\HH`.
pub open spec fn render(f: FilterView) -> Seq<u8>
    decreases f,
{
    match f {
        FilterView::And(fs) => seq![LPAREN, AMPERSAND] + (render_all(fs) + seq![RPAREN]),
        FilterView::Or(fs) => seq![LPAREN, PIPE] + (render_all(fs) + seq![RPAREN]),
        FilterView::Not(g) => seq![LPAREN, BANG] + (render(*g) + seq![RPAREN]),
        FilterView::EqualityMatch(a) => render_assertion(seq![EQUALS], a),
        FilterView::Substrings(s) => seq![LPAREN] + (s.attribute_desc + (seq![EQUALS] + (
            render_pieces(s.substrings) + seq![RPAREN]))),
        FilterView::GreaterOrEqual(a) => render_assertion(seq![GREATER, EQUALS], a),
        FilterView::LessOrEqual(a) => render_assertion(seq![LESS, EQUALS], a),
        FilterView::Present(a) => seq![LPAREN] + (a + seq![EQUALS, STAR, RPAREN]),
        FilterView::ApproxMatch(a) => render_assertion(seq![TILDE, EQUALS], a),
        FilterView::ExtensibleMatch(m) => render_extensible(m),
    }
}

/// The texts of a list of filters, in a row.
pub open spec fn render_all(fs: Seq<FilterView>) -> Seq<u8>
    decreases fs,
{
    if fs.len() == 0 {
        Seq::empty()
    } else {
        render(fs[0]) + render_all(fs.skip(1))
    }
}

/// The pieces after a `*`, written down before a `)`, are read back.
pub proof fn lemma_parse_tail(s: Seq<u8>, p: int, ps: Seq<SubstringChoiceView>)
    requires
        wf_tail(ps),
        at(s, p, render_tail(ps)),
        p + render_tail(ps).len() < s.len(),
        s[p + render_tail(ps).len()] == RPAREN,
    ensures
        parse_pieces(s, p) == Some((ps, p + render_tail(ps).len())),
    decreases ps.len(),
{
    if ps.len() == 0 {
        assert(value_end(s, p) == Some(p));
        assert(ps =~= Seq::<SubstringChoiceView>::empty());
    } else {
        match ps[0] {
            SubstringChoiceView::Any(x) => {
                let rest = render_tail(ps.skip(1));
                lemma_at_split(s, p, escaped(x), seq![STAR] + rest);
                let e = p + escaped(x).len();
                lemma_at_split(s, e, seq![STAR], rest);
                lemma_at_index(s, e, seq![STAR], 0);
                lemma_value_end_escaped(s, p, x);
                lemma_escaped_len(x);
                lemma_parse_tail(s, e + 1, ps.skip(1));
                assert(seq![ps[0]] + ps.skip(1) =~= ps);
            },
            SubstringChoiceView::Final(y) => {
                lemma_value_end_escaped(s, p, y);
                lemma_escaped_len(y);
                assert(seq![ps[0]] =~= ps);
            },
            SubstringChoiceView::Initial(_) => {},
        }
    }
}

/// A substring pattern, written down after `attr=` and before a `)`, is
/// read back.
pub proof fn lemma_parse_pattern_pieces(
    s: Seq<u8>,
    attr: Seq<u8>,
    i: int,
    ps: Seq<SubstringChoiceView>,
)
    requires
        wf_pieces(ps),
        at(s, i, render_pieces(ps)),
        i + render_pieces(ps).len() < s.len(),
        s[i + render_pieces(ps).len()] == RPAREN,
    ensures
        parse_pattern(s, attr, i) == Some(
            (
                FilterView::Substrings(SubstringFilterView { attribute_desc: attr, substrings: ps }),
                i + render_pieces(ps).len(),
            ),
        ),
{
    match ps[0] {
        SubstringChoiceView::Initial(x) => {
            let rest = render_tail(ps.skip(1));
            lemma_at_split(s, i, escaped(x), seq![STAR] + rest);
            let e = i + escaped(x).len();
            lemma_at_split(s, e, seq![STAR], rest);
            lemma_at_index(s, e, seq![STAR], 0);
            lemma_value_end_escaped(s, i, x);
            lemma_escaped_len(x);
            lemma_parse_tail(s, e + 1, ps.skip(1));
            assert(seq![ps[0]] + ps.skip(1) =~= ps);
        },
        _ => {
            let rest = render_tail(ps);
            lemma_at_split(s, i, seq![STAR], rest);
            lemma_at_index(s, i, seq![STAR], 0);
            assert(value_end(s, i) == Some(i));
            lemma_parse_tail(s, i + 1, ps);
        },
    }
}

/// A value, written down after `attr=` and before a `)`, is read back as an
/// equality.
pub proof fn lemma_parse_pattern_value(s: Seq<u8>, attr: Seq<u8>, i: int, v: Seq<u8>)
    requires
        at(s, i, escaped(v)),
        i + escaped(v).len() < s.len(),
        s[i + escaped(v).len()] == RPAREN,
    ensures
        parse_pattern(s, attr, i) == Some(
            (
                FilterView::EqualityMatch(
                    AttributeValueAssertionView { attribute_desc: attr, assertion_value: v },
                ),
                i + escaped(v).len(),
            ),
        ),
{
    lemma_value_end_escaped(s, i, v);
}

/// The value of an extensible match, written down before a `)`, is read
/// back.
pub proof fn lemma_parse_match_value(
    s: Seq<u8>,
    attr: Option<Seq<u8>>,
    dn: bool,
    rule: Option<Seq<u8>>,
    i: int,
    v: Seq<u8>,
)
    requires
        at(s, i, escaped(v) + seq![RPAREN]),
    ensures
        parse_match_value(s, attr, dn, rule, i) == Some(
            (
                FilterView::ExtensibleMatch(
                    MatchingRuleAssertionView {
                        matching_rule: rule,
                        attribute_desc: attr,
                        match_value: v,
                        dn_attributes: dn,
                    },
                ),
                i + escaped(v).len(),
            ),
        ),
        i + escaped(v).len() < s.len(),
        s[i + escaped(v).len()] == RPAREN,
{
    lemma_at_split(s, i, escaped(v), seq![RPAREN]);
    lemma_at_index(s, i + escaped(v).len(), seq![RPAREN], 0);
    lemma_value_end_escaped(s, i, v);
}

/// An extensible match, written down from its first colon on, is read back.
pub proof fn lemma_parse_extensible(s: Seq<u8>, a: int, m: MatchingRuleAssertionView)
    requires
        wf_extensible(m),
        at(s, a, render_match(m)),
    ensures
        parse_extensible(s, m.attribute_desc, a) == Some(
            (FilterView::ExtensibleMatch(m), a + render_match(m).len() - 1),
        ),
        s[a] == COLON,
        s[a + render_match(m).len() - 1] == RPAREN,
{
    let value = escaped(m.match_value) + seq![RPAREN];
    let assign = seq![COLON, EQUALS] + value;
    let rule_part = match m.matching_rule {
        Some(r) => seq![COLON] + r,
        None => Seq::empty(),
    };
    let dn_part = if m.dn_attributes {
        seq![COLON] + dn_name()
    } else {
        Seq::empty()
    };
    lemma_at_split(s, a, dn_part, rule_part + assign);
    let b = a + dn_part.len();
    lemma_at_split(s, b, rule_part, assign);
    let c = b + rule_part.len();
    lemma_at_split(s, c, seq![COLON, EQUALS], value);
    lemma_at_index(s, c, seq![COLON, EQUALS], 0);
    lemma_at_index(s, c, seq![COLON, EQUALS], 1);
    assert(assign_at(s, c));
    lemma_parse_match_value(s, m.attribute_desc, m.dn_attributes, m.matching_rule, c + 2, m.match_value);
    if m.dn_attributes {
        lemma_at_split(s, a, seq![COLON], dn_name());
        lemma_at_index(s, a, seq![COLON], 0);
        lemma_at_index(s, a + 1, dn_name(), 0);
        lemma_at_index(s, a + 1, dn_name(), 1);
        assert(!assign_at(s, a));
        assert(s[b] == COLON) by {
            if m.matching_rule is Some {
                lemma_at_split(s, b, seq![COLON], m.matching_rule->Some_0);
                lemma_at_index(s, b, seq![COLON], 0);
            }
        }
        lemma_attr_end_name(s, a + 1, dn_name());
        assert(attr_end(s, a + 1) == b);
        assert(is_dn(s, a + 1, b));
        match m.matching_rule {
            Some(r) => {
                lemma_at_split(s, b, seq![COLON], r);
                lemma_at_index(s, b + 1, r, 0);
                assert(!assign_at(s, b));
                lemma_attr_end_name(s, b + 1, r);
                assert(s.subrange(b + 1, c) == r);
            },
            None => {},
        }
    } else {
        match m.matching_rule {
            Some(r) => {
                lemma_at_split(s, a, seq![COLON], r);
                lemma_at_index(s, a, seq![COLON], 0);
                lemma_at_index(s, a + 1, r, 0);
                assert(!assign_at(s, a));
                lemma_attr_end_name(s, a + 1, r);
                assert(s.subrange(a + 1, c) == r);
                if is_dn(s, a + 1, c) {
                    assert(r =~= dn_name()) by {
                        lemma_at_index(s, a + 1, r, 0);
                        lemma_at_index(s, a + 1, r, 1);
                    }
                }
            },
            None => {},
        }
    }
}

/// The filter that a well-formed tree is written down as is read back as
/// that tree, wherever in a text it stands.
pub proof fn lemma_parse_rendered(s: Seq<u8>, i: int, f: FilterView)
    requires
        wf(f),
        at(s, i, render(f)),
    ensures
        parse_filter_at(s, i) == Some((f, i + render(f).len())),
        render(f).len() >= 2,
        s[i] == LPAREN,
    decreases f, 0int,
{
    match f {
        FilterView::And(fs) => {
            lemma_parse_rendered_set(s, i, AMPERSAND, fs);
        },
        FilterView::Or(fs) => {
            lemma_parse_rendered_set(s, i, PIPE, fs);
        },
        FilterView::Not(g) => {
            lemma_parse_rendered_not(s, i, *g);
        },
        FilterView::EqualityMatch(a) => {
            lemma_parse_rendered_equality(s, i, a);
        },
        FilterView::Substrings(sub) => {
            lemma_parse_rendered_substrings(s, i, sub);
        },
        FilterView::GreaterOrEqual(a) => {
            lemma_parse_rendered_ordering(s, i, GREATER, a);
        },
        FilterView::LessOrEqual(a) => {
            lemma_parse_rendered_ordering(s, i, LESS, a);
        },
        FilterView::ApproxMatch(a) => {
            lemma_parse_rendered_ordering(s, i, TILDE, a);
        },
        FilterView::Present(a) => {
            lemma_parse_rendered_present(s, i, a);
        },
        FilterView::ExtensibleMatch(m) => {
            lemma_parse_rendered_extensible(s, i, m);
        },
    }
}

/// A set of filters after `&` or `|`, written down, is read back.
pub proof fn lemma_parse_rendered_set(s: Seq<u8>, i: int, op: u8, fs: Seq<FilterView>)
    requires
        op == AMPERSAND || op == PIPE,
        fs.len() > 0,
        sorted(fs),
        wf_all(fs),
        at(s, i, seq![LPAREN, op] + (render_all(fs) + seq![RPAREN])),
    ensures
        parse_list(s, i + 2) == Some((fs, i + 2 + render_all(fs).len())),
        set_of(fs) == fs,
        s[i] == LPAREN,
        s[i + 1] == op,
        i + 2 + render_all(fs).len() < s.len(),
        s[i + 2 + render_all(fs).len()] == RPAREN,
    decreases fs, 2int,
{
    lemma_at_split(s, i, seq![LPAREN, op], render_all(fs) + seq![RPAREN]);
    lemma_at_index(s, i, seq![LPAREN, op], 0);
    lemma_at_index(s, i, seq![LPAREN, op], 1);
    lemma_at_split(s, i + 2, render_all(fs), seq![RPAREN]);
    lemma_at_index(s, i + 2 + render_all(fs).len(), seq![RPAREN], 0);
    lemma_parse_rendered_all(s, i + 2, fs);
    lemma_set_of_sorted(fs);
}

/// A negation, written down, is read back.
pub proof fn lemma_parse_rendered_not(s: Seq<u8>, i: int, g: FilterView)
    requires
        wf(g),
        at(s, i, seq![LPAREN, BANG] + (render(g) + seq![RPAREN])),
    ensures
        parse_filter_at(s, i + 2) == Some((g, i + 2 + render(g).len())),
        s[i] == LPAREN,
        s[i + 1] == BANG,
        i + 2 + render(g).len() < s.len(),
        s[i + 2 + render(g).len()] == RPAREN,
    decreases g, 1int,
{
    lemma_at_split(s, i, seq![LPAREN, BANG], render(g) + seq![RPAREN]);
    lemma_at_index(s, i, seq![LPAREN, BANG], 0);
    lemma_at_index(s, i, seq![LPAREN, BANG], 1);
    lemma_at_split(s, i + 2, render(g), seq![RPAREN]);
    lemma_at_index(s, i + 2 + render(g).len(), seq![RPAREN], 0);
    lemma_parse_rendered(s, i + 2, g);
}

/// An equality, written down, is read back.
pub proof fn lemma_parse_rendered_equality(s: Seq<u8>, i: int, a: AttributeValueAssertionView)
    requires
        wf_attr(a.attribute_desc),
        at(s, i, render(FilterView::EqualityMatch(a))),
    ensures
        parse_filter_at(s, i) == Some(
            (FilterView::EqualityMatch(a), i + render(FilterView::EqualityMatch(a)).len()),
        ),
        s[i] == LPAREN,
{
    let value = escaped(a.assertion_value) + seq![RPAREN];
    lemma_item_head(s, i, a.attribute_desc, seq![EQUALS] + value);
    let e = i + 1 + a.attribute_desc.len();
    lemma_at_split(s, e, seq![EQUALS], value);
    lemma_at_index(s, e, seq![EQUALS], 0);
    lemma_at_split(s, e + 1, escaped(a.assertion_value), seq![RPAREN]);
    lemma_at_index(s, e + 1 + escaped(a.assertion_value).len(), seq![RPAREN], 0);
    lemma_attr_end_name(s, i + 1, a.attribute_desc);
    lemma_parse_pattern_value(s, a.attribute_desc, e + 1, a.assertion_value);
}

/// A substring pattern, written down, is read back.
pub proof fn lemma_parse_rendered_substrings(s: Seq<u8>, i: int, sub: SubstringFilterView)
    requires
        wf_attr(sub.attribute_desc),
        wf_pieces(sub.substrings),
        at(s, i, render(FilterView::Substrings(sub))),
    ensures
        parse_filter_at(s, i) == Some(
            (FilterView::Substrings(sub), i + render(FilterView::Substrings(sub)).len()),
        ),
        s[i] == LPAREN,
{
    let pattern = render_pieces(sub.substrings) + seq![RPAREN];
    lemma_item_head(s, i, sub.attribute_desc, seq![EQUALS] + pattern);
    let e = i + 1 + sub.attribute_desc.len();
    lemma_at_split(s, e, seq![EQUALS], pattern);
    lemma_at_index(s, e, seq![EQUALS], 0);
    lemma_at_split(s, e + 1, render_pieces(sub.substrings), seq![RPAREN]);
    lemma_at_index(s, e + 1 + render_pieces(sub.substrings).len(), seq![RPAREN], 0);
    lemma_attr_end_name(s, i + 1, sub.attribute_desc);
    lemma_parse_pattern_pieces(s, sub.attribute_desc, e + 1, sub.substrings);
}

/// A presence test, written down, is read back.
pub proof fn lemma_parse_rendered_present(s: Seq<u8>, i: int, a: Seq<u8>)
    requires
        wf_attr(a),
        at(s, i, render(FilterView::Present(a))),
    ensures
        parse_filter_at(s, i) == Some(
            (FilterView::Present(a), i + render(FilterView::Present(a)).len()),
        ),
        s[i] == LPAREN,
{
    lemma_item_head(s, i, a, seq![EQUALS, STAR, RPAREN]);
    let e = i + 1 + a.len();
    lemma_at_index(s, e, seq![EQUALS, STAR, RPAREN], 0);
    lemma_at_index(s, e, seq![EQUALS, STAR, RPAREN], 1);
    lemma_at_index(s, e, seq![EQUALS, STAR, RPAREN], 2);
    lemma_attr_end_name(s, i + 1, a);
    assert(value_end(s, e + 1) == Some(e + 1));
    assert(value_end(s, e + 2) == Some(e + 2));
    assert(parse_pieces(s, e + 2) == Some((Seq::<SubstringChoiceView>::empty(), e + 2)));
}

/// An extensible match, written down, is read back.
pub proof fn lemma_parse_rendered_extensible(s: Seq<u8>, i: int, m: MatchingRuleAssertionView)
    requires
        wf_extensible(m),
        at(s, i, render(FilterView::ExtensibleMatch(m))),
    ensures
        parse_filter_at(s, i) == Some(
            (FilterView::ExtensibleMatch(m), i + render(FilterView::ExtensibleMatch(m)).len()),
        ),
        s[i] == LPAREN,
{
    let name = match m.attribute_desc {
        Some(a) => a,
        None => Seq::empty(),
    };
    lemma_at_split(s, i, seq![LPAREN], name + render_match(m));
    lemma_at_index(s, i, seq![LPAREN], 0);
    lemma_at_split(s, i + 1, name, render_match(m));
    let a = i + 1 + name.len();
    lemma_parse_extensible(s, a, m);
    lemma_attr_end_name(s, i + 1, name);
    if name.len() > 0 {
        lemma_at_index(s, i + 1, name, 0);
        assert(s.subrange(i + 1, a) == name);
    }
}

/// The start of an item: the parenthesis and the attribute, which is read
/// as a whole.
pub proof fn lemma_item_head(s: Seq<u8>, i: int, attr: Seq<u8>, rest: Seq<u8>)
    requires
        wf_attr(attr),
        at(s, i, seq![LPAREN] + (attr + rest)),
    ensures
        s[i] == LPAREN,
        i + 1 < s.len(),
        is_attr_char(s[i + 1]),
        at(s, i + 1, attr),
        at(s, i + 1 + attr.len(), rest),
        s.subrange(i + 1, i + 1 + attr.len()) == attr,
{
    lemma_at_split(s, i, seq![LPAREN], attr + rest);
    lemma_at_index(s, i, seq![LPAREN], 0);
    lemma_at_split(s, i + 1, attr, rest);
    lemma_at_index(s, i + 1, attr, 0);
}

/// `attr op value` with one of the operators `~=`, `>=`, `<=`, written
/// down, is read back.
pub proof fn lemma_parse_rendered_ordering(
    s: Seq<u8>,
    i: int,
    op: u8,
    a: AttributeValueAssertionView,
)
    requires
        op == TILDE || op == GREATER || op == LESS,
        wf_attr(a.attribute_desc),
        at(s, i, render_assertion(seq![op, EQUALS], a)),
    ensures
        parse_filter_at(s, i) == Some(
            (
                ordering_filter(op, a.attribute_desc, a.assertion_value),
                i + render_assertion(seq![op, EQUALS], a).len(),
            ),
        ),
        s[i] == LPAREN,
{
    let value = escaped(a.assertion_value) + seq![RPAREN];
    lemma_item_head(s, i, a.attribute_desc, seq![op, EQUALS] + value);
    let e = i + 1 + a.attribute_desc.len();
    lemma_at_split(s, e, seq![op, EQUALS], value);
    lemma_at_index(s, e, seq![op, EQUALS], 0);
    lemma_at_index(s, e, seq![op, EQUALS], 1);
    lemma_at_split(s, e + 2, escaped(a.assertion_value), seq![RPAREN]);
    lemma_at_index(s, e + 2 + escaped(a.assertion_value).len(), seq![RPAREN], 0);
    lemma_attr_end_name(s, i + 1, a.attribute_desc);
    lemma_value_end_escaped(s, e + 2, a.assertion_value);
}

/// The filters of a list, written down in a row before a byte that is no
/// `(`, are read back as that list.
pub proof fn lemma_parse_rendered_all(s: Seq<u8>, i: int, fs: Seq<FilterView>)
    requires
        fs.len() > 0,
        wf_all(fs),
        at(s, i, render_all(fs)),
        i + render_all(fs).len() < s.len(),
        s[i + render_all(fs).len()] != LPAREN,
    ensures
        parse_list(s, i) == Some((fs, i + render_all(fs).len())),
    decreases fs, 1int,
{
    let first = render(fs[0]);
    let rest = render_all(fs.skip(1));
    lemma_at_split(s, i, first, rest);
    lemma_parse_rendered(s, i, fs[0]);
    let e = i + first.len();
    if fs.len() > 1 {
        let tail = fs.skip(1);
        assert(wf_all(tail));
        assert(wf(tail[0]));
        let second = render(tail[0]);
        lemma_at_split(s, e, second, render_all(tail.skip(1)));
        lemma_parse_rendered(s, e, tail[0]);
        lemma_parse_rendered_all(s, e, tail);
        assert(seq![fs[0]] + tail =~= fs);
    } else {
        assert(fs.skip(1).len() == 0);
        assert(seq![fs[0]] =~= fs);
    }
}

/// Writing a well-formed filter down and parsing the text gives the filter
/// back.
pub proof fn lemma_render_round_trip(f: FilterView)
    requires
        wf(f),
    ensures
        parse(render(f)) == Some(f),
{
    let s = render(f);
    assert(s.subrange(0, s.len() as int) =~= s);
    lemma_parse_rendered(s, 0, f);
}

/// A value text that is not empty stands for a value that is not empty.
pub proof fn lemma_unescaped_nonempty(t: Seq<u8>)
    requires
        t.len() > 0,
    ensures
        unescaped(t).len() > 0,
{
}

/// Every filter of a well-formed list is well-formed.
pub proof fn lemma_wf_all_index(fs: Seq<FilterView>, k: int)
    requires
        wf_all(fs),
        0 <= k < fs.len(),
    ensures
        wf(fs[k]),
    decreases fs.len(),
{
    if k > 0 {
        lemma_wf_all_index(fs.skip(1), k - 1);
    }
}

/// A list of well-formed filters is well-formed.
pub proof fn lemma_wf_all_from_index(fs: Seq<FilterView>)
    requires
        forall|k: int| 0 <= k < fs.len() ==> wf(#[trigger] fs[k]),
    ensures
        wf_all(fs),
    decreases fs.len(),
{
    if fs.len() > 0 {
        assert forall|k: int| 0 <= k < fs.skip(1).len() implies wf(#[trigger] fs.skip(1)[k]) by {
            assert(fs.skip(1)[k] == fs[k + 1]);
        }
        lemma_wf_all_from_index(fs.skip(1));
    }
}

/// The set of a list of well-formed filters is a well-formed set.
pub proof fn lemma_set_wf(fs: Seq<FilterView>)
    requires
        fs.len() > 0,
        wf_all(fs),
    ensures
        set_of(fs).len() > 0,
        sorted(set_of(fs)),
        wf_all(set_of(fs)),
{
    lemma_set_of(fs);
    let d = set_of(fs);
    assert forall|k: int| 0 <= k < d.len() implies wf(#[trigger] d[k]) by {
        let j = choose|j: int| 0 <= j < fs.len() && fs[j] == d[k];
        lemma_wf_all_index(fs, j);
    }
    lemma_wf_all_from_index(d);
}

/// Two well-formed filters with one place in the order are one filter.
pub proof fn lemma_filter_key_is_one_to_one(a: FilterView, b: FilterView)
    requires
        wf(a),
        wf(b),
        filter_key(a) == filter_key(b),
    ensures
        a == b,
{
    lemma_text_key_is_one_to_one(render(a), render(b));
    lemma_render_round_trip(a);
    lemma_render_round_trip(b);
}

/// The set of a list of well-formed filters holds the filters of the list
/// and no others.
pub proof fn lemma_set_holds_the_list(fs: Seq<FilterView>)
    requires
        wf_all(fs),
    ensures
        forall|x: FilterView| set_of(fs).contains(x) <==> fs.contains(x),
{
    lemma_set_of(fs);
    let d = set_of(fs);
    assert forall|x: FilterView| d.contains(x) <==> fs.contains(x) by {
        if fs.contains(x) {
            let k = choose|k: int| 0 <= k < fs.len() && fs[k] == x;
            let m = choose|m: int|
                0 <= m < d.len() && filter_key(#[trigger] d[m]) == filter_key(fs[k]);
            let j = choose|j: int| 0 <= j < fs.len() && fs[j] == d[m];
            lemma_wf_all_index(fs, k);
            lemma_wf_all_index(fs, j);
            lemma_filter_key_is_one_to_one(d[m], x);
        }
        if d.contains(x) {
            let m = choose|m: int| 0 <= m < d.len() && d[m] == x;
            assert(fs.contains(d[m]));
        }
    }
}

/// The operands of `&` and of `|` are a set: two lists of well-formed
/// filters that hold the same filters, in whatever order and however often,
/// make the same set.
pub proof fn lemma_set_ignores_order(a: Seq<FilterView>, b: Seq<FilterView>)
    requires
        wf_all(a),
        wf_all(b),
        forall|x: FilterView| a.contains(x) <==> b.contains(x),
    ensures
        set_of(a) == set_of(b),
{
    lemma_set_of(a);
    lemma_set_of(b);
    lemma_set_holds_the_list(a);
    lemma_set_holds_the_list(b);
    lemma_sorted_is_unique(set_of(a), set_of(b));
}

/// The pieces that the grammar reads after a `*` are in order.
pub proof fn lemma_parsed_pieces_wf(s: Seq<u8>, p: int)
    requires
        0 <= p <= s.len(),
    ensures
        parse_pieces(s, p) matches Some((ps, end)) ==> wf_tail(ps) && p <= end <= s.len(),
    decreases s.len() - p,
{
    lemma_value_end_bounds(s, p);
    match value_end(s, p) {
        None => {},
        Some(e) => {
            if e < s.len() && s[e] == STAR {
                if e > p {
                    lemma_parsed_pieces_wf(s, e + 1);
                    lemma_unescaped_nonempty(s.subrange(p, e));
                    match parse_pieces(s, e + 1) {
                        None => {},
                        Some((rest, end)) => {
                            let ps = seq![SubstringChoiceView::Any(value_of(s, p, e))] + rest;
                            assert(ps.skip(1) =~= rest);
                        },
                    }
                }
            } else if e > p {
                lemma_unescaped_nonempty(s.subrange(p, e));
            }
        },
    }
}

/// What the grammar reads after `attr=` is well-formed.
pub proof fn lemma_parsed_pattern_wf(s: Seq<u8>, attr: Seq<u8>, i: int)
    requires
        wf_attr(attr),
        0 <= i <= s.len(),
    ensures
        parse_pattern(s, attr, i) matches Some((f, end)) ==> wf(f) && i <= end <= s.len(),
{
    lemma_value_end_bounds(s, i);
    match value_end(s, i) {
        None => {},
        Some(e) => {
            if e < s.len() && s[e] == STAR {
                lemma_parsed_pieces_wf(s, e + 1);
                match parse_pieces(s, e + 1) {
                    None => {},
                    Some((rest, end)) => {
                        if e > i {
                            lemma_unescaped_nonempty(s.subrange(i, e));
                            let ps = seq![SubstringChoiceView::Initial(value_of(s, i, e))] + rest;
                            assert(ps.skip(1) =~= rest);
                        }
                    },
                }
            }
        },
    }
}

/// A name that the grammar read is a name.
pub proof fn lemma_scanned_name(s: Seq<u8>, i: int)
    requires
        0 <= i <= s.len(),
        attr_end(s, i) > i,
    ensures
        wf_attr(s.subrange(i, attr_end(s, i))),
{
    lemma_attr_end_scanned(s, i);
    let a = s.subrange(i, attr_end(s, i));
    assert forall|k: int| 0 <= k < a.len() implies is_attr_char(#[trigger] a[k]) by {
        assert(a[k] == s[i + k]);
    }
}

/// The extensible match that the grammar reads is well-formed.
pub proof fn lemma_parsed_extensible_wf(s: Seq<u8>, attr: Option<Seq<u8>>, a: int)
    requires
        attr matches Some(x) ==> wf_attr(x),
        0 <= a < s.len(),
    ensures
        parse_extensible(s, attr, a) matches Some((f, end)) ==> wf(f) && a < end <= s.len(),
{
    lemma_attr_end_scanned(s, a + 1);
    let t = attr_end(s, a + 1);
    if assign_at(s, a) {
        lemma_value_end_bounds(s, a + 2);
    } else if t > a + 1 && assign_at(s, t) {
        lemma_value_end_bounds(s, t + 2);
        lemma_scanned_name(s, a + 1);
        let rule = s.subrange(a + 1, t);
        if rule == dn_name() {
            assert(rule[0] == 0x64 && rule[1] == 0x6e);
            assert(is_dn(s, a + 1, t));
        }
    } else if is_dn(s, a + 1, t) && t < s.len() && s[t] == COLON {
        lemma_attr_end_scanned(s, t + 1);
        let r = attr_end(s, t + 1);
        if r > t + 1 && assign_at(s, r) {
            lemma_value_end_bounds(s, r + 2);
            lemma_scanned_name(s, t + 1);
        }
    }
}

/// The item that the grammar reads is well-formed.
pub proof fn lemma_parsed_item_wf(s: Seq<u8>, i: int)
    requires
        0 <= i <= s.len(),
    ensures
        parse_item(s, i) matches Some((f, end)) ==> wf(f) && i < end <= s.len(),
{
    lemma_attr_end_scanned(s, i);
    let a = attr_end(s, i);
    if a < s.len() {
        if a > i {
            lemma_scanned_name(s, i);
        }
        if s[a] == COLON {
            lemma_parsed_extensible_wf(
                s,
                if a > i {
                    Some(s.subrange(i, a))
                } else {
                    None
                },
                a,
            );
        } else if a > i {
            if s[a] == EQUALS {
                lemma_parsed_pattern_wf(s, s.subrange(i, a), a + 1);
            } else if a + 1 < s.len() {
                lemma_value_end_bounds(s, a + 2);
            }
        }
    }
}

/// The filter that the grammar reads is well-formed.
pub proof fn lemma_parsed_wf(s: Seq<u8>, i: int)
    requires
        0 <= i <= s.len(),
    ensures
        parse_filter_at(s, i) matches Some((f, end)) ==> wf(f) && i < end <= s.len(),
    decreases s.len() - i, 0int,
{
    if i + 1 < s.len() && s[i] == LPAREN {
        if s[i + 1] == AMPERSAND || s[i + 1] == PIPE {
            lemma_parsed_list_wf(s, i + 2);
            match parse_list(s, i + 2) {
                None => {},
                Some((fs, e)) => {
                    lemma_set_wf(fs);
                },
            }
        } else if s[i + 1] == BANG {
            lemma_parsed_wf(s, i + 2);
        } else {
            lemma_parsed_item_wf(s, i + 1);
        }
    }
}

/// The filters that the grammar reads in a row are well-formed.
pub proof fn lemma_parsed_list_wf(s: Seq<u8>, i: int)
    requires
        0 <= i <= s.len(),
    ensures
        parse_list(s, i) matches Some((fs, end)) ==> fs.len() > 0 && wf_all(fs) && i < end
            <= s.len(),
    decreases s.len() - i, 1int,
{
    lemma_parsed_wf(s, i);
    match parse_filter_at(s, i) {
        None => {},
        Some((f, e)) => {
            if i < e < s.len() && s[e] == LPAREN {
                lemma_parsed_list_wf(s, e);
                match parse_list(s, e) {
                    None => {},
                    Some((rest, end)) => {
                        let fs = seq![f] + rest;
                        assert(fs.skip(1) =~= rest);
                        assert(fs[0] == f);
                        assert(wf_all(fs));
                    },
                }
            } else {
                let fs = seq![f];
                assert(fs.skip(1) =~= Seq::<FilterView>::empty());
                assert(wf_all(fs.skip(1)));
                assert(fs[0] == f);
                assert(wf_all(fs));
            }
        },
    }
}

/// Two rows of filters that hold the same filters, in whatever order and
/// however often, are read as the same set: after `&` and after `|` only
/// the members count.
pub proof fn lemma_parsed_sets_ignore_order(s: Seq<u8>, i: int, t: Seq<u8>, j: int)
    requires
        0 <= i <= s.len(),
        0 <= j <= t.len(),
        parse_list(s, i) is Some,
        parse_list(t, j) is Some,
        forall|x: FilterView|
            parse_list(s, i)->Some_0.0.contains(x) <==> parse_list(t, j)->Some_0.0.contains(x),
    ensures
        set_of(parse_list(s, i)->Some_0.0) == set_of(parse_list(t, j)->Some_0.0),
{
    lemma_parsed_list_wf(s, i);
    lemma_parsed_list_wf(t, j);
    lemma_set_ignores_order(parse_list(s, i)->Some_0.0, parse_list(t, j)->Some_0.0);
}

/// Every filter that parsing gives is well-formed.
pub proof fn lemma_parsed_is_well_formed(s: Seq<u8>)
    ensures
        parse(s) matches Some(f) ==> wf(f),
{
    lemma_parsed_wf(s, 0);
}

/// Parsing a text, writing the filter down and parsing that again gives
/// the same filter.
pub proof fn lemma_parse_render_parse(s: Seq<u8>)
    ensures
        parse(s) matches Some(f) ==> parse(render(f)) == parse(s),
{
    lemma_parsed_is_well_formed(s);
    match parse(s) {
        Some(f) => {
            lemma_render_round_trip(f);
        },
        None => {},
    }
}

/// The lower-case hexadecimal digit for `n`.
fn hex_digit_of(n: u8) -> (d: u8)
    requires
        n < 16,
    ensures
        d == hex_digit(n as int),
{
    if n < 10 {
        0x30 + n
    } else {
        0x61 + n - 10
    }
}

/// Appends the text for a value.
pub fn push_escaped(v: &Vec<u8>, out: &mut Vec<u8>)
    ensures
        final(out)@ == old(out)@ + escaped(v@),
{
    let mut i: usize = 0;
    assert(v@.skip(0) =~= v@);
    assert(old(out)@ + escaped(v@) =~= out@ + escaped(v@.skip(0)));
    while i < v.len()
        invariant
            i <= v.len(),
            old(out)@ + escaped(v@) == out@ + escaped(v@.skip(i as int)),
        decreases v.len() - i,
    {
        let c = v[i];
        let ghost before = out@;
        let ghost rest = escaped(v@.skip(i + 1));
        assert(v@.skip(i as int).skip(1) =~= v@.skip(i + 1));
        assert(v@.skip(i as int)[0] == c);
        if 0x20 <= c && c <= 0x7e && c != LPAREN && c != RPAREN && c != STAR && c != BACKSLASH {
            out.push(c);
            assert(out@ + rest =~= before + (escaped_byte(c) + rest));
        } else {
            out.push(BACKSLASH);
            out.push(hex_digit_of(c / 16));
            out.push(hex_digit_of(c % 16));
            assert(out@ + rest =~= before + (escaped_byte(c) + rest));
        }
        i += 1;
    }
    assert(escaped(v@.skip(i as int)) =~= Seq::<u8>::empty());
    assert(out@ + Seq::<u8>::empty() =~= out@);
}

/// Appends the bytes of `a` as they are.
fn push_bytes(a: &Vec<u8>, out: &mut Vec<u8>)
    ensures
        final(out)@ == old(out)@ + a@,
{
    out.extend_from_slice(a.as_slice());
}

/// Appends the text of the pieces of `ps` from the `k`-th on, which follow
/// a `*`.
fn push_tail(ps: &Vec<SubstringChoice>, k: usize, out: &mut Vec<u8>)
    requires
        k <= ps.len(),
    ensures
        final(out)@ == old(out)@ + render_tail(choices_view(ps@).skip(k as int)),
{
    let ghost all = choices_view(ps@);
    let mut i: usize = k;
    while i < ps.len()
        invariant
            k <= i <= ps.len(),
            all == choices_view(ps@),
            old(out)@ + render_tail(all.skip(k as int)) == out@ + render_tail(all.skip(i as int)),
        decreases ps.len() - i,
    {
        let ghost before = out@;
        let ghost rest = render_tail(all.skip(i + 1));
        assert(all.skip(i as int).skip(1) =~= all.skip(i + 1));
        assert(all.skip(i as int)[0] == ps@[i as int]@);
        match &ps[i] {
            SubstringChoice::Any(x) => {
                push_escaped(x, out);
                out.push(STAR);
                assert(out@ + rest =~= before + (escaped(x@) + (seq![STAR] + rest)));
            },
            SubstringChoice::Final(y) => {
                push_escaped(y, out);
                return ;
            },
            SubstringChoice::Initial(_) => {
                assert(before + Seq::<u8>::empty() =~= before);
                return ;
            },
        }
        i += 1;
    }
    assert(render_tail(all.skip(i as int)) =~= Seq::<u8>::empty());
    assert(out@ + Seq::<u8>::empty() =~= out@);
}

/// Appends the text of a substring pattern.
fn push_pieces(ps: &Vec<SubstringChoice>, out: &mut Vec<u8>)
    ensures
        final(out)@ == old(out)@ + render_pieces(choices_view(ps@)),
{
    let ghost all = choices_view(ps@);
    if ps.len() > 0 {
        match &ps[0] {
            SubstringChoice::Initial(x) => {
                push_escaped(x, out);
                out.push(STAR);
                push_tail(ps, 1, out);
                assert(out@ =~= old(out)@ + (escaped(x@) + (seq![STAR] + render_tail(all.skip(1)))));
                return ;
            },
            _ => {},
        }
    }
    out.push(STAR);
    push_tail(ps, 0, out);
    assert(all.skip(0) =~= all);
    assert(out@ =~= old(out)@ + (seq![STAR] + render_tail(all)));
}

/// Appends the text of `attr op value`.
fn push_assertion(op: &[u8], a: &AttributeValueAssertion, out: &mut Vec<u8>)
    ensures
        final(out)@ == old(out)@ + render_assertion(op@, a@),
{
    out.push(LPAREN);
    push_bytes(&a.attribute_desc, out);
    out.extend_from_slice(op);
    push_escaped(&a.assertion_value, out);
    out.push(RPAREN);
    assert(out@ =~= old(out)@ + render_assertion(op@, a@));
}

/// Appends the text of an extensible match from its first colon on.
fn push_match(m: &MatchingRuleAssertion, out: &mut Vec<u8>)
    ensures
        final(out)@ == old(out)@ + render_match(m@),
{
    let ghost dn_part = if m.dn_attributes {
        seq![COLON] + dn_name()
    } else {
        Seq::<u8>::empty()
    };
    let ghost rule_part = match m@.matching_rule {
        Some(r) => seq![COLON] + r,
        None => Seq::<u8>::empty(),
    };
    let ghost value_part = seq![COLON, EQUALS] + (escaped(m@.match_value) + seq![RPAREN]);
    if m.dn_attributes {
        out.push(COLON);
        out.push(0x64);
        out.push(0x6e);
    }
    assert(out@ =~= old(out)@ + dn_part);
    let ghost o1 = out@;
    match &m.matching_rule {
        Some(r) => {
            out.push(COLON);
            push_bytes(r, out);
        },
        None => {},
    }
    assert(out@ =~= o1 + rule_part);
    let ghost o2 = out@;
    out.push(COLON);
    out.push(EQUALS);
    push_escaped(&m.match_value, out);
    out.push(RPAREN);
    assert(out@ =~= o2 + value_part);
    assert(out@ =~= old(out)@ + (dn_part + (rule_part + value_part)));
}

/// Appends the text of an extensible match.
fn push_extensible(m: &MatchingRuleAssertion, out: &mut Vec<u8>)
    ensures
        final(out)@ == old(out)@ + render_extensible(m@),
{
    let ghost name = match m@.attribute_desc {
        Some(a) => a,
        None => Seq::<u8>::empty(),
    };
    out.push(LPAREN);
    match &m.attribute_desc {
        Some(a) => {
            push_bytes(a, out);
        },
        None => {},
    }
    assert(out@ =~= old(out)@ + (seq![LPAREN] + name));
    push_match(m, out);
    assert(out@ =~= old(out)@ + (seq![LPAREN] + (name + render_match(m@))));
}

/// Whether `a` is an attribute description or a rule identifier.
pub fn is_name(a: &Vec<u8>) -> (r: bool)
    ensures
        r == wf_attr(a@),
{
    if a.len() == 0 {
        return false;
    }
    let mut k: usize = 0;
    while k < a.len()
        invariant
            k <= a.len(),
            forall|j: int| 0 <= j < k ==> is_attr_char(#[trigger] a@[j]),
        decreases a.len() - k,
    {
        if !crate::filter::parser::attr_char(a[k]) {
            return false;
        }
        k += 1;
    }
    true
}

/// Whether the pieces of `ps` from the `k`-th on may follow a `*`.
fn is_tail(ps: &Vec<SubstringChoice>, k: usize) -> (r: bool)
    requires
        k <= ps.len(),
    ensures
        r == wf_tail(choices_view(ps@).skip(k as int)),
{
    let ghost all = choices_view(ps@);
    let mut i: usize = k;
    while i < ps.len()
        invariant
            k <= i <= ps.len(),
            all == choices_view(ps@),
            wf_tail(all.skip(k as int)) == wf_tail(all.skip(i as int)),
        decreases ps.len() - i,
    {
        assert(all.skip(i as int).skip(1) =~= all.skip(i + 1));
        assert(all.skip(i as int)[0] == ps@[i as int]@);
        match &ps[i] {
            SubstringChoice::Any(x) => {
                if x.len() == 0 {
                    return false;
                }
            },
            SubstringChoice::Final(y) => {
                return y.len() > 0 && ps.len() - i == 1;
            },
            SubstringChoice::Initial(_) => {
                return false;
            },
        }
        i += 1;
    }
    true
}

/// Whether the pieces of a substring pattern are in order.
fn is_pattern(ps: &Vec<SubstringChoice>) -> (r: bool)
    ensures
        r == wf_pieces(choices_view(ps@)),
{
    if ps.len() == 0 {
        return false;
    }
    let ghost all = choices_view(ps@);
    assert(all[0] == ps@[0]@);
    assert(all.skip(0) =~= all);
    match &ps[0] {
        SubstringChoice::Initial(x) => x.len() > 0 && is_tail(ps, 1),
        _ => is_tail(ps, 0),
    }
}

/// Whether an extensible match can be written down.
fn is_extensible(m: &MatchingRuleAssertion) -> (r: bool)
    ensures
        r == wf_extensible(m@),
{
    match &m.attribute_desc {
        Some(a) => {
            if !is_name(a) {
                return false;
            }
        },
        None => {},
    }
    match &m.matching_rule {
        Some(rule) => {
            if !is_name(rule) {
                return false;
            }
            let named_dn = rule.len() == 2 && rule[0] == 0x64 && rule[1] == 0x6e;
            proof {
                if named_dn {
                    assert(rule@ =~= dn_name());
                }
            }
            !(m.attribute_desc.is_some() && !m.dn_attributes && named_dn)
        },
        None => m.attribute_desc.is_some(),
    }
}

impl Filter {
    /// Whether the filter is one that the parser gives: whether writing it
    /// down and parsing the text gives it back.
    pub fn is_well_formed(&self) -> (r: bool)
        ensures
            r == wf(self@),
        decreases self, 0int,
    {
        match self {
            Filter::And(fs) => {
                assert(self@ == FilterView::And(filters_view(fs@)));
                Filter::is_set(fs)
            },
            Filter::Or(fs) => {
                assert(self@ == FilterView::Or(filters_view(fs@)));
                Filter::is_set(fs)
            },
            Filter::Not(g) => {
                assert(self@ == FilterView::Not(Box::new(g@)));
                g.is_well_formed()
            },
            Filter::EqualityMatch(a) => is_name(&a.attribute_desc),
            Filter::Substrings(sub) => is_name(&sub.attribute_desc) && is_pattern(&sub.substrings),
            Filter::GreaterOrEqual(a) => is_name(&a.attribute_desc),
            Filter::LessOrEqual(a) => is_name(&a.attribute_desc),
            Filter::Present(a) => is_name(a),
            Filter::ApproxMatch(a) => is_name(&a.attribute_desc),
            Filter::ExtensibleMatch(m) => is_extensible(m),
        }
    }

    /// Whether a list of filters is a well-formed set: not empty, every
    /// member well-formed, and the members in the order of sets, none twice.
    #[verifier::loop_isolation(false)]
    pub fn is_set(fs: &Vec<Filter>) -> (r: bool)
        ensures
            r == (fs.len() > 0 && sorted(filters_view(fs@)) && wf_all(filters_view(fs@))),
        decreases fs, 1int,
    {
        let ghost all = filters_view(fs@);
        if fs.len() == 0 {
            return false;
        }
        let mut last: Vec<u8> = Vec::new();
        let mut i: usize = 0;
        while i < fs.len()
            invariant
                i <= fs.len(),
                forall|a: int, b: int| 0 <= a < b < i ==> filter_key(all[a]) < filter_key(all[b]),
                forall|a: int| 0 <= a < i ==> wf(#[trigger] all[a]),
                i > 0 ==> last@ == render(all[i - 1]),
            decreases fs.len() - i,
        {
            if !fs[i].is_well_formed() {
                proof {
                    if wf_all(all) {
                        lemma_wf_all_index(all, i as int);
                    }
                }
                return false;
            }
            let text = fs[i].render();
            if i > 0 {
                match crate::filter::order::rank(last.as_slice(), text.as_slice()) {
                    crate::filter::order::Rank::Before => {},
                    _ => {
                        assert(!(filter_key(all[i - 1]) < filter_key(all[i as int])));
                        return false;
                    },
                }
            }
            last = text;
            i += 1;
        }
        proof {
            lemma_wf_all_from_index(all);
        }
        true
    }

    /// The text of the filter: what [`render`] gives for its tree. Parsing
    /// the text of a filter that came from the parser gives the same
    /// filter again.
    pub fn render(&self) -> (text: Vec<u8>)
        ensures
            text@ == render(self@),
            wf(self@) ==> parse(text@) == Some(self@),
    {
        let mut out: Vec<u8> = Vec::new();
        self.render_into(&mut out);
        assert(Seq::<u8>::empty() + render(self@) =~= render(self@));
        proof {
            if wf(self@) {
                lemma_render_round_trip(self@);
            }
        }
        out
    }

    /// Appends the text of the filter.
    pub fn render_into(&self, out: &mut Vec<u8>)
        ensures
            final(out)@ == old(out)@ + render(self@),
        decreases self, 0int,
    {
        match self {
            Filter::And(fs) => {
                out.push(LPAREN);
                out.push(AMPERSAND);
                Filter::render_all_into(fs, out);
                out.push(RPAREN);
                assert(out@ =~= old(out)@ + render(self@));
            },
            Filter::Or(fs) => {
                out.push(LPAREN);
                out.push(PIPE);
                Filter::render_all_into(fs, out);
                out.push(RPAREN);
                assert(out@ =~= old(out)@ + render(self@));
            },
            Filter::Not(g) => {
                out.push(LPAREN);
                out.push(BANG);
                g.render_into(out);
                out.push(RPAREN);
                assert(out@ =~= old(out)@ + render(self@));
            },
            Filter::EqualityMatch(a) => {
                let op: [u8; 1] = [EQUALS];
                assert(op@ =~= seq![EQUALS]);
                push_assertion(op.as_slice(), a, out);
            },
            Filter::Substrings(sub) => {
                out.push(LPAREN);
                push_bytes(&sub.attribute_desc, out);
                out.push(EQUALS);
                push_pieces(&sub.substrings, out);
                out.push(RPAREN);
                assert(out@ =~= old(out)@ + render(self@));
            },
            Filter::GreaterOrEqual(a) => {
                let op: [u8; 2] = [GREATER, EQUALS];
                assert(op@ =~= seq![GREATER, EQUALS]);
                push_assertion(op.as_slice(), a, out);
            },
            Filter::LessOrEqual(a) => {
                let op: [u8; 2] = [LESS, EQUALS];
                assert(op@ =~= seq![LESS, EQUALS]);
                push_assertion(op.as_slice(), a, out);
            },
            Filter::Present(a) => {
                out.push(LPAREN);
                push_bytes(a, out);
                out.push(EQUALS);
                out.push(STAR);
                out.push(RPAREN);
                assert(out@ =~= old(out)@ + render(self@));
            },
            Filter::ApproxMatch(a) => {
                let op: [u8; 2] = [TILDE, EQUALS];
                assert(op@ =~= seq![TILDE, EQUALS]);
                push_assertion(op.as_slice(), a, out);
            },
            Filter::ExtensibleMatch(m) => {
                push_extensible(m, out);
            },
        }
    }

    /// Appends the texts of the filters of a list, in a row.
    #[verifier::loop_isolation(false)]
    pub fn render_all_into(fs: &Vec<Filter>, out: &mut Vec<u8>)
        ensures
            final(out)@ == old(out)@ + render_all(filters_view(fs@)),
        decreases fs, 1int,
    {
        let ghost all = filters_view(fs@);
        let mut i: usize = 0;
        assert(all.skip(0) =~= all);
        while i < fs.len()
            invariant
                i <= fs.len(),
                old(out)@ + render_all(all) == out@ + render_all(all.skip(i as int)),
            decreases fs.len() - i,
        {
            let ghost before = out@;
            let ghost rest = render_all(all.skip(i + 1));
            assert(all.skip(i as int).skip(1) =~= all.skip(i + 1));
            assert(all.skip(i as int)[0] == fs@[i as int]@);
            fs[i].render_into(out);
            assert(out@ + rest =~= before + (render(fs@[i as int]@) + rest));
            i += 1;
        }
        assert(render_all(all.skip(i as int)) =~= Seq::<u8>::empty());
        assert(out@ + Seq::<u8>::empty() =~= out@);
    }
}

} // verus!
