//! The filter language, as functions on the bytes of the filter text.
//!
//! ```text
//! filter     = "(" ( "&" filter+ | "|" filter+ | "!" filter | item ) ")"
//! item       = attr "=" "*"
//!            | attr ( "=" | "~=" | ">=" | "<=" ) value
//!            | attr "=" [value] "*" { value "*" } [value]
//!            | [attr] [":dn"] [":" rule] ":=" value
//! attr, rule = one or more of "A"-"Z" "a"-"z" "0"-"9" "-" "." ";"
//! value      = any bytes but NUL "(" ")" "*" "\", and escapes "\HH"
//! ```
//!
//! The filters after `&` and after `|` are a set: the order in which they
//! are written does not count, nor how often one is written.
//! A value between two `*` is not empty. An extensible item names an
//! attribute or a rule. After an attribute, `:dn:` is the flag, not a rule.
//! Every function here reads from a position and gives the tree it found and
//! the position after it, or `None` where the text does not fit.

use vstd::prelude::*;
use crate::filter::escape::{escape_at, unescaped, BACKSLASH};
use crate::filter::order::set_of;
use crate::filter::tree::{
    AttributeValueAssertionView, FilterView, MatchingRuleAssertionView, SubstringChoiceView,
    SubstringFilterView,
};

verus! {

pub const LPAREN: u8 = 0x28;

pub const RPAREN: u8 = 0x29;

pub const STAR: u8 = 0x2a;

pub const AMPERSAND: u8 = 0x26;

pub const PIPE: u8 = 0x7c;

pub const BANG: u8 = 0x21;

pub const EQUALS: u8 = 0x3d;

pub const TILDE: u8 = 0x7e;

pub const GREATER: u8 = 0x3e;

pub const LESS: u8 = 0x3c;

pub const COLON: u8 = 0x3a;

/// Whether `c` may stand in an attribute description or a rule identifier.
pub open spec fn is_attr_char(c: u8) -> bool {
    (0x30 <= c <= 0x39) || (0x41 <= c <= 0x5a) || (0x61 <= c <= 0x7a) || c == 0x2d || c == 0x2e
        || c == 0x3b
}

/// Whether `c` may stand in a value as it is.
pub open spec fn is_plain_char(c: u8) -> bool {
    c != 0 && c != LPAREN && c != RPAREN && c != STAR && c != BACKSLASH
}

/// End of the longest run of attribute characters that starts at `i`.
pub open spec fn attr_end(s: Seq<u8>, i: int) -> int
    decreases s.len() - i,
{
    if 0 <= i < s.len() && is_attr_char(s[i]) {
        attr_end(s, i + 1)
    } else {
        i
    }
}

/// End of the longest run of plain characters and escapes that starts at
/// `i`; `None` where the run meets a backslash that starts no escape.
pub open spec fn value_end(s: Seq<u8>, i: int) -> Option<int>
    decreases s.len() - i,
{
    if 0 <= i < s.len() {
        if s[i] == BACKSLASH {
            if escape_at(s, i) {
                value_end(s, i + 3)
            } else {
                None
            }
        } else if is_plain_char(s[i]) {
            value_end(s, i + 1)
        } else {
            Some(i)
        }
    } else {
        Some(i)
    }
}

/// The bytes that the value text between `i` and `e` stands for.
pub open spec fn value_of(s: Seq<u8>, i: int, e: int) -> Seq<u8> {
    unescaped(s.subrange(i, e))
}

/// The filter for `attr op value` with `op` one of `~`, `>`, `<` (before `=`).
pub open spec fn ordering_filter(op: u8, attr: Seq<u8>, value: Seq<u8>) -> FilterView {
    let a = AttributeValueAssertionView { attribute_desc: attr, assertion_value: value };
    if op == TILDE {
        FilterView::ApproxMatch(a)
    } else if op == GREATER {
        FilterView::GreaterOrEqual(a)
    } else {
        FilterView::LessOrEqual(a)
    }
}

/// What follows a `*` of a substring pattern, read from `p`: the pieces
/// after that `*`, and the position after the pattern.
pub open spec fn parse_pieces(s: Seq<u8>, p: int) -> Option<(Seq<SubstringChoiceView>, int)>
    decreases s.len() - p,
{
    match value_end(s, p) {
        None => None,
        Some(e) => if e < s.len() && s[e] == STAR {
            if e <= p {
                None
            } else {
                match parse_pieces(s, e + 1) {
                    None => None,
                    Some((rest, end)) => Some(
                        (seq![SubstringChoiceView::Any(value_of(s, p, e))] + rest, end),
                    ),
                }
            }
        } else if e <= p {
            Some((Seq::empty(), e))
        } else {
            Some((seq![SubstringChoiceView::Final(value_of(s, p, e))], e))
        },
    }
}

/// What follows `attr=`, read from `i`: an equality, a presence test or a
/// substring pattern.
pub open spec fn parse_pattern(s: Seq<u8>, attr: Seq<u8>, i: int) -> Option<(FilterView, int)> {
    match value_end(s, i) {
        None => None,
        Some(e) => if e < s.len() && s[e] == STAR {
            match parse_pieces(s, e + 1) {
                None => None,
                Some((rest, end)) => {
                    let pieces = if e <= i {
                        rest
                    } else {
                        seq![SubstringChoiceView::Initial(value_of(s, i, e))] + rest
                    };
                    if pieces.len() == 0 {
                        Some((FilterView::Present(attr), end))
                    } else {
                        Some(
                            (
                                FilterView::Substrings(
                                    SubstringFilterView { attribute_desc: attr, substrings: pieces },
                                ),
                                end,
                            ),
                        )
                    }
                },
            }
        } else {
            Some(
                (
                    FilterView::EqualityMatch(
                        AttributeValueAssertionView {
                            attribute_desc: attr,
                            assertion_value: value_of(s, i, e),
                        },
                    ),
                    e,
                ),
            )
        },
    }
}

/// The value of an extensible item, read from `i`, with what stood before it.
pub open spec fn parse_match_value(
    s: Seq<u8>,
    attr: Option<Seq<u8>>,
    dn: bool,
    rule: Option<Seq<u8>>,
    i: int,
) -> Option<(FilterView, int)> {
    match value_end(s, i) {
        None => None,
        Some(e) => Some(
            (
                FilterView::ExtensibleMatch(
                    MatchingRuleAssertionView {
                        matching_rule: rule,
                        attribute_desc: attr,
                        match_value: value_of(s, i, e),
                        dn_attributes: dn,
                    },
                ),
                e,
            ),
        ),
    }
}

/// Whether `:=` stands at position `i`.
pub open spec fn assign_at(s: Seq<u8>, i: int) -> bool {
    0 <= i && i + 1 < s.len() && s[i] == COLON && s[i + 1] == EQUALS
}

/// Whether the bytes between `i` and `e` spell `dn`.
pub open spec fn is_dn(s: Seq<u8>, i: int, e: int) -> bool {
    e == i + 2 && 0 <= i && e <= s.len() && s[i] == 0x64 && s[i + 1] == 0x6e
}

/// An extensible item from its first `:` on, at `a`; `attr` stood before it.
///
/// A name before `:=` is the rule, but `dn` after an attribute, which is the
/// flag. Before `:name:=`, `dn` is the flag.
pub open spec fn parse_extensible(s: Seq<u8>, attr: Option<Seq<u8>>, a: int) -> Option<
    (FilterView, int),
> {
    let t = attr_end(s, a + 1);
    if assign_at(s, a) {
        if attr is Some {
            parse_match_value(s, attr, false, None, a + 2)
        } else {
            None
        }
    } else if t > a + 1 && assign_at(s, t) {
        if is_dn(s, a + 1, t) && attr is Some {
            parse_match_value(s, attr, true, None, t + 2)
        } else {
            parse_match_value(s, attr, false, Some(s.subrange(a + 1, t)), t + 2)
        }
    } else if is_dn(s, a + 1, t) && t < s.len() && s[t] == COLON {
        let r = attr_end(s, t + 1);
        if r > t + 1 && assign_at(s, r) {
            parse_match_value(s, attr, true, Some(s.subrange(t + 1, r)), r + 2)
        } else {
            None
        }
    } else {
        None
    }
}

/// An item, read from `i`.
pub open spec fn parse_item(s: Seq<u8>, i: int) -> Option<(FilterView, int)> {
    let a = attr_end(s, i);
    let attr = s.subrange(i, a);
    if !(0 <= i <= a < s.len()) {
        None
    } else if s[a] == COLON {
        parse_extensible(
            s,
            if a > i {
                Some(attr)
            } else {
                None
            },
            a,
        )
    } else if a == i {
        None
    } else if s[a] == EQUALS {
        parse_pattern(s, attr, a + 1)
    } else if (s[a] == TILDE || s[a] == GREATER || s[a] == LESS) && a + 1 < s.len() && s[a + 1]
        == EQUALS {
        match value_end(s, a + 2) {
            None => None,
            Some(e) => Some((ordering_filter(s[a], attr, value_of(s, a + 2, e)), e)),
        }
    } else {
        None
    }
}

/// A filter in its parentheses, read from `i`.
pub open spec fn parse_filter_at(s: Seq<u8>, i: int) -> Option<(FilterView, int)>
    decreases s.len() - i, 0int,
{
    if 0 <= i && i + 1 < s.len() && s[i] == LPAREN {
        let body = if s[i + 1] == AMPERSAND {
            match parse_list(s, i + 2) {
                None => None,
                Some((fs, e)) => Some((FilterView::And(set_of(fs)), e)),
            }
        } else if s[i + 1] == PIPE {
            match parse_list(s, i + 2) {
                None => None,
                Some((fs, e)) => Some((FilterView::Or(set_of(fs)), e)),
            }
        } else if s[i + 1] == BANG {
            match parse_filter_at(s, i + 2) {
                None => None,
                Some((f, e)) => Some((FilterView::Not(Box::new(f)), e)),
            }
        } else {
            parse_item(s, i + 1)
        };
        match body {
            None => None,
            Some((f, e)) => if 0 <= e < s.len() && s[e] == RPAREN {
                Some((f, e + 1))
            } else {
                None
            },
        }
    } else {
        None
    }
}

/// One or more filters in a row, read from `i`.
pub open spec fn parse_list(s: Seq<u8>, i: int) -> Option<(Seq<FilterView>, int)>
    decreases s.len() - i, 1int,
{
    match parse_filter_at(s, i) {
        None => None,
        Some((f, e)) => if i < e < s.len() && s[e] == LPAREN {
            match parse_list(s, e) {
                None => None,
                Some((rest, end)) => Some((seq![f] + rest, end)),
            }
        } else {
            Some((seq![f], e))
        },
    }
}

/// The filter that the whole text `s` spells, if it spells one.
pub open spec fn parse(s: Seq<u8>) -> Option<FilterView> {
    match parse_filter_at(s, 0) {
        None => None,
        Some((f, e)) => if e == s.len() {
            Some(f)
        } else {
            None
        },
    }
}

} // verus!
