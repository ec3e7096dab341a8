//! The filter tree, its mathematical value, copying and comparison.

use vstd::prelude::*;

verus! {

/// `attribute op value`
#[derive(Debug, PartialEq, Eq)]
pub struct AttributeValueAssertion {
    pub attribute_desc: Vec<u8>,
    pub assertion_value: Vec<u8>,
}

/// One piece of a substring pattern.
#[derive(Debug, PartialEq, Eq)]
pub enum SubstringChoice {
    Initial(Vec<u8>),
    Any(Vec<u8>),
    Final(Vec<u8>),
}

/// An attribute with the ordered pieces of a substring pattern.
#[derive(Debug, PartialEq, Eq)]
pub struct SubstringFilter {
    pub attribute_desc: Vec<u8>,
    pub substrings: Vec<SubstringChoice>,
}

/// An extensible match.
#[derive(Debug, PartialEq, Eq)]
pub struct MatchingRuleAssertion {
    pub matching_rule: Option<Vec<u8>>,
    pub attribute_desc: Option<Vec<u8>>,
    pub match_value: Vec<u8>,
    pub dn_attributes: bool,
}

/// A search filter.
///
/// `And` and `Or` hold sets: each member stands once, and the members stand
/// in the order of their texts, the shorter text first. Two sets with the
/// same members are so the same value, for `same` and for `==`.
#[derive(Debug, PartialEq, Eq)]
pub enum Filter {
    And(Vec<Filter>),
    Or(Vec<Filter>),
    Not(Box<Filter>),
    EqualityMatch(AttributeValueAssertion),
    Substrings(SubstringFilter),
    GreaterOrEqual(AttributeValueAssertion),
    LessOrEqual(AttributeValueAssertion),
    Present(Vec<u8>),
    ApproxMatch(AttributeValueAssertion),
    ExtensibleMatch(MatchingRuleAssertion),
}

pub struct AttributeValueAssertionView {
    pub attribute_desc: Seq<u8>,
    pub assertion_value: Seq<u8>,
}

pub enum SubstringChoiceView {
    Initial(Seq<u8>),
    Any(Seq<u8>),
    Final(Seq<u8>),
}

pub struct SubstringFilterView {
    pub attribute_desc: Seq<u8>,
    pub substrings: Seq<SubstringChoiceView>,
}

pub struct MatchingRuleAssertionView {
    pub matching_rule: Option<Seq<u8>>,
    pub attribute_desc: Option<Seq<u8>>,
    pub match_value: Seq<u8>,
    pub dn_attributes: bool,
}

/// Mathematical value of a [`Filter`].
pub enum FilterView {
    And(Seq<FilterView>),
    Or(Seq<FilterView>),
    Not(Box<FilterView>),
    EqualityMatch(AttributeValueAssertionView),
    Substrings(SubstringFilterView),
    GreaterOrEqual(AttributeValueAssertionView),
    LessOrEqual(AttributeValueAssertionView),
    Present(Seq<u8>),
    ApproxMatch(AttributeValueAssertionView),
    ExtensibleMatch(MatchingRuleAssertionView),
}

/// Mathematical value of an optional octet string.
pub open spec fn opt_bytes_view(o: Option<Vec<u8>>) -> Option<Seq<u8>> {
    match o {
        Some(v) => Some(v@),
        None => None,
    }
}

impl View for AttributeValueAssertion {
    type V = AttributeValueAssertionView;

    open spec fn view(&self) -> AttributeValueAssertionView {
        AttributeValueAssertionView {
            attribute_desc: self.attribute_desc@,
            assertion_value: self.assertion_value@,
        }
    }
}

impl View for SubstringChoice {
    type V = SubstringChoiceView;

    open spec fn view(&self) -> SubstringChoiceView {
        match self {
            SubstringChoice::Initial(v) => SubstringChoiceView::Initial(v@),
            SubstringChoice::Any(v) => SubstringChoiceView::Any(v@),
            SubstringChoice::Final(v) => SubstringChoiceView::Final(v@),
        }
    }
}

/// Mathematical values of the pieces of a substring pattern, in order.
pub open spec fn choices_view(cs: Seq<SubstringChoice>) -> Seq<SubstringChoiceView> {
    Seq::new(cs.len(), |i: int| cs[i]@)
}

impl View for SubstringFilter {
    type V = SubstringFilterView;

    open spec fn view(&self) -> SubstringFilterView {
        SubstringFilterView {
            attribute_desc: self.attribute_desc@,
            substrings: choices_view(self.substrings@),
        }
    }
}

impl View for MatchingRuleAssertion {
    type V = MatchingRuleAssertionView;

    open spec fn view(&self) -> MatchingRuleAssertionView {
        MatchingRuleAssertionView {
            matching_rule: opt_bytes_view(self.matching_rule),
            attribute_desc: opt_bytes_view(self.attribute_desc),
            match_value: self.match_value@,
            dn_attributes: self.dn_attributes,
        }
    }
}

/// Mathematical value of a filter, by recursion over the tree.
pub open spec fn filter_view(f: Filter) -> FilterView
    decreases f,
{
    match f {
        Filter::And(fs) => FilterView::And(filters_view(fs@)),
        Filter::Or(fs) => FilterView::Or(filters_view(fs@)),
        Filter::Not(g) => FilterView::Not(Box::new(filter_view(*g))),
        Filter::EqualityMatch(a) => FilterView::EqualityMatch(a@),
        Filter::Substrings(s) => FilterView::Substrings(s@),
        Filter::GreaterOrEqual(a) => FilterView::GreaterOrEqual(a@),
        Filter::LessOrEqual(a) => FilterView::LessOrEqual(a@),
        Filter::Present(a) => FilterView::Present(a@),
        Filter::ApproxMatch(a) => FilterView::ApproxMatch(a@),
        Filter::ExtensibleMatch(m) => FilterView::ExtensibleMatch(m@),
    }
}

/// Mathematical values of a list of filters, in order.
pub open spec fn filters_view(fs: Seq<Filter>) -> Seq<FilterView>
    decreases fs,
{
    Seq::new(
        fs.len(),
        |i: int|
            if 0 <= i < fs.len() {
                filter_view(fs[i])
            } else {
                FilterView::Present(Seq::empty())
            },
    )
}

impl View for Filter {
    type V = FilterView;

    open spec fn view(&self) -> FilterView {
        filter_view(*self)
    }
}

/// Whether two octet strings hold the same bytes.
pub fn bytes_eq(a: &Vec<u8>, b: &Vec<u8>) -> (r: bool)
    ensures
        r == (a@ == b@),
{
    let r = a == b;
    proof {
        if r {
            assert(a@ =~= b@);
        }
    }
    r
}

/// Whether two optional octet strings hold the same.
pub fn opt_bytes_eq(a: &Option<Vec<u8>>, b: &Option<Vec<u8>>) -> (r: bool)
    ensures
        r == (opt_bytes_view(*a) == opt_bytes_view(*b)),
{
    match (a, b) {
        (Some(x), Some(y)) => bytes_eq(x, y),
        (None, None) => true,
        _ => false,
    }
}

/// A copy of an optional octet string.
pub fn opt_bytes_clone(a: &Option<Vec<u8>>) -> (r: Option<Vec<u8>>)
    ensures
        opt_bytes_view(r) == opt_bytes_view(*a),
{
    match a {
        Some(x) => Some(x.clone()),
        None => None,
    }
}

impl Clone for AttributeValueAssertion {
    fn clone(&self) -> (r: Self)
        ensures
            r@ == self@,
    {
        AttributeValueAssertion {
            attribute_desc: self.attribute_desc.clone(),
            assertion_value: self.assertion_value.clone(),
        }
    }
}

impl AttributeValueAssertion {
    pub fn new(attribute_desc: Vec<u8>, assertion_value: Vec<u8>) -> (r: Self)
        ensures
            r == (AttributeValueAssertion { attribute_desc, assertion_value }),
    {
        AttributeValueAssertion { attribute_desc, assertion_value }
    }

    /// Whether both hold the same attribute and value.
    pub fn same(&self, other: &Self) -> (r: bool)
        ensures
            r == (self@ == other@),
    {
        bytes_eq(&self.attribute_desc, &other.attribute_desc) && bytes_eq(
            &self.assertion_value,
            &other.assertion_value,
        )
    }
}

impl Clone for SubstringChoice {
    fn clone(&self) -> (r: Self)
        ensures
            r@ == self@,
    {
        match self {
            SubstringChoice::Initial(v) => SubstringChoice::Initial(v.clone()),
            SubstringChoice::Any(v) => SubstringChoice::Any(v.clone()),
            SubstringChoice::Final(v) => SubstringChoice::Final(v.clone()),
        }
    }
}

impl SubstringChoice {
    /// Whether both are the same kind of piece with the same bytes.
    pub fn same(&self, other: &Self) -> (r: bool)
        ensures
            r == (self@ == other@),
    {
        match (self, other) {
            (SubstringChoice::Initial(a), SubstringChoice::Initial(b)) => bytes_eq(a, b),
            (SubstringChoice::Any(a), SubstringChoice::Any(b)) => bytes_eq(a, b),
            (SubstringChoice::Final(a), SubstringChoice::Final(b)) => bytes_eq(a, b),
            _ => false,
        }
    }
}

impl Clone for SubstringFilter {
    fn clone(&self) -> (r: Self)
        ensures
            r@ == self@,
    {
        let mut out: Vec<SubstringChoice> = Vec::new();
        let mut i: usize = 0;
        while i < self.substrings.len()
            invariant
                i <= self.substrings.len(),
                out.len() == i,
                forall|k: int| 0 <= k < i ==> out@[k]@ == self.substrings@[k]@,
            decreases self.substrings.len() - i,
        {
            out.push(self.substrings[i].clone());
            i += 1;
        }
        let r = SubstringFilter { attribute_desc: self.attribute_desc.clone(), substrings: out };
        assert(r@.substrings =~= self@.substrings);
        r
    }
}

impl SubstringFilter {
    pub fn new(attribute_desc: Vec<u8>, substrings: Vec<SubstringChoice>) -> (r: Self)
        ensures
            r == (SubstringFilter { attribute_desc, substrings }),
    {
        SubstringFilter { attribute_desc, substrings }
    }

    /// Whether both hold the same attribute and the same pieces in the same order.
    pub fn same(&self, other: &Self) -> (r: bool)
        ensures
            r == (self@ == other@),
    {
        if !bytes_eq(&self.attribute_desc, &other.attribute_desc) {
            return false;
        }
        if self.substrings.len() != other.substrings.len() {
            assert(self@.substrings.len() != other@.substrings.len());
            return false;
        }
        let mut i: usize = 0;
        while i < self.substrings.len()
            invariant
                i <= self.substrings.len(),
                self.substrings.len() == other.substrings.len(),
                forall|k: int| 0 <= k < i ==> self.substrings@[k]@ == other.substrings@[k]@,
            decreases self.substrings.len() - i,
        {
            if !self.substrings[i].same(&other.substrings[i]) {
                assert(self@.substrings[i as int] != other@.substrings[i as int]);
                return false;
            }
            i += 1;
        }
        assert(self@.substrings =~= other@.substrings);
        true
    }
}

impl Clone for MatchingRuleAssertion {
    fn clone(&self) -> (r: Self)
        ensures
            r@ == self@,
    {
        MatchingRuleAssertion {
            matching_rule: opt_bytes_clone(&self.matching_rule),
            attribute_desc: opt_bytes_clone(&self.attribute_desc),
            match_value: self.match_value.clone(),
            dn_attributes: self.dn_attributes,
        }
    }
}

impl MatchingRuleAssertion {
    pub fn new(
        matching_rule: Option<Vec<u8>>,
        attribute_desc: Option<Vec<u8>>,
        match_value: Vec<u8>,
        dn_attributes: bool,
    ) -> (r: Self)
        ensures
            r == (MatchingRuleAssertion { matching_rule, attribute_desc, match_value, dn_attributes }),
    {
        MatchingRuleAssertion { matching_rule, attribute_desc, match_value, dn_attributes }
    }

    /// Whether both hold the same rule, attribute, value and flag.
    pub fn same(&self, other: &Self) -> (r: bool)
        ensures
            r == (self@ == other@),
    {
        opt_bytes_eq(&self.matching_rule, &other.matching_rule) && opt_bytes_eq(
            &self.attribute_desc,
            &other.attribute_desc,
        ) && bytes_eq(&self.match_value, &other.match_value) && self.dn_attributes
            == other.dn_attributes
    }
}

impl Clone for Filter {
    #[verifier::loop_isolation(false)]
    fn clone(&self) -> (r: Self)
        ensures
            r@ == self@,
        decreases self,
    {
        match self {
            Filter::And(fs) => {
                let out = Filter::clone_all(fs);
                Filter::And(out)
            },
            Filter::Or(fs) => {
                let out = Filter::clone_all(fs);
                Filter::Or(out)
            },
            Filter::Not(g) => Filter::Not(Box::new((**g).clone())),
            Filter::EqualityMatch(a) => Filter::EqualityMatch(a.clone()),
            Filter::Substrings(s) => Filter::Substrings(s.clone()),
            Filter::GreaterOrEqual(a) => Filter::GreaterOrEqual(a.clone()),
            Filter::LessOrEqual(a) => Filter::LessOrEqual(a.clone()),
            Filter::Present(a) => Filter::Present(a.clone()),
            Filter::ApproxMatch(a) => Filter::ApproxMatch(a.clone()),
            Filter::ExtensibleMatch(m) => Filter::ExtensibleMatch(m.clone()),
        }
    }
}

impl Filter {
    /// Copies of the filters of a list, in order.
    #[verifier::loop_isolation(false)]
    pub fn clone_all(fs: &Vec<Filter>) -> (out: Vec<Filter>)
        ensures
            filters_view(out@) == filters_view(fs@),
        decreases fs,
    {
        let mut out: Vec<Filter> = Vec::new();
        let mut i: usize = 0;
        while i < fs.len()
            invariant
                i <= fs.len(),
                out.len() == i,
                forall|k: int| 0 <= k < i ==> out@[k]@ == fs@[k]@,
            decreases fs.len() - i,
        {
            let c = fs[i].clone();
            out.push(c);
            i += 1;
        }
        assert(filters_view(out@) =~= filters_view(fs@));
        out
    }

    /// Whether two lists hold equal filters in the same order.
    #[verifier::loop_isolation(false)]
    pub fn same_all(a: &Vec<Filter>, b: &Vec<Filter>) -> (r: bool)
        ensures
            r == (filters_view(a@) == filters_view(b@)),
        decreases a,
    {
        if a.len() != b.len() {
            assert(filters_view(a@).len() != filters_view(b@).len());
            return false;
        }
        let mut i: usize = 0;
        while i < a.len()
            invariant
                i <= a.len(),
                a.len() == b.len(),
                forall|k: int| 0 <= k < i ==> a@[k]@ == b@[k]@,
            decreases a.len() - i,
        {
            if !a[i].same(&b[i]) {
                assert(filters_view(a@)[i as int] != filters_view(b@)[i as int]);
                return false;
            }
            i += 1;
        }
        assert(filters_view(a@) =~= filters_view(b@));
        true
    }

    /// Whether two filters are the same tree.
    pub fn same(&self, other: &Filter) -> (r: bool)
        ensures
            r == (self@ == other@),
        decreases self,
    {
        match (self, other) {
            (Filter::And(a), Filter::And(b)) => Filter::same_all(a, b),
            (Filter::Or(a), Filter::Or(b)) => Filter::same_all(a, b),
            (Filter::Not(a), Filter::Not(b)) => a.same(b),
            (Filter::EqualityMatch(a), Filter::EqualityMatch(b)) => a.same(b),
            (Filter::Substrings(a), Filter::Substrings(b)) => a.same(b),
            (Filter::GreaterOrEqual(a), Filter::GreaterOrEqual(b)) => a.same(b),
            (Filter::LessOrEqual(a), Filter::LessOrEqual(b)) => a.same(b),
            (Filter::Present(a), Filter::Present(b)) => bytes_eq(a, b),
            (Filter::ApproxMatch(a), Filter::ApproxMatch(b)) => a.same(b),
            (Filter::ExtensibleMatch(a), Filter::ExtensibleMatch(b)) => a.same(b),
            _ => false,
        }
    }
}

} // verus!
