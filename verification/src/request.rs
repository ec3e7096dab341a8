//! LDAP requests and the builders that make them.

use std::time::Duration;
use vstd::prelude::*;
use vstd::slice::slice_to_vec;
use vstd::string::StringSliceAdditionalSpecFns;
use vstd::utf8::encode_utf8;
use crate::error::Error;
use crate::filter::grammar;
use crate::filter::parse_filter;
use crate::filter::tree::{Filter, FilterView};
use crate::model::{
    Attribute, ChangeOperation, ModifyRequestChanges, SearchRequestDerefAliases, SearchRequestScope,
};

verus! {

/// Number of whole seconds in a duration, as `Duration::as_secs` reports it.
pub uninterp spec fn whole_seconds(d: Duration) -> u64;

/// `Duration::as_secs` returns the whole seconds of the duration; the
/// contract gives that number its name and claims nothing else.
pub assume_specification[ Duration::as_secs ](d: &Duration) -> (s: u64)
    ensures
        s == whole_seconds(*d),
;

/// Mathematical values of a list of strings, in order.
pub open spec fn strings_view(v: Seq<String>) -> Seq<Seq<char>> {
    Seq::new(v.len(), |i: int| v[i]@)
}

/// Mathematical value of a [`SearchRequest`].
pub struct SearchRequestView {
    pub base_dn: Seq<char>,
    pub scope: SearchRequestScope,
    pub deref_aliases: SearchRequestDerefAliases,
    pub size_limit: u32,
    pub time_limit: u32,
    pub types_only: bool,
    pub filter: FilterView,
    pub attributes: Seq<Seq<char>>,
}

/// Search request
#[derive(Debug, PartialEq, Eq)]
pub struct SearchRequest {
    pub base_dn: String,
    pub scope: SearchRequestScope,
    pub deref_aliases: SearchRequestDerefAliases,
    pub size_limit: u32,
    /// Time limit in seconds
    pub time_limit: u32,
    pub types_only: bool,
    pub filter: Filter,
    pub attributes: Vec<String>,
}

impl View for SearchRequest {
    type V = SearchRequestView;

    open spec fn view(&self) -> SearchRequestView {
        SearchRequestView {
            base_dn: self.base_dn@,
            scope: self.scope,
            deref_aliases: self.deref_aliases,
            size_limit: self.size_limit,
            time_limit: self.time_limit,
            types_only: self.types_only,
            filter: self.filter@,
            attributes: strings_view(self.attributes@),
        }
    }
}

/// A copy of a list of strings.
pub fn clone_strings(v: &Vec<String>) -> (out: Vec<String>)
    ensures
        strings_view(out@) == strings_view(v@),
{
    let mut out: Vec<String> = Vec::new();
    let mut i: usize = 0;
    while i < v.len()
        invariant
            i <= v.len(),
            out.len() == i,
            forall|k: int| 0 <= k < i ==> out@[k]@ == v@[k]@,
        decreases v.len() - i,
    {
        out.push(v[i].clone());
        i += 1;
    }
    assert(strings_view(out@) =~= strings_view(v@));
    out
}

impl Clone for SearchRequest {
    fn clone(&self) -> (r: Self)
        ensures
            r@ == self@,
    {
        SearchRequest {
            base_dn: self.base_dn.clone(),
            scope: self.scope,
            deref_aliases: self.deref_aliases,
            size_limit: self.size_limit,
            time_limit: self.time_limit,
            types_only: self.types_only,
            filter: self.filter.clone(),
            attributes: clone_strings(&self.attributes),
        }
    }
}

/// The seconds of a time limit as they go on the wire: cut to 32 bits.
pub open spec fn wire_seconds(secs: u64) -> u32 {
    (secs % 0x1_0000_0000) as u32
}

/// LDAP search request builder
#[derive(Debug, Clone, Eq, PartialEq)]
pub struct SearchRequestBuilder {
    pub base_dn: String,
    pub scope: SearchRequestScope,
    pub deref_aliases: SearchRequestDerefAliases,
    pub size_limit: u32,
    /// Time limit in whole seconds
    pub time_limit: u64,
    pub types_only: bool,
    pub filter: String,
    pub attributes: Vec<String>,
}

impl SearchRequestBuilder {
    /// A builder for a search of the base object alone, with no limits, an
    /// empty base DN, an empty filter text and no attribute selection.
    pub fn new() -> (r: Self)
        ensures
            r.base_dn@ == Seq::<char>::empty(),
            r.scope == SearchRequestScope::BaseObject,
            r.deref_aliases == SearchRequestDerefAliases::NeverDerefAliases,
            r.size_limit == 0,
            r.time_limit == 0,
            !r.types_only,
            r.filter@ == Seq::<char>::empty(),
            r.attributes@ == Seq::<String>::empty(),
    {
        SearchRequestBuilder {
            base_dn: String::new(),
            scope: SearchRequestScope::BaseObject,
            deref_aliases: SearchRequestDerefAliases::NeverDerefAliases,
            size_limit: 0,
            time_limit: 0,
            types_only: false,
            filter: String::new(),
            attributes: Vec::new(),
        }
    }

    /// Set base DN
    pub fn base_dn(self, base_dn: &str) -> (r: Self)
        ensures
            r.base_dn@ == base_dn@,
            r == (SearchRequestBuilder { base_dn: r.base_dn, ..self }),
    {
        SearchRequestBuilder { base_dn: base_dn.to_owned(), ..self }
    }

    /// Set search scope
    pub fn scope(self, scope: SearchRequestScope) -> (r: Self)
        ensures
            r == (SearchRequestBuilder { scope, ..self }),
    {
        SearchRequestBuilder { scope, ..self }
    }

    /// Set aliases dereference policy
    pub fn deref_aliases(self, deref_aliases: SearchRequestDerefAliases) -> (r: Self)
        ensures
            r == (SearchRequestBuilder { deref_aliases, ..self }),
    {
        SearchRequestBuilder { deref_aliases, ..self }
    }

    /// Set search size limit
    pub fn size_limit(self, size_limit: u32) -> (r: Self)
        ensures
            r == (SearchRequestBuilder { size_limit, ..self }),
    {
        SearchRequestBuilder { size_limit, ..self }
    }

    /// Set search time limit; its whole seconds count.
    pub fn time_limit(self, time_limit: Duration) -> (r: Self)
        ensures
            r == (SearchRequestBuilder { time_limit: whole_seconds(time_limit), ..self }),
    {
        SearchRequestBuilder { time_limit: time_limit.as_secs(), ..self }
    }

    /// Set flag indicating to only search types
    pub fn types_only(self, types_only: bool) -> (r: Self)
        ensures
            r == (SearchRequestBuilder { types_only, ..self }),
    {
        SearchRequestBuilder { types_only, ..self }
    }

    /// Set search filter
    pub fn filter(self, filter: &str) -> (r: Self)
        ensures
            r.filter@ == filter@,
            r == (SearchRequestBuilder { filter: r.filter, ..self }),
    {
        SearchRequestBuilder { filter: filter.to_owned(), ..self }
    }

    /// Specify attributes to return: they are added, in order, after those
    /// already named.
    pub fn attributes(self, attributes: Vec<&str>) -> (r: Self)
        ensures
            strings_view(r.attributes@) == strings_view(self.attributes@) + Seq::new(
                attributes.len() as nat,
                |i: int| attributes[i]@,
            ),
            r == (SearchRequestBuilder { attributes: r.attributes, ..self }),
    {
        let mut this = self;
        let mut i: usize = 0;
        while i < attributes.len()
            invariant
                i <= attributes.len(),
                this == (SearchRequestBuilder { attributes: this.attributes, ..self }),
                strings_view(this.attributes@) == strings_view(self.attributes@) + Seq::new(
                    i as nat,
                    |k: int| attributes[k]@,
                ),
            decreases attributes.len() - i,
        {
            let ghost before = this.attributes@;
            this.attributes.push(attributes[i].to_owned());
            assert(strings_view(this.attributes@) =~= strings_view(before).push(attributes[i as int]@));
            assert(strings_view(before).push(attributes[i as int]@) =~= strings_view(
                self.attributes@,
            ) + Seq::new((i + 1) as nat, |k: int| attributes[k]@));
            i += 1;
        }
        this
    }

    /// Add attribute to return
    pub fn attribute(self, attribute: &str) -> (r: Self)
        ensures
            strings_view(r.attributes@) == strings_view(self.attributes@).push(attribute@),
            r == (SearchRequestBuilder { attributes: r.attributes, ..self }),
    {
        let mut this = self;
        let ghost before = this.attributes@;
        this.attributes.push(attribute.to_owned());
        assert(strings_view(this.attributes@) =~= strings_view(before).push(attribute@));
        this
    }

    /// Create a search request.
    ///
    /// The filter text is parsed: where it is an RFC 2254 filter, the request
    /// holds its tree and the builder's other settings, the time limit cut
    /// to 32 bits; where it is none, `InvalidFilter`.
    pub fn build(self) -> (r: Result<SearchRequest, Error>)
        ensures
            match grammar::parse(encode_utf8(self.filter@)) {
                Some(f) => r matches Ok(req) && req@ == (SearchRequestView {
                    base_dn: self.base_dn@,
                    scope: self.scope,
                    deref_aliases: self.deref_aliases,
                    size_limit: self.size_limit,
                    time_limit: wire_seconds(self.time_limit),
                    types_only: self.types_only,
                    filter: f,
                    attributes: strings_view(self.attributes@),
                }),
                None => r == Err::<SearchRequest, Error>(Error::InvalidFilter),
            },
    {
        let filter = match parse_filter(self.filter.as_str()) {
            Ok(f) => f,
            Err(e) => {
                return Err(e);
            },
        };
        let secs: u64 = self.time_limit;
        Ok(
            SearchRequest {
                base_dn: self.base_dn,
                scope: self.scope,
                deref_aliases: self.deref_aliases,
                size_limit: self.size_limit,
                time_limit: (secs % 0x1_0000_0000) as u32,
                types_only: self.types_only,
                filter,
                attributes: self.attributes,
            },
        )
    }
}

/// The attribute that every entry has, which the root DSE query tests for.
pub const OBJECT_CLASS: &'static str = "objectClass";

impl SearchRequest {
    /// Create search request builder
    pub fn builder() -> (r: SearchRequestBuilder)
        ensures
            r.base_dn@ == Seq::<char>::empty(),
            r.scope == SearchRequestScope::BaseObject,
            r.deref_aliases == SearchRequestDerefAliases::NeverDerefAliases,
            r.size_limit == 0,
            r.time_limit == 0,
            !r.types_only,
            r.filter@ == Seq::<char>::empty(),
            r.attributes@ == Seq::<String>::empty(),
    {
        SearchRequestBuilder::new()
    }

    /// Create search request to query root DSE object: the base object with
    /// the empty DN, tested for the presence of `objectClass`, which is the
    /// filter `(objectClass=*)`.
    pub fn root_dse() -> (r: Self)
        ensures
            r@ == (SearchRequestView {
                base_dn: Seq::empty(),
                scope: SearchRequestScope::BaseObject,
                deref_aliases: SearchRequestDerefAliases::NeverDerefAliases,
                size_limit: 0,
                time_limit: 0,
                types_only: false,
                filter: FilterView::Present(OBJECT_CLASS.spec_bytes()),
                attributes: Seq::empty(),
            }),
    {
        let r = SearchRequest {
            base_dn: String::new(),
            scope: SearchRequestScope::BaseObject,
            deref_aliases: SearchRequestDerefAliases::NeverDerefAliases,
            size_limit: 0,
            time_limit: 0,
            types_only: false,
            filter: Filter::Present(slice_to_vec(OBJECT_CLASS.as_bytes())),
            attributes: Vec::new(),
        };
        assert(strings_view(r.attributes@) =~= Seq::<Seq<char>>::empty());
        r
    }
}

/// Modify request
#[derive(Debug, Clone, PartialEq, Eq)]
pub struct ModifyRequest {
    pub object_dn: String,
    pub changes: Vec<ModifyRequestChanges>,
}

impl ModifyRequest {
    /// Create modification request builder for a given object DN
    pub fn builder(object: &str) -> (r: ModifyRequestBuilder)
        ensures
            r.object@ == object@,
            r.operations@ == Seq::<ModifyRequestChanges>::empty(),
    {
        ModifyRequestBuilder::new(object)
    }
}

/// LDAP modify request builder
#[derive(Debug, Clone, Eq, PartialEq)]
pub struct ModifyRequestBuilder {
    pub object: String,
    pub operations: Vec<ModifyRequestChanges>,
}

impl ModifyRequestBuilder {
    /// A builder for changes to the object `object`, none so far.
    pub fn new(object: &str) -> (r: Self)
        ensures
            r.object@ == object@,
            r.operations@ == Seq::<ModifyRequestChanges>::empty(),
    {
        ModifyRequestBuilder { object: object.to_owned(), operations: Vec::new() }
    }

    /// Appends one change of the given kind.
    fn push_op(self, operation: ChangeOperation, attribute: Attribute) -> (r: Self)
        ensures
            r.object == self.object,
            r.operations@ == self.operations@.push(
                ModifyRequestChanges { operation, modification: attribute },
            ),
    {
        let mut this = self;
        this.operations.push(ModifyRequestChanges { operation, modification: attribute });
        this
    }

    /// Append add operation to the request builder
    pub fn add_op(self, attribute: Attribute) -> (r: Self)
        ensures
            r.object == self.object,
            r.operations@ == self.operations@.push(
                ModifyRequestChanges { operation: ChangeOperation::Add, modification: attribute },
            ),
    {
        self.push_op(ChangeOperation::Add, attribute)
    }

    /// Append delete operation to the request builder
    pub fn delete_op(self, attribute: Attribute) -> (r: Self)
        ensures
            r.object == self.object,
            r.operations@ == self.operations@.push(
                ModifyRequestChanges { operation: ChangeOperation::Delete, modification: attribute },
            ),
    {
        self.push_op(ChangeOperation::Delete, attribute)
    }

    /// Append replace operation to the request builder
    pub fn replace_op(self, attribute: Attribute) -> (r: Self)
        ensures
            r.object == self.object,
            r.operations@ == self.operations@.push(
                ModifyRequestChanges { operation: ChangeOperation::Replace, modification: attribute },
            ),
    {
        self.push_op(ChangeOperation::Replace, attribute)
    }

    /// Build the modification request: the object and the changes, in the
    /// order in which they were appended.
    pub fn build(self) -> (r: ModifyRequest)
        ensures
            r == (ModifyRequest { object_dn: self.object, changes: self.operations }),
    {
        ModifyRequest { object_dn: self.object, changes: self.operations }
    }
}

} // verus!
