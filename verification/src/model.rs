//! Data structures: the LDAP message model that the client logic reads and builds.
//!
//! Octet strings are `Vec<u8>`, LDAP strings are `String`. Attribute
//! descriptions inside filters stay octet strings, as they come off the
//! filter text.

use vstd::prelude::*;
use crate::filter::tree::AttributeValueAssertion;
use crate::request::{ModifyRequest, SearchRequest};

verus! {

/// Result code of an LDAP operation (RFC 4511, section 4.1.9).
#[derive(Debug, Clone, Copy, PartialEq, Eq, Hash, Structural)]
pub enum ResultCode {
    Success,
    OperationsError,
    ProtocolError,
    TimeLimitExceeded,
    SizeLimitExceeded,
    CompareFalse,
    CompareTrue,
    AuthMethodNotSupported,
    StrongerAuthRequired,
    Referral,
    AdminLimitExceeded,
    UnavailableCriticalExtension,
    ConfidentialityRequired,
    SaslBindInProgress,
    NoSuchAttribute,
    UndefinedAttributeType,
    InappropriateMatching,
    ConstraintViolation,
    AttributeOrValueExists,
    InvalidAttributeSyntax,
    NoSuchObject,
    AliasProblem,
    InvalidDnSyntax,
    AliasDereferencingProblem,
    InappropriateAuthentication,
    InvalidCredentials,
    InsufficientAccessRights,
    Busy,
    Unavailable,
    UnwillingToPerform,
    LoopDetect,
    NamingViolation,
    ObjectClassViolation,
    NotAllowedOnNonLeaf,
    NotAllowedOnRdn,
    EntryAlreadyExists,
    ObjectClassModsProhibited,
    AffectsMultipleDsas,
    Other,
}

/// Scope of a search.
#[derive(Debug, Clone, Copy, PartialEq, Eq, Hash, Structural)]
pub enum SearchRequestScope {
    BaseObject,
    SingleLevel,
    WholeSubtree,
}

/// Alias dereferencing policy of a search.
#[derive(Debug, Clone, Copy, PartialEq, Eq, Hash, Structural)]
pub enum SearchRequestDerefAliases {
    NeverDerefAliases,
    DerefInSearching,
    DerefFindingBaseObj,
    DerefAlways,
}

/// Kind of change in a modify request.
#[derive(Debug, Clone, Copy, PartialEq, Eq, Hash, Structural)]
pub enum ChangeOperation {
    Add,
    Delete,
    Replace,
}

/// LDAP attribute definition
#[derive(Debug, Clone, PartialEq, Eq)]
pub struct Attribute {
    /// Attribute name
    pub name: String,
    /// Attribute values
    pub values: Vec<Vec<u8>>,
}

pub type Attributes = Vec<Attribute>;

/// An entry found during the search
#[derive(Debug, Clone, PartialEq, Eq)]
pub struct SearchEntry {
    /// The name of the object found (Distinguished Name)
    pub dn: String,
    /// The attributes associated with the object
    pub attributes: Attributes,
}

/// Outcome that the server reports for an operation.
#[derive(Debug, Clone, PartialEq, Eq)]
pub struct LdapResult {
    pub result_code: ResultCode,
    pub matched_dn: String,
    pub diagnostic_message: String,
    pub referral: Option<Vec<String>>,
}

impl LdapResult {
    /// A result without referral.
    pub fn new(result_code: ResultCode, matched_dn: String, diagnostic_message: String) -> (r: Self)
        ensures
            r == (LdapResult { result_code, matched_dn, diagnostic_message, referral: None }),
    {
        LdapResult { result_code, matched_dn, diagnostic_message, referral: None }
    }
}

/// Mathematical value of a [`Control`].
pub struct ControlView {
    pub control_type: Seq<u8>,
    pub criticality: bool,
    pub control_value: Option<Seq<u8>>,
}

/// A tagged extension attached to a request or response.
#[derive(Debug, PartialEq, Eq)]
pub struct Control {
    /// Object identifier, in dotted decimal text
    pub control_type: Vec<u8>,
    pub criticality: bool,
    pub control_value: Option<Vec<u8>>,
}

impl View for Control {
    type V = ControlView;

    open spec fn view(&self) -> ControlView {
        ControlView {
            control_type: self.control_type@,
            criticality: self.criticality,
            control_value: match self.control_value {
                Some(v) => Some(v@),
                None => None,
            },
        }
    }
}

impl Control {
    pub fn new(control_type: Vec<u8>, criticality: bool, control_value: Option<Vec<u8>>) -> (r: Self)
        ensures
            r == (Control { control_type, criticality, control_value }),
    {
        Control { control_type, criticality, control_value }
    }
}

impl Clone for Control {
    fn clone(&self) -> (r: Self)
        ensures
            r@ == self@,
    {
        Control {
            control_type: self.control_type.clone(),
            criticality: self.criticality,
            control_value: match &self.control_value {
                Some(v) => Some(v.clone()),
                None => None,
            },
        }
    }
}

/// Credentials of a SASL bind.
#[derive(Debug, Clone, PartialEq, Eq)]
pub struct SaslCredentials {
    pub mechanism: String,
    pub credentials: Option<Vec<u8>>,
}

/// How a bind request authenticates.
#[derive(Debug, Clone, PartialEq, Eq)]
pub enum AuthenticationChoice {
    Simple(Vec<u8>),
    Sasl(SaslCredentials),
}

#[derive(Debug, Clone, PartialEq, Eq)]
pub struct BindRequest {
    pub version: u8,
    pub name: String,
    pub authentication: AuthenticationChoice,
}

#[derive(Debug, Clone, PartialEq, Eq)]
pub struct BindResponse {
    pub result_code: ResultCode,
    pub matched_dn: String,
    pub diagnostic_message: String,
    pub referral: Option<Vec<String>>,
    pub server_sasl_creds: Option<Vec<u8>>,
}

/// One change of a modify request.
#[derive(Debug, Clone, PartialEq, Eq)]
pub struct ModifyRequestChanges {
    pub operation: ChangeOperation,
    pub modification: Attribute,
}

#[derive(Debug, Clone, PartialEq, Eq)]
pub struct AddRequest {
    pub entry: String,
    pub attributes: Attributes,
}

#[derive(Debug, Clone, PartialEq, Eq)]
pub struct ModifyDnRequest {
    pub entry: String,
    pub new_rdn: String,
    pub delete_old_rdn: bool,
    pub new_superior: Option<String>,
}

#[derive(Debug, Clone, PartialEq, Eq)]
pub struct ExtendedRequest {
    /// Object identifier, in dotted decimal text
    pub request_name: Vec<u8>,
    pub request_value: Option<Vec<u8>>,
}

#[derive(Debug, Clone, PartialEq, Eq)]
pub struct ExtendedResponse {
    pub result_code: ResultCode,
    pub matched_dn: String,
    pub diagnostic_message: String,
    pub referral: Option<Vec<String>>,
    pub response_name: Option<Vec<u8>>,
    pub response_value: Option<Vec<u8>>,
}

#[derive(Debug, Clone, PartialEq, Eq)]
pub struct IntermediateResponse {
    pub response_name: Option<Vec<u8>>,
    pub response_value: Option<Vec<u8>>,
}

#[derive(Debug, Clone, PartialEq, Eq)]
pub struct CompareRequest {
    pub entry: String,
    pub ava: AttributeValueAssertion,
}

/// The operation that a message carries (RFC 4511, section 4.1.1).
#[derive(Debug, Clone, PartialEq, Eq)]
pub enum ProtocolOp {
    BindRequest(BindRequest),
    BindResponse(BindResponse),
    UnbindRequest,
    SearchRequest(SearchRequest),
    SearchResEntry(SearchEntry),
    SearchResDone(LdapResult),
    /// URIs under which the search continues
    SearchResRef(Vec<String>),
    ModifyRequest(ModifyRequest),
    ModifyResponse(LdapResult),
    AddRequest(AddRequest),
    AddResponse(LdapResult),
    /// The DN of the entry to delete
    DelRequest(String),
    DelResponse(LdapResult),
    ModDnRequest(ModifyDnRequest),
    ModDnResponse(LdapResult),
    CompareRequest(CompareRequest),
    CompareResponse(LdapResult),
    /// The id of the operation to abandon
    AbandonRequest(u32),
    ExtendedReq(ExtendedRequest),
    ExtendedResp(ExtendedResponse),
    IntermediateResponse(IntermediateResponse),
}

/// An LDAP message, the envelope of every protocol exchange.
#[derive(Debug, Clone, PartialEq, Eq)]
pub struct Message {
    pub message_id: u32,
    pub protocol_op: ProtocolOp,
    pub controls: Option<Vec<Control>>,
}

impl Message {
    /// A message without controls.
    pub fn new(message_id: u32, protocol_op: ProtocolOp) -> (r: Self)
        ensures
            r == (Message { message_id, protocol_op, controls: None }),
    {
        Message { message_id, protocol_op, controls: None }
    }
}

} // verus!
