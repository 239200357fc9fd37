//! The common attributes of RFC 7643 §3.1 (`id`, `externalId`, `meta`) and the attribute
//! characteristics of §2.2 that every resource schema shares.
//!
//! `id` is issued by the service provider and `externalId` by the provisioning client. They are
//! two types with no conversion between them, so that neither can stand where the other belongs.

use crate::text;
use crate::text::{copy_optional, same_text};
use vstd::prelude::*;

verus! {

/// The identifier that the service provider assigns to a resource (`id`).
#[derive(Debug, PartialEq, Eq, Hash)]
pub struct ResourceId(String);

/// The identifier that the provisioning client gives to a resource (`externalId`), opaque to the
/// service provider.
#[derive(Debug, PartialEq, Eq, Hash)]
pub struct ExternalId(String);

impl View for ResourceId {
    type V = Seq<char>;

    closed spec fn view(&self) -> Seq<char> {
        self.0@
    }
}

impl View for ExternalId {
    type V = Seq<char>;

    closed spec fn view(&self) -> Seq<char> {
        self.0@
    }
}

impl ResourceId {
    /// Wraps an identifier that the server generated.
    pub fn new(server_assigned: &str) -> (id: ResourceId)
        ensures
            id@ == server_assigned@,
    {
        ResourceId(server_assigned.to_owned())
    }

    /// The identifier's text.
    pub fn as_str(&self) -> (s: &str)
        ensures
            s@ == self@,
    {
        self.0.as_str()
    }
}

impl ExternalId {
    /// Wraps an identifier that a client supplied.
    pub fn new(client_supplied: &str) -> (id: ExternalId)
        ensures
            id@ == client_supplied@,
    {
        ExternalId(client_supplied.to_owned())
    }

    /// The identifier's text.
    pub fn as_str(&self) -> (s: &str)
        ensures
            s@ == self@,
    {
        self.0.as_str()
    }
}

impl Clone for ResourceId {
    fn clone(&self) -> (r: Self)
        ensures
            r@ == self@,
    {
        ResourceId(self.0.clone())
    }
}

impl Clone for ExternalId {
    fn clone(&self) -> (r: Self)
        ensures
            r@ == self@,
    {
        ExternalId(self.0.clone())
    }
}

/// RFC 7643 §2.2 `mutability`; `ReadWrite` is the default there.
#[derive(Clone, Copy, Debug, PartialEq, Eq, Structural)]
pub enum Mutability {
    ReadOnly,
    ReadWrite,
    Immutable,
    WriteOnly,
}

/// The mutability that a token of RFC 7643 §2.2 stands for; the tokens are case-sensitive.
pub open spec fn mutability_of(s: Seq<char>) -> Option<Mutability> {
    if s == "readOnly"@ {
        Some(Mutability::ReadOnly)
    } else if s == "readWrite"@ {
        Some(Mutability::ReadWrite)
    } else if s == "immutable"@ {
        Some(Mutability::Immutable)
    } else if s == "writeOnly"@ {
        Some(Mutability::WriteOnly)
    } else {
        None
    }
}

impl Mutability {
    /// Reads the exact token that RFC 7643 §2.2 defines.
    pub fn from_rfc_str(s: &str) -> (r: Option<Mutability>)
        ensures
            r == mutability_of(s@),
    {
        if same_text(s, "readOnly") {
            Some(Mutability::ReadOnly)
        } else if same_text(s, "readWrite") {
            Some(Mutability::ReadWrite)
        } else if same_text(s, "immutable") {
            Some(Mutability::Immutable)
        } else if same_text(s, "writeOnly") {
            Some(Mutability::WriteOnly)
        } else {
            None
        }
    }
}

/// RFC 7643 §2.2 `returned`; `Default` is the default there.
#[derive(Clone, Copy, Debug, PartialEq, Eq, Structural)]
pub enum Returned {
    Always,
    Never,
    Default,
    Request,
}

/// RFC 7643 §2.2 `uniqueness`; `none`, here `Unconstrained`, is the default there.
#[derive(Clone, Copy, Debug, PartialEq, Eq, Structural)]
pub enum Uniqueness {
    Unconstrained,
    Server,
    Global,
}

/// An instant in UTC: whole seconds since 1970 and nanoseconds within the second.
#[derive(Clone, Copy, Debug, PartialEq, Eq, Structural)]
pub struct Timestamp {
    pub seconds: i64,
    pub nanos: u32,
}

/// RFC 7643 §3.1 `meta`. Every sub-attribute is `readOnly`: a value is built whole.
#[derive(Debug, PartialEq)]
pub struct Meta {
    pub resource_type: String,
    pub created: Timestamp,
    pub last_modified: Timestamp,
    pub location: String,
    /// A version that can be compared with an ETag; optional.
    pub version: Option<String>,
}

/// `meta`, as contracts speak of it.
#[verifier::ext_equal]
pub struct MetaModel {
    pub resource_type: Seq<char>,
    pub created: Timestamp,
    pub last_modified: Timestamp,
    pub location: Seq<char>,
    pub version: Option<Seq<char>>,
}

impl View for Meta {
    type V = MetaModel;

    open spec fn view(&self) -> MetaModel {
        MetaModel {
            resource_type: self.resource_type@,
            created: self.created,
            last_modified: self.last_modified,
            location: self.location@,
            version: text::optional_text(self.version),
        }
    }
}

impl Clone for Meta {
    fn clone(&self) -> (r: Self)
        ensures
            r@ == self@,
    {
        Meta {
            resource_type: self.resource_type.clone(),
            created: self.created,
            last_modified: self.last_modified,
            location: self.location.clone(),
            version: copy_optional(&self.version),
        }
    }
}

} // verus!
