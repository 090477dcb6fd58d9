//! The destination descriptor: a structured identifier naming the real
//! ingestion endpoint, an authentication key, and a numeric project
//! identifier. Parsing of the URI-like string is left to `sentry_types`; the
//! library models the parts it reads as plain values and enforces the
//! descriptor invariant (no partial descriptor is ever exposed).
use vstd::prelude::*;

verus! {

use crate::gate::is_u64_digits;
use crate::gate::dec_value;

/// A fully parsed destination descriptor. All fields are established
/// together: the constructor yields `None` rather than a partial value.
#[derive(Debug)]
pub struct Descriptor {
    /// Host of the real ingestion endpoint.
    pub host: String,
    /// Public key carried as the authentication query parameter.
    pub public_key: String,
    /// Numeric project identifier.
    pub project_id: u64,
    /// Envelope ingestion URL derived from the descriptor.
    pub api_url: String,
}

/// Mathematical view of a [`Descriptor`].
pub struct DescriptorView {
    pub host: Seq<char>,
    pub public_key: Seq<char>,
    pub project_id: u64,
    pub api_url: Seq<char>,
}

impl View for Descriptor {
    type V = DescriptorView;

    open spec fn view(&self) -> DescriptorView {
        DescriptorView {
            host: self.host@,
            public_key: self.public_key@,
            project_id: self.project_id,
            api_url: self.api_url@,
        }
    }
}

/// The parts that descriptor-string parsing yields, before the project
/// identifier is required to be numeric.
pub struct DsnParts {
    pub host: String,
    pub public_key: String,
    pub project_tag: Vec<u8>,
    pub api_url: String,
}

/// Mathematical view of [`DsnParts`].
pub struct DsnPartsView {
    pub host: Seq<char>,
    pub public_key: Seq<char>,
    pub project_tag: Seq<u8>,
    pub api_url: Seq<char>,
}

impl View for DsnParts {
    type V = DsnPartsView;

    open spec fn view(&self) -> DsnPartsView {
        DsnPartsView {
            host: self.host@,
            public_key: self.public_key@,
            project_tag: self.project_tag@,
            api_url: self.api_url@,
        }
    }
}

/// What descriptor-string parsing yields: `None` when the string is not a
/// well-formed descriptor, otherwise its parts. A function of the string
/// alone; its value is fixed by the descriptor grammar, which this library
/// does not restate.
pub uninterp spec fn dsn_parse(s: Seq<char>) -> Option<DsnPartsView>;

/// Relies on `sentry_types::Dsn::from_str` to decide whether the string is a
/// well-formed descriptor, and on `Dsn::host`, `Dsn::public_key`,
/// `Dsn::project_id` and `Dsn::envelope_api_url` for the parts of a parsed
/// one; each is a function of the string alone.
#[verifier::external_body]
pub(crate) fn parse_dsn(s: &str) -> (r: Option<DsnParts>)
    ensures
        r matches Some(p) ==> dsn_parse(s@) matches Some(g) && p@ == g,
        r is None ==> dsn_parse(s@) is None,
{
    let d = match <sentry_types::Dsn as std::str::FromStr>::from_str(s) {
        Ok(d) => d,
        Err(_) => return None,
    };
    Some(DsnParts {
        host: d.host().to_owned(),
        public_key: d.public_key().to_owned(),
        project_tag: d.project_id().value().as_bytes().to_vec(),
        api_url: d.envelope_api_url().to_string(),
    })
}

/// The descriptor denoted by the string `s`: its parse must succeed as a
/// unit, with a nonempty host, a nonempty public key, and a numeric project
/// identifier.
pub open spec fn descriptor_spec(s: Seq<char>) -> Option<DescriptorView> {
    match dsn_parse(s) {
        None => None,
        Some(g) => if g.host.len() > 0 && g.public_key.len() > 0 && is_u64_digits(g.project_tag) {
            Some(
                DescriptorView {
                    host: g.host,
                    public_key: g.public_key,
                    project_id: dec_value(g.project_tag) as u64,
                    api_url: g.api_url,
                },
            )
        } else {
            None
        },
    }
}

/// Parses a descriptor string, succeeding exactly on the strings that denote
/// a complete descriptor.
pub fn parse_descriptor(s: &str) -> (r: Option<Descriptor>)
    ensures
        r matches Some(d) ==> descriptor_spec(s@) matches Some(v) && d@ == v,
        r is None ==> descriptor_spec(s@) is None,
{
    let parts = match parse_dsn(s) {
        Some(p) => p,
        None => {
            return None;
        },
    };
    if parts.host.as_str().is_empty() || parts.public_key.as_str().is_empty() {
        return None;
    }
    let project_id = match crate::gate::parse_u64_digits(parts.project_tag.as_slice()) {
        Some(n) => n,
        None => {
            return None;
        },
    };
    Some(
        Descriptor {
            host: parts.host,
            public_key: parts.public_key,
            project_id,
            api_url: parts.api_url,
        },
    )
}

} // verus!
