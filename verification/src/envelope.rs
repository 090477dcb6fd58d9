//! The envelope itself: the raw inbound bytes, the derived safe text view,
//! the descriptor discovered by scanning, and the client address to carry
//! forward. Routing reads only the text-safe prefix; forwarding always sends
//! the untouched original bytes.
use vstd::prelude::*;

verus! {

use crate::text::text_prefix_len;
use crate::text::safe_text_view;
use crate::text::lemma_safe_text_view;
use crate::scanner::lines_of;
use crate::scanner::scan_lines_spec;
use crate::scanner::split_lines;
use crate::scanner::scan_envelope_lines;
use crate::scanner::BodyError;
use crate::scanner::LINE_BUDGET;
use crate::dsn::Descriptor;
use crate::dsn::DescriptorView;
use crate::policy::host_allowed;
use crate::policy::host_is_allowed;
use vstd::string::StringExecFns;
use vstd::utf8::valid_utf8;

/// An inbound envelope whose destination has been discovered: the raw bytes,
/// their safe text view, the parsed descriptor, and the client address.
#[derive(Debug)]
pub struct SentryEnvelope {
    /// The inbound body, byte for byte; this is what gets forwarded.
    pub raw_body: Vec<u8>,
    /// Length of the longest valid-text prefix of `raw_body`.
    pub text_prefix_len: usize,
    /// True exactly when the whole of `raw_body` is valid text.
    pub is_safe: bool,
    /// The destination descriptor discovered in the header lines.
    pub dsn: Descriptor,
    /// The client address to propagate on the outbound request.
    pub x_forwarded_for: String,
}

/// The lines an envelope body offers for scanning: those of its longest
/// valid-text prefix.
pub open spec fn envelope_lines(body: Seq<u8>) -> Seq<Seq<u8>> {
    lines_of(body.take(text_prefix_len(body)))
}

/// What scanning an envelope body yields: the lines of its longest
/// valid-text prefix, examined within the line budget.
pub open spec fn envelope_scan(body: Seq<u8>) -> Result<DescriptorView, BodyError> {
    scan_lines_spec(envelope_lines(body), LINE_BUDGET as nat)
}

/// How the body is rendered in the pre-send diagnostic record.
#[derive(Debug, Clone, Copy, PartialEq, Eq, Structural)]
pub enum BodyLogRepr {
    /// The whole buffer is valid text: print it verbatim.
    FullText,
    /// Not valid text and the valid prefix is empty: print the raw bytes in
    /// escaped form. A byte-count placeholder would be more consistent with
    /// the safety contract; the corner case is kept deliberately.
    EscapedRaw,
    /// Not valid text: print a byte count instead of the payload.
    ByteCount,
}

impl SentryEnvelope {
    /// The derived fields agree with the raw bytes: the prefix length and
    /// safety flag are those of the safe text view, and the descriptor is
    /// what scanning the prefix yields.
    pub open spec fn well_formed(&self) -> bool {
        &&& self.text_prefix_len == text_prefix_len(self.raw_body@)
        &&& self.is_safe == (self.text_prefix_len == self.raw_body@.len())
        &&& envelope_scan(self.raw_body@) == Ok::<DescriptorView, BodyError>(self.dsn@)
    }

    /// Attempts to parse a body into an envelope: computes the safe text
    /// view, splits its lines, and scans them for the destination
    /// descriptor. The raw bytes are kept verbatim.
    pub fn try_new_from_body(body: Vec<u8>, x_forwarded_for: String) -> (r: Result<
        SentryEnvelope,
        BodyError,
    >)
        ensures
            match r {
                Ok(env) => envelope_scan(body@) matches Ok(d) && env.dsn@ == d
                    && env.well_formed() && env.raw_body@ == body@ && env.x_forwarded_for@
                    == x_forwarded_for@ && env.is_safe == valid_utf8(body@),
                Err(e) => envelope_scan(body@) == Err::<DescriptorView, BodyError>(e),
            },
    {
        proof {
            lemma_safe_text_view(body@);
        }
        let (prefix_len, is_safe) = safe_text_view(&body);
        let lines = split_lines(&body, prefix_len);
        match scan_envelope_lines(&lines) {
            Ok(dsn) => Ok(
                SentryEnvelope { raw_body: body, text_prefix_len: prefix_len, is_safe, dsn, x_forwarded_for },
            ),
            Err(e) => Err(e),
        }
    }

    /// True when this envelope's destination host is one the configuration
    /// allows forwarding to.
    pub fn dsn_host_is_valid(&self, hosts: &Vec<String>) -> (r: bool)
        ensures
            r == host_allowed(self.dsn@.host, hosts.deep_view()),
    {
        host_is_allowed(&self.dsn.host, hosts)
    }

    /// Builds the outbound request: the descriptor's ingestion URL with the
    /// public key appended as the authentication query parameter, the client
    /// address to carry, and the original raw bytes — never the text-safe
    /// prefix — as the body.
    pub fn build_forward_request(&self) -> (r: ForwardRequest)
        ensures
            r.url@ == self.dsn@.api_url + "?sentry_key="@ + self.dsn@.public_key,
            r.body@ == self.raw_body@,
            r.x_forwarded_for@ == self.x_forwarded_for@,
    {
        let mut url = clone_string(&self.dsn.api_url);
        url.append("?sentry_key=");
        url.append(self.dsn.public_key.as_str());
        ForwardRequest {
            url,
            x_forwarded_for: clone_string(&self.x_forwarded_for),
            body: clone_bytes(&self.raw_body),
        }
    }

    /// Picks the diagnostic rendering of the body: verbatim only when the
    /// whole buffer is valid text; otherwise a byte count, except that a
    /// buffer whose valid prefix is empty is rendered as escaped raw bytes.
    pub fn log_body_repr(&self) -> (r: BodyLogRepr)
        ensures
            r == if self.is_safe {
                BodyLogRepr::FullText
            } else if self.text_prefix_len == 0 {
                BodyLogRepr::EscapedRaw
            } else {
                BodyLogRepr::ByteCount
            },
    {
        if self.is_safe {
            BodyLogRepr::FullText
        } else if self.text_prefix_len == 0 {
            BodyLogRepr::EscapedRaw
        } else {
            BodyLogRepr::ByteCount
        }
    }
}

/// The first of an envelope's lines that carries the key with a string value
/// denoting a descriptor decides the scan, regardless of what the buffer
/// holds after it: when it lies within the line budget and every earlier
/// line is JSON without the key, exactly that descriptor is returned.
pub proof fn lemma_envelope_finds_first_descriptor(
    body: Seq<u8>,
    i: int,
    value: Seq<char>,
    d: DescriptorView,
)
    requires
        0 <= i < LINE_BUDGET,
        i < envelope_lines(body).len(),
        forall|j: int| 0 <= j < i ==> crate::json::json_string_lookup(
            #[trigger] envelope_lines(body)[j],
            crate::scanner::dsn_key(),
        ) == crate::json::LineScanView::NoKey,
        crate::json::json_string_lookup(envelope_lines(body)[i], crate::scanner::dsn_key())
            == crate::json::LineScanView::KeyString(value),
        crate::dsn::descriptor_spec(value) == Some(d),
    ensures
        envelope_scan(body) == Ok::<DescriptorView, BodyError>(d),
{
    crate::scanner::lemma_scan_finds_first_descriptor(
        envelope_lines(body),
        i,
        LINE_BUDGET as nat,
        value,
        d,
    );
}

/// Bytes appended after a newline-terminated valid-text header — even bytes
/// that are not valid text at all — never change a successful routing
/// decision: the scan of the combined buffer still yields the descriptor
/// found in the header.
pub proof fn lemma_trailing_bytes_do_not_affect_routing(
    head: Seq<u8>,
    tail: Seq<u8>,
    d: DescriptorView,
)
    requires
        valid_utf8(head),
        head.len() > 0,
        head.last() == 0x0a,
        crate::scanner::scan_lines_spec(lines_of(head), LINE_BUDGET as nat) == Ok::<
            DescriptorView,
            BodyError,
        >(d),
    ensures
        envelope_scan(head + tail) == Ok::<DescriptorView, BodyError>(d),
{
    let body = head + tail;
    crate::text::lemma_safe_text_view(head);
    crate::text::lemma_text_prefix_concat(head, tail);
    crate::text::lemma_safe_text_view(tail);
    let p = text_prefix_len(body);
    assert(p == head.len() + text_prefix_len(tail));
    assert(body.take(p) =~= head + tail.take(text_prefix_len(tail)));
    crate::scanner::lemma_lines_concat(head, tail.take(text_prefix_len(tail)));
    crate::scanner::lemma_scan_append_keeps_found(
        lines_of(head),
        lines_of(tail.take(text_prefix_len(tail))),
        LINE_BUDGET as nat,
        d,
    );
}

/// The outbound request, ready to send: everything the transport needs, as
/// plain values.
#[derive(Debug)]
pub struct ForwardRequest {
    /// Destination URL, including the authentication query parameter.
    pub url: String,
    /// Client address to propagate.
    pub x_forwarded_for: String,
    /// The body: the inbound buffer, byte for byte.
    pub body: Vec<u8>,
}

/// The fixed content type identifying the envelope format on the outbound
/// request.
pub fn envelope_content_type() -> (r: String)
    ensures
        r@ == "application/x-sentry-envelope"@,
{
    "application/x-sentry-envelope".to_owned()
}

/// An exact copy of a byte vector.
fn clone_bytes(v: &Vec<u8>) -> (r: Vec<u8>)
    ensures
        r@ == v@,
{
    let mut out: Vec<u8> = Vec::new();
    let mut i: usize = 0;
    while i < v.len()
        invariant
            0 <= i <= v.len(),
            out@ == v@.take(i as int),
        decreases v.len() - i,
    {
        out.push(v[i]);
        proof {
            assert(out@ =~= v@.take(i + 1));
        }
        i = i + 1;
    }
    proof {
        assert(v@.take(v@.len() as int) =~= v@);
    }
    out
}

/// An exact copy of a string.
fn clone_string(s: &String) -> (r: String)
    ensures
        r@ == s@,
{
    s.as_str().to_owned()
}

} // verus!
