//! The per-request pipeline: parse the body into an envelope, gate it on the
//! two allow-lists (project first, then host), and hand back the envelope
//! ready for forwarding. Also resolves the client address that the outbound
//! request carries.
use vstd::prelude::*;

verus! {

use crate::envelope::SentryEnvelope;
use crate::envelope::envelope_scan;
use crate::scanner::BodyError;
use crate::gate::HeaderError;
use crate::dsn::DescriptorView;
use crate::policy::host_allowed;
use crate::policy::project_id_is_allowed;
use vstd::string::StrSliceExecFns;

/// A client-caused rejection: either a header-level error or an
/// envelope-structure or policy error.
#[derive(Debug, Clone, Copy, PartialEq, Eq, Structural)]
pub enum TunnelError {
    /// A header-level rejection, including a disallowed destination host.
    Header(HeaderError),
    /// An envelope-structure rejection, including a disallowed project.
    Body(BodyError),
}

/// The forwarding decision for a body under the configured allow-lists:
/// scanning must yield a descriptor, its project must be allowed, and its
/// host must be allowed — in that order, so that when both checks fail the
/// project error is the one surfaced.
pub open spec fn tunnel_decision(body: Seq<u8>, hosts: Seq<Seq<char>>, projects: Seq<u64>) -> Result<
    DescriptorView,
    TunnelError,
> {
    match envelope_scan(body) {
        Err(e) => Err(TunnelError::Body(e)),
        Ok(d) => if !projects.contains(d.project_id) {
            Err(TunnelError::Body(BodyError::ProjectNotAllowed))
        } else if !host_allowed(d.host, hosts) {
            Err(TunnelError::Header(HeaderError::InvalidHost))
        } else {
            Ok(d)
        },
    }
}

/// Runs the pipeline on one body: envelope parsing, then the project check,
/// then the host check. No stage is skipped or reordered, and failure at any
/// stage short-circuits the rest.
pub fn process_envelope(
    body: Vec<u8>,
    x_forwarded_for: String,
    hosts: &Vec<String>,
    projects: &Vec<u64>,
) -> (r: Result<SentryEnvelope, TunnelError>)
    ensures
        match r {
            Ok(env) => tunnel_decision(body@, hosts.deep_view(), projects@) matches Ok(d)
                && env.dsn@ == d && env.well_formed() && env.raw_body@ == body@
                && env.x_forwarded_for@ == x_forwarded_for@,
            Err(e) => tunnel_decision(body@, hosts.deep_view(), projects@) == Err::<
                DescriptorView,
                TunnelError,
            >(e),
        },
{
    let env = match SentryEnvelope::try_new_from_body(body, x_forwarded_for) {
        Ok(env) => env,
        Err(e) => {
            return Err(TunnelError::Body(e));
        },
    };
    if !project_id_is_allowed(env.dsn.project_id, projects) {
        return Err(TunnelError::Body(BodyError::ProjectNotAllowed));
    }
    if !env.dsn_host_is_valid(hosts) {
        return Err(TunnelError::Header(HeaderError::InvalidHost));
    }
    Ok(env)
}

/// True for the ASCII whitespace stripped around a forwarded-for entry.
pub open spec fn is_ascii_ws(c: char) -> bool {
    c == ' ' || c == '\t' || c == '\r' || c == '\n'
}

/// Index of the first comma in `s`, or `s.len()` when there is none.
pub open spec fn find_comma(s: Seq<char>) -> int
    decreases s.len(),
{
    if s.len() == 0 {
        0
    } else if s[0] == ',' {
        0
    } else {
        1 + find_comma(s.skip(1))
    }
}

/// Number of whitespace characters at the front of `s`.
pub open spec fn leading_ws(s: Seq<char>) -> int
    decreases s.len(),
{
    if s.len() == 0 || !is_ascii_ws(s[0]) {
        0
    } else {
        1 + leading_ws(s.skip(1))
    }
}

/// Number of whitespace characters at the back of `s`.
pub open spec fn trailing_ws(s: Seq<char>) -> int
    decreases s.len(),
{
    if s.len() == 0 || !is_ascii_ws(s.last()) {
        0
    } else {
        1 + trailing_ws(s.drop_last())
    }
}

/// `s` without its surrounding whitespace.
pub open spec fn trim_of(s: Seq<char>) -> Seq<char> {
    if leading_ws(s) == s.len() {
        Seq::empty()
    } else {
        s.subrange(leading_ws(s), s.len() - trailing_ws(s))
    }
}

/// The first comma-separated entry of a forwarded-for header value, trimmed.
pub open spec fn first_forwarded_entry(s: Seq<char>) -> Seq<char> {
    trim_of(s.take(find_comma(s)))
}

proof fn lemma_find_comma_is(s: Seq<char>, k: int)
    requires
        0 <= k <= s.len(),
        k < s.len() ==> s[k] == ',',
        forall|i: int| 0 <= i < k ==> s[i] != ',',
    ensures
        find_comma(s) == k,
    decreases s.len(),
{
    if s.len() == 0 {
    } else if s[0] == ',' {
        if k > 0 {
            assert(s[0] != ',');
        }
    } else {
        assert(k >= 1) by {
            if k == 0 {
                assert(s[k] == ',');
            }
        }
        assert forall|i: int| 0 <= i < k - 1 implies s.skip(1)[i] != ',' by {
            assert(s.skip(1)[i] == s[i + 1]);
        }
        if k - 1 < s.skip(1).len() {
            assert(s.skip(1)[k - 1] == s[k]);
        }
        lemma_find_comma_is(s.skip(1), k - 1);
    }
}

proof fn lemma_leading_ws_is(s: Seq<char>, a: int)
    requires
        0 <= a <= s.len(),
        forall|i: int| 0 <= i < a ==> is_ascii_ws(#[trigger] s[i]),
        a < s.len() ==> !is_ascii_ws(s[a]),
    ensures
        leading_ws(s) == a,
    decreases s.len(),
{
    if s.len() == 0 || !is_ascii_ws(s[0]) {
        if a > 0 {
            assert(is_ascii_ws(s[0]));
        }
    } else {
        assert(a >= 1) by {
            if a == 0 {
                assert(!is_ascii_ws(s[a]));
            }
        }
        assert forall|i: int| 0 <= i < a - 1 implies is_ascii_ws(#[trigger] s.skip(1)[i]) by {
            assert(s.skip(1)[i] == s[i + 1]);
        }
        if a - 1 < s.skip(1).len() {
            assert(s.skip(1)[a - 1] == s[a]);
        }
        lemma_leading_ws_is(s.skip(1), a - 1);
    }
}

proof fn lemma_trailing_ws_is(s: Seq<char>, b: int)
    requires
        0 <= b <= s.len(),
        forall|i: int| s.len() - b <= i < s.len() ==> is_ascii_ws(#[trigger] s[i]),
        b < s.len() ==> !is_ascii_ws(s[s.len() - 1 - b]),
    ensures
        trailing_ws(s) == b,
    decreases s.len(),
{
    if s.len() == 0 || !is_ascii_ws(s.last()) {
        if b > 0 {
            assert(is_ascii_ws(s[s.len() - 1]));
        }
    } else {
        assert(b >= 1) by {
            if b == 0 {
                assert(!is_ascii_ws(s[s.len() - 1 - b]));
            }
        }
        let t = s.drop_last();
        assert forall|i: int| t.len() - (b - 1) <= i < t.len() implies is_ascii_ws(
            #[trigger] t[i],
        ) by {
            assert(t[i] == s[i]);
        }
        if b - 1 < t.len() {
            assert(t[t.len() - 1 - (b - 1)] == s[s.len() - 1 - b]);
        }
        lemma_trailing_ws_is(t, b - 1);
    }
}

/// True when `c` is one of the stripped whitespace characters.
fn is_ws_char(c: char) -> (r: bool)
    ensures
        r == is_ascii_ws(c),
{
    c == ' ' || c == '\t' || c == '\r' || c == '\n'
}

/// The first comma-separated entry of `header`, trimmed of surrounding
/// whitespace.
pub fn first_forwarded_value(header: &str) -> (r: String)
    ensures
        r@ == first_forwarded_entry(header@),
{
    let n = header.unicode_len();
    let mut k: usize = 0;
    while k < n && header.get_char(k) != ','
        invariant
            0 <= k <= n,
            n == header@.len(),
            forall|i: int| 0 <= i < k ==> header@[i] != ',',
        decreases n - k,
    {
        k = k + 1;
    }
    proof {
        lemma_find_comma_is(header@, k as int);
    }
    let seg = header.substring_char(0, k);
    let ghost segv = header@.take(k as int);
    proof {
        assert(seg@ =~= segv);
    }
    let m = k;
    let mut a: usize = 0;
    while a < m && is_ws_char(seg.get_char(a))
        invariant
            0 <= a <= m,
            m == seg@.len(),
            forall|i: int| 0 <= i < a ==> is_ascii_ws(#[trigger] seg@[i]),
        decreases m - a,
    {
        a = a + 1;
    }
    if a == m {
        proof {
            lemma_leading_ws_is(seg@, a as int);
        }
        return String::new();
    }
    let mut b: usize = 0;
    while b < m - a && is_ws_char(seg.get_char(m - 1 - b))
        invariant
            0 <= b <= m - a,
            a < m,
            m == seg@.len(),
            !is_ascii_ws(seg@[a as int]),
            forall|i: int| m - b <= i < m ==> is_ascii_ws(#[trigger] seg@[i]),
        decreases m - a - b,
    {
        b = b + 1;
    }
    proof {
        lemma_leading_ws_is(seg@, a as int);
        if b == m - a {
            assert(is_ascii_ws(seg@[a as int]));
        }
        lemma_trailing_ws_is(seg@, b as int);
    }
    let trimmed = seg.substring_char(a, m - b);
    trimmed.to_owned()
}

/// The client address carried on the outbound request: the first trimmed
/// entry of the forwarded-for header when the deployment trusts it and one
/// is present, otherwise the socket peer address.
pub fn resolve_client_addr(trust_x_forwarded_for: bool, header: Option<&String>, peer: String) -> (r:
    String)
    ensures
        match header {
            Some(h) => r@ == if trust_x_forwarded_for {
                first_forwarded_entry(h@)
            } else {
                peer@
            },
            None => r@ == peer@,
        },
{
    if trust_x_forwarded_for {
        match header {
            Some(h) => first_forwarded_value(h.as_str()),
            None => peer,
        }
    } else {
        peer
    }
}

} // verus!
