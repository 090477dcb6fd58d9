//! EnvelopeScanner: walks the newline-delimited lines of the text-safe
//! prefix, within a fixed budget of leading lines, looking for a JSON header
//! object that carries the destination descriptor under the `dsn` key. The
//! first line that yields a descriptor wins; later lines are never examined.
use vstd::prelude::*;

verus! {

use crate::json::LineScan;
use crate::json::LineScanView;
use crate::json::json_string_lookup;
use crate::json::scan_line_for_key;
use crate::dsn::Descriptor;
use crate::dsn::DescriptorView;
use crate::dsn::descriptor_spec;
use crate::dsn::parse_descriptor;

/// Number of leading lines examined for a destination descriptor.
pub const LINE_BUDGET: usize = 50;

/// Envelope-structure errors; every one fails the whole request.
#[derive(Debug, Clone, Copy, PartialEq, Eq, Structural)]
pub enum BodyError {
    /// The line budget was reached without finding the key.
    LineBudgetExceeded,
    /// A line within the budget is not valid JSON.
    MalformedHeaderLine,
    /// The key is present but its value is not a string.
    KeyPresentButNotString,
    /// The key's string value is not a well-formed descriptor.
    DescriptorUnparseable,
    /// The lines ran out before the budget with no key found.
    KeyAbsent,
    /// The descriptor's project identifier is not in the allow-list.
    ProjectNotAllowed,
}

impl BodyError {
    /// Human-readable description, used as the client-facing response body.
    pub fn message(&self) -> (r: String)
        ensures
            r@ == match self {
                BodyError::LineBudgetExceeded => "No dsn key found in the leading header lines."@,
                BodyError::MalformedHeaderLine => "Failed to parse a header line as json."@,
                BodyError::KeyPresentButNotString => "The dsn value in the header is not a string."@,
                BodyError::DescriptorUnparseable => "Failed to parse dsn value."@,
                BodyError::KeyAbsent => "The dsn key is missing from the header."@,
                BodyError::ProjectNotAllowed => "Unauthorized project ID."@,
            },
    {
        match self {
            BodyError::LineBudgetExceeded => "No dsn key found in the leading header lines.".to_owned(),
            BodyError::MalformedHeaderLine => "Failed to parse a header line as json.".to_owned(),
            BodyError::KeyPresentButNotString => "The dsn value in the header is not a string.".to_owned(),
            BodyError::DescriptorUnparseable => "Failed to parse dsn value.".to_owned(),
            BodyError::KeyAbsent => "The dsn key is missing from the header.".to_owned(),
            BodyError::ProjectNotAllowed => "Unauthorized project ID.".to_owned(),
        }
    }
}

/// The header key whose string value names the destination.
pub open spec fn dsn_key() -> Seq<char> {
    "dsn"@
}

/// Index of the first line break in `s`, or `s.len()` when there is none.
pub open spec fn find_nl(s: Seq<u8>) -> int
    decreases s.len(),
{
    if s.len() == 0 {
        0
    } else if s[0] == 0x0a {
        0
    } else {
        1 + find_nl(s.skip(1))
    }
}

/// `find_nl` points at the first line break, when there is one.
proof fn lemma_find_nl(s: Seq<u8>)
    ensures
        0 <= find_nl(s) <= s.len(),
        find_nl(s) < s.len() ==> s[find_nl(s)] == 0x0a,
        forall|i: int| 0 <= i < find_nl(s) ==> s[i] != 0x0a,
    decreases s.len(),
{
    if s.len() > 0 && s[0] != 0x0a {
        lemma_find_nl(s.skip(1));
        assert forall|i: int| 0 <= i < find_nl(s) implies s[i] != 0x0a by {
            if i > 0 {
                assert(s.skip(1)[i - 1] == s[i]);
            }
        }
        if find_nl(s) < s.len() {
            assert(s.skip(1)[find_nl(s) - 1] == s[find_nl(s)]);
        }
    }
}

/// The characterisation pins `find_nl` down: an index that is a line break
/// preceded by none (or the length, when no break exists) is `find_nl`.
proof fn lemma_find_nl_is(s: Seq<u8>, k: int)
    requires
        0 <= k <= s.len(),
        k < s.len() ==> s[k] == 0x0a,
        forall|i: int| 0 <= i < k ==> s[i] != 0x0a,
    ensures
        find_nl(s) == k,
    decreases s.len(),
{
    if s.len() == 0 {
    } else if s[0] == 0x0a {
        if k > 0 {
            assert(s[0] != 0x0a);
        }
    } else {
        assert(k >= 1) by {
            if k == 0 {
                assert(s[k] == 0x0a);
            }
        }
        assert forall|i: int| 0 <= i < k - 1 implies s.skip(1)[i] != 0x0a by {
            assert(s.skip(1)[i] == s[i + 1]);
        }
        if k - 1 < s.skip(1).len() {
            assert(s.skip(1)[k - 1] == s[k]);
        }
        lemma_find_nl_is(s.skip(1), k - 1);
    }
}

/// A line with a trailing carriage return has it removed.
pub open spec fn strip_cr(s: Seq<u8>) -> Seq<u8> {
    if s.len() > 0 && s.last() == 0x0d {
        s.drop_last()
    } else {
        s
    }
}

/// The newline-delimited lines of `s`, each without its line break and
/// without a carriage return directly before that break; a final line break
/// opens no empty last line, and a final line without a break keeps any
/// trailing carriage return.
pub open spec fn lines_of(s: Seq<u8>) -> Seq<Seq<u8>>
    decreases s.len(),
    via lines_of_decreases
{
    if s.len() == 0 {
        Seq::empty()
    } else {
        let k = find_nl(s);
        if k == s.len() {
            seq![s]
        } else {
            seq![strip_cr(s.take(k))] + lines_of(s.skip(k + 1))
        }
    }
}

#[via_fn]
proof fn lines_of_decreases(s: Seq<u8>) {
    lemma_find_nl(s);
}

/// Lines distribute over concatenation at a line break: the lines of a
/// newline-terminated part followed by anything are the part's lines
/// followed by the rest's lines.
pub proof fn lemma_lines_concat(head: Seq<u8>, tail: Seq<u8>)
    requires
        head.len() > 0,
        head.last() == 0x0a,
    ensures
        lines_of(head + tail) == lines_of(head) + lines_of(tail),
    decreases head.len(),
{
    let s = head + tail;
    lemma_find_nl(head);
    let k = find_nl(head);
    assert(k < head.len());
    assert forall|i: int| 0 <= i < k implies s[i] != 0x0a by {
        assert(s[i] == head[i]);
    }
    assert(s[k] == head[k]);
    lemma_find_nl_is(s, k);
    assert(s.take(k) =~= head.take(k));
    if k + 1 == head.len() {
        reveal_with_fuel(lines_of, 2);
        assert(s.skip(k + 1) =~= tail);
        assert(head.skip(k + 1) =~= Seq::<u8>::empty());
        assert(lines_of(head) =~= seq![strip_cr(head.take(k))]);
        assert(lines_of(s) =~= lines_of(head) + lines_of(tail));
    } else {
        let h2 = head.skip(k + 1);
        assert(h2.len() > 0);
        assert(h2.last() == head.last());
        lemma_lines_concat(h2, tail);
        assert(s.skip(k + 1) =~= h2 + tail);
        assert(lines_of(s) =~= lines_of(head) + lines_of(tail));
    }
}

/// A scan that found a descriptor is unaffected by any lines added after the
/// ones it examined.
pub proof fn lemma_scan_append_keeps_found(
    lines: Seq<Seq<u8>>,
    more: Seq<Seq<u8>>,
    budget: nat,
    d: DescriptorView,
)
    requires
        scan_lines_spec(lines, budget) == Ok::<DescriptorView, BodyError>(d),
    ensures
        scan_lines_spec(lines + more, budget) == Ok::<DescriptorView, BodyError>(d),
    decreases budget,
{
    assert(budget > 0 && lines.len() > 0);
    let s = lines + more;
    assert(s[0] == lines[0]);
    if json_string_lookup(lines[0], dsn_key()) == LineScanView::NoKey {
        lemma_scan_append_keeps_found(lines.skip(1), more, (budget - 1) as nat, d);
        assert(s.skip(1) =~= lines.skip(1) + more);
    }
}

/// Splits the first `end` bytes of `s` into lines, as [`lines_of`] describes.
pub fn split_lines(s: &Vec<u8>, end: usize) -> (r: Vec<Vec<u8>>)
    requires
        end <= s.len(),
    ensures
        r.deep_view() == lines_of(s@.take(end as int)),
{
    let ghost whole = s@.take(end as int);
    let mut out: Vec<Vec<u8>> = Vec::new();
    let mut start: usize = 0;
    proof {
        assert(whole.skip(0) =~= whole);
        assert(out.deep_view() + lines_of(whole) =~= lines_of(whole));
    }
    while start < end
        invariant
            start <= end <= s.len(),
            whole == s@.take(end as int),
            lines_of(whole) == out.deep_view() + lines_of(whole.skip(start as int)),
        decreases end - start,
    {
        let ghost rem = whole.skip(start as int);
        let mut j: usize = start;
        while j < end && s[j] != 0x0a
            invariant
                start <= j <= end <= s.len(),
                whole == s@.take(end as int),
                forall|i: int| start <= i < j ==> whole[i] != 0x0a,
            decreases end - j,
        {
            proof {
                assert(whole[j as int] == s@[j as int]);
            }
            j = j + 1;
        }
        proof {
            assert forall|i: int| 0 <= i < j - start implies rem[i] != 0x0a by {
                assert(rem[i] == whole[start + i]);
            }
            if j < end {
                assert(rem[j - start] == whole[j as int]);
                assert(whole[j as int] == s@[j as int]);
            }
            lemma_find_nl_is(rem, j - start);
        }
        let line_end: usize = if j < end && j > start && s[j - 1] == 0x0d {
            proof {
                assert(whole[j - 1] == s@[j - 1]);
            }
            j - 1
        } else {
            j
        };
        let mut line: Vec<u8> = Vec::new();
        let mut t: usize = start;
        while t < line_end
            invariant
                start <= t <= line_end <= end <= s.len(),
                whole == s@.take(end as int),
                line@ == whole.subrange(start as int, t as int),
            decreases line_end - t,
        {
            line.push(s[t]);
            proof {
                assert(whole[t as int] == s@[t as int]);
                assert(line@ =~= whole.subrange(start as int, t + 1));
            }
            t = t + 1;
        }
        proof {
            if j < end {
                let seg = rem.take(j - start);
                assert(seg =~= whole.subrange(start as int, j as int));
                if line_end < j {
                    assert(seg.last() == whole[j - 1]);
                    assert(line@ =~= seg.drop_last());
                } else {
                    if seg.len() > 0 && seg.last() == 0x0d {
                        assert(whole[j - 1] == s@[j - 1]);
                        assert(false);
                    }
                    assert(line@ =~= seg);
                }
                assert(line@ == strip_cr(seg));
            } else {
                assert(line@ =~= rem);
            }
        }
        let ghost old_out = out.deep_view();
        out.push(line);
        proof {
            assert(line.deep_view() =~= line@);
            assert(out.deep_view() =~= old_out.push(line@));
            if j < end {
                assert(lines_of(rem) == seq![strip_cr(rem.take(j - start))] + lines_of(
                    rem.skip(j - start + 1),
                ));
                assert(rem.skip(j - start + 1) =~= whole.skip(j + 1));
                assert(lines_of(whole) == out.deep_view() + lines_of(whole.skip(j + 1)));
            } else {
                assert(lines_of(rem) == seq![rem]);
                assert(whole.skip(end as int) =~= Seq::<u8>::empty());
                assert(lines_of(whole) =~= out.deep_view() + lines_of(whole.skip(end as int)));
            }
        }
        start = if j < end {
            j + 1
        } else {
            end
        };
    }
    proof {
        assert(whole.skip(start as int) =~= Seq::<u8>::empty());
        assert(lines_of(whole) =~= out.deep_view());
    }
    out
}

/// What scanning a sequence of lines yields, examining at most `budget`
/// lines in order: the first line that is not plain JSON-without-the-key
/// decides. Running out of budget with lines left over is
/// [`BodyError::LineBudgetExceeded`]; running out of lines first is
/// [`BodyError::KeyAbsent`].
pub open spec fn scan_lines_spec(lines: Seq<Seq<u8>>, budget: nat) -> Result<
    DescriptorView,
    BodyError,
>
    decreases budget,
{
    if budget == 0 {
        Err(BodyError::LineBudgetExceeded)
    } else if lines.len() == 0 {
        Err(BodyError::KeyAbsent)
    } else {
        match json_string_lookup(lines[0], dsn_key()) {
            LineScanView::NotJson => Err(BodyError::MalformedHeaderLine),
            LineScanView::KeyNotString => Err(BodyError::KeyPresentButNotString),
            LineScanView::KeyString(v) => match descriptor_spec(v) {
                Some(d) => Ok(d),
                None => Err(BodyError::DescriptorUnparseable),
            },
            LineScanView::NoKey => scan_lines_spec(lines.skip(1), (budget - 1) as nat),
        }
    }
}

/// Scans the given lines for a destination descriptor, examining at most
/// [`LINE_BUDGET`] of them.
pub fn scan_envelope_lines(lines: &Vec<Vec<u8>>) -> (r: Result<Descriptor, BodyError>)
    ensures
        match r {
            Ok(d) => scan_lines_spec(lines.deep_view(), LINE_BUDGET as nat) matches Ok(v) && d@
                == v,
            Err(e) => scan_lines_spec(lines.deep_view(), LINE_BUDGET as nat) == Err::<
                DescriptorView,
                BodyError,
            >(e),
        },
{
    let ghost all = lines.deep_view();
    let mut i: usize = 0;
    proof {
        assert(all.skip(0) =~= all);
    }
    loop
        invariant
            0 <= i <= LINE_BUDGET,
            i <= lines.len(),
            all == lines.deep_view(),
            scan_lines_spec(all, LINE_BUDGET as nat) == scan_lines_spec(
                all.skip(i as int),
                (LINE_BUDGET - i) as nat,
            ),
        decreases LINE_BUDGET - i,
    {
        if i == LINE_BUDGET {
            return Err(BodyError::LineBudgetExceeded);
        }
        if i == lines.len() {
            proof {
                assert(all.skip(i as int).len() == 0);
            }
            return Err(BodyError::KeyAbsent);
        }
        proof {
            assert(all.skip(i as int)[0] == all[i as int]);
            assert(all[i as int] =~= lines@[i as int]@);
        }
        match scan_line_for_key(&lines[i], "dsn") {
            LineScan::NotJson => {
                return Err(BodyError::MalformedHeaderLine);
            },
            LineScan::KeyNotString => {
                return Err(BodyError::KeyPresentButNotString);
            },
            LineScan::KeyString(value) => {
                match parse_descriptor(value.as_str()) {
                    Some(d) => {
                        return Ok(d);
                    },
                    None => {
                        return Err(BodyError::DescriptorUnparseable);
                    },
                }
            },
            LineScan::NoKey => {
                proof {
                    assert(all.skip(i as int).skip(1) =~= all.skip(i + 1));
                }
                i = i + 1;
            },
        }
    }
}

/// The first line that carries the key with a string value denoting a
/// descriptor decides the scan, however the buffer continues after it: every
/// earlier line being JSON without the key, that descriptor is returned.
pub proof fn lemma_scan_finds_first_descriptor(
    lines: Seq<Seq<u8>>,
    i: int,
    budget: nat,
    value: Seq<char>,
    d: DescriptorView,
)
    requires
        0 <= i < budget,
        i < lines.len(),
        forall|j: int| 0 <= j < i ==> json_string_lookup(#[trigger] lines[j], dsn_key())
            == LineScanView::NoKey,
        json_string_lookup(lines[i], dsn_key()) == LineScanView::KeyString(value),
        descriptor_spec(value) == Some(d),
    ensures
        scan_lines_spec(lines, budget) == Ok::<DescriptorView, BodyError>(d),
    decreases i,
{
    if i == 0 {
    } else {
        assert(json_string_lookup(lines[0], dsn_key()) == LineScanView::NoKey);
        assert forall|j: int| 0 <= j < i - 1 implies json_string_lookup(
            #[trigger] lines.skip(1)[j],
            dsn_key(),
        ) == LineScanView::NoKey by {
            assert(lines.skip(1)[j] == lines[j + 1]);
        }
        assert(lines.skip(1)[i - 1] == lines[i]);
        lemma_scan_finds_first_descriptor(lines.skip(1), i - 1, (budget - 1) as nat, value, d);
    }
}

/// A key on a line past the budget is never reached: when none of the
/// examined lines carries the key, the scan fails.
pub proof fn lemma_scan_budget_is_hard(lines: Seq<Seq<u8>>, budget: nat)
    requires
        forall|j: int| 0 <= j < budget && j < lines.len() ==> (json_string_lookup(
            #[trigger] lines[j],
            dsn_key(),
        ) == LineScanView::NoKey || json_string_lookup(lines[j], dsn_key())
            == LineScanView::NotJson),
    ensures
        scan_lines_spec(lines, budget) is Err,
    decreases budget,
{
    if budget != 0 && lines.len() != 0 {
        if json_string_lookup(lines[0], dsn_key()) == LineScanView::NoKey {
            assert forall|j: int| 0 <= j < budget - 1 && j < lines.skip(1).len() implies (
            json_string_lookup(#[trigger] lines.skip(1)[j], dsn_key()) == LineScanView::NoKey
                || json_string_lookup(lines.skip(1)[j], dsn_key())
                == LineScanView::NotJson) by {
                assert(lines.skip(1)[j] == lines[j + 1]);
            }
            lemma_scan_budget_is_hard(lines.skip(1), (budget - 1) as nat);
        }
    }
}

} // verus!
