//! Filesystem-friendly identifiers derived from report titles and RFC 3339
//! timestamps, for naming exported artifacts.

use vstd::prelude::*;

verus! {

/// One report selected for a bundled export.
#[derive(Clone, Debug, PartialEq)]
pub struct ExportBundleItemV1 {
    pub report_id: i64,
    /// Optional base64 PDF (raw base64 or data URL).
    pub pdf_base64: Option<String>,
}

/// Relies on String's FromIterator impl: collecting a sequence of chars
/// yields the string of exactly those chars, in order.
#[verifier::external_body]
fn chars_to_string(v: Vec<char>) -> (r: String)
    ensures
        r@ == v@,
{
    v.into_iter().collect()
}

/// ASCII letters and digits keep their identity; every other character
/// (including spaces and dashes) becomes an underscore.
pub open spec fn spec_slug_char(c: char) -> char {
    if ('a' <= c && c <= 'z') || ('A' <= c && c <= 'Z') || ('0' <= c && c <= '9') {
        c
    } else {
        '_'
    }
}

/// The mapped prefix a slug is built from: up to `max_len` characters, but
/// always at least one when the input is non-empty.
pub open spec fn spec_slug_kept(s: Seq<char>, max_len: int) -> Seq<char> {
    let cap = if max_len < 1 {
        1
    } else {
        max_len
    };
    let take_n = if s.len() <= cap {
        s.len() as int
    } else {
        cap
    };
    s.take(take_n).map_values(|c: char| spec_slug_char(c))
}

/// Leading underscores removed.
pub open spec fn spec_drop_lead(s: Seq<char>) -> Seq<char>
    decreases s.len(),
{
    if s.len() > 0 && s[0] == '_' {
        spec_drop_lead(s.drop_first())
    } else {
        s
    }
}

/// Trailing underscores removed.
pub open spec fn spec_drop_trail(s: Seq<char>) -> Seq<char>
    decreases s.len(),
{
    if s.len() > 0 && s.last() == '_' {
        spec_drop_trail(s.drop_last())
    } else {
        s
    }
}

/// The slug of a title: characters mapped to a safe alphabet, truncated,
/// trimmed of underscores at both ends, with "report" standing in when
/// nothing is left.
pub open spec fn spec_safe_slug(s: Seq<char>, max_len: int) -> Seq<char> {
    let t = spec_drop_trail(spec_drop_lead(spec_slug_kept(s, max_len)));
    if t.len() == 0 {
        "report"@
    } else {
        t
    }
}

proof fn lemma_drop_lead_at(s: Seq<char>, k: int)
    requires
        0 <= k <= s.len(),
        forall|t: int| 0 <= t < k ==> s[t] == '_',
        k == s.len() || s[k] != '_',
    ensures
        spec_drop_lead(s) == s.skip(k),
    decreases k,
{
    if k == 0 {
        assert(s.skip(0) =~= s);
    } else {
        assert(s[0] == '_');
        assert(forall|t: int| 0 <= t < k - 1 ==> s.drop_first()[t] == '_');
        assert(k - 1 == s.drop_first().len() || s.drop_first()[k - 1] != '_');
        lemma_drop_lead_at(s.drop_first(), k - 1);
        assert(s.drop_first().skip(k - 1) =~= s.skip(k));
    }
}

proof fn lemma_drop_trail_at(s: Seq<char>, j: int)
    requires
        0 <= j <= s.len(),
        forall|t: int| j <= t < s.len() ==> s[t] == '_',
        j == 0 || s[j - 1] != '_',
    ensures
        spec_drop_trail(s) == s.take(j),
    decreases s.len() - j,
{
    if j == s.len() {
        if s.len() > 0 && s.last() == '_' {
            assert(forall|t: int| j - 1 <= t < s.drop_last().len() ==> s.drop_last()[t] == '_');
            lemma_drop_trail_at(s.drop_last(), j - 1);
            assert(s.drop_last().take(j - 1) =~= s.take(j - 1));
            assert(s[j - 1] != '_');
            assert(false);
        } else {
            assert(s.take(j) =~= s);
        }
    } else {
        assert(s.last() == '_');
        assert(forall|t: int| j <= t < s.drop_last().len() ==> s.drop_last()[t] == '_');
        lemma_drop_trail_at(s.drop_last(), j);
        assert(s.drop_last().take(j) =~= s.take(j));
    }
}

/// A filesystem-friendly slug of a title: safe alphabet, bounded length,
/// trimmed, never empty.
pub fn safe_slug(s: &str, max_len: usize) -> (r: String)
    ensures
        r@ == spec_safe_slug(s@, max_len as int),
{
    let n = s.unicode_len();
    let cap: usize = if max_len < 1 {
        1
    } else {
        max_len
    };
    let take_n: usize = if n <= cap {
        n
    } else {
        cap
    };
    let mut kept: Vec<char> = Vec::new();
    let mut i: usize = 0;
    while i < take_n
        invariant
            n == s@.len(),
            take_n <= n,
            0 <= i <= take_n,
            kept@.len() == i,
            forall|t: int| 0 <= t < i ==> (#[trigger] kept@[t]) == spec_slug_char(s@[t]),
        decreases take_n - i,
    {
        let c = s.get_char(i);
        let mapped: char = if ('a' <= c && c <= 'z') || ('A' <= c && c <= 'Z') || ('0' <= c && c
            <= '9') {
            c
        } else {
            '_'
        };
        kept.push(mapped);
        i = i + 1;
    }
    proof {
        assert(kept@ =~= spec_slug_kept(s@, max_len as int));
    }
    let klen = kept.len();
    let mut start: usize = 0;
    while start < klen && kept[start] == '_'
        invariant
            klen == kept@.len(),
            0 <= start <= klen,
            forall|t: int| 0 <= t < start ==> kept@[t] == '_',
        decreases klen - start,
    {
        start = start + 1;
    }
    let mut end: usize = klen;
    while end > start && kept[end - 1] == '_'
        invariant
            klen == kept@.len(),
            start <= end <= klen,
            forall|t: int| end <= t < klen ==> kept@[t] == '_',
            forall|t: int| 0 <= t < start ==> kept@[t] == '_',
            start == klen || kept@[start as int] != '_',
        decreases end,
    {
        end = end - 1;
    }
    proof {
        lemma_drop_lead_at(kept@, start as int);
        let tail = kept@.skip(start as int);
        assert(forall|t: int| end - start <= t < tail.len() ==> tail[t] == '_');
        if end > start {
            assert(tail[end - start - 1] == kept@[end - 1]);
        }
        lemma_drop_trail_at(tail, end - start);
    }
    if end == start {
        proof {
            reveal_strlit("report");
        }
        return String::from_str("report");
    }
    let mut out: Vec<char> = Vec::new();
    let mut i: usize = start;
    while i < end
        invariant
            klen == kept@.len(),
            start <= i <= end <= klen,
            out@.len() == i - start,
            forall|t: int| 0 <= t < i - start ==> (#[trigger] out@[t]) == kept@[start + t],
        decreases end - i,
    {
        out.push(kept[i]);
        i = i + 1;
    }
    proof {
        assert(out@ =~= kept@.skip(start as int).take(end - start as int));
    }
    chars_to_string(out)
}

/// Whether a character survives into a compact time identifier.
pub open spec fn spec_keep_time_char(c: char) -> bool {
    ('0' <= c && c <= '9') || c == 'T' || c == 'Z'
}

/// The kept characters of a timestamp string, in order.
pub open spec fn spec_time_kept(s: Seq<char>) -> Seq<char>
    decreases s.len(),
{
    if s.len() == 0 {
        Seq::<char>::empty()
    } else {
        let r = spec_time_kept(s.drop_last());
        if spec_keep_time_char(s.last()) {
            r.push(s.last())
        } else {
            r
        }
    }
}

/// The compact identifier of a timestamp: digits plus 'T' and 'Z', or
/// "unknown_time" when nothing survives. Turns
/// "2025-12-19T13:45:02.123Z" into "20251219T134502123Z".
pub open spec fn spec_compact_time_id(s: Seq<char>) -> Seq<char> {
    let t = spec_time_kept(s);
    if t.len() == 0 {
        "unknown_time"@
    } else {
        t
    }
}

/// A stable, filesystem-friendly identifier for a timestamp string.
pub fn compact_time_id(s: &str) -> (r: String)
    ensures
        r@ == spec_compact_time_id(s@),
{
    let n = s.unicode_len();
    let mut out: Vec<char> = Vec::new();
    let mut i: usize = 0;
    proof {
        assert(s@.take(0) =~= Seq::<char>::empty());
    }
    while i < n
        invariant
            n == s@.len(),
            0 <= i <= n,
            out@ == spec_time_kept(s@.take(i as int)),
        decreases n - i,
    {
        let c = s.get_char(i);
        proof {
            assert(s@.take(i + 1).drop_last() =~= s@.take(i as int));
            assert(s@.take(i + 1).last() == s@[i as int]);
        }
        if ('0' <= c && c <= '9') || c == 'T' || c == 'Z' {
            out.push(c);
        }
        i = i + 1;
    }
    proof {
        assert(s@.take(n as int) =~= s@);
    }
    if out.len() == 0 {
        proof {
            reveal_strlit("unknown_time");
        }
        return String::from_str("unknown_time");
    }
    chars_to_string(out)
}

} // verus!
