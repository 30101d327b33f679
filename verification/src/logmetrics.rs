//! Named metrics extracted from console-log lines: a configured pattern's
//! first capture group is parsed as a decimal number and recorded as a custom
//! metric against the configured or the logging process.

use vstd::prelude::*;
use crate::models::LogMetricConfig;
use crate::fusion::{CollectionState, IngestOutcome};

verus! {

/// Declares regex::Regex so compiled patterns can live in fields and cross
/// the wrappers below; its values stay opaque.
#[verifier::external_type_specification]
#[verifier::external_body]
pub struct ExRegex(regex::Regex);

/// Relies on regex::Regex::new: compiles a pattern, or reports it invalid.
#[verifier::external_body]
fn regex_new(pattern: &str) -> (r: Option<regex::Regex>)
{
    regex::Regex::new(pattern).ok()
}

/// Relies on regex::Regex::captures and Captures::get: the first capture
/// group of the leftmost match, a substring of the haystack (so never longer
/// than it).
#[verifier::external_body]
fn regex_capture_group1(re: &regex::Regex, text: &str) -> (r: Option<String>)
    ensures
        r matches Some(s) ==> s@.len() <= text@.len(),
{
    re.captures(text).and_then(|c| c.get(1)).map(|m| m.as_str().to_string())
}

/// A log-metric pattern compiled for matching.
pub struct CompiledLogMetric {
    pub config: LogMetricConfig,
    pub regex: regex::Regex,
}

/// Compile the configured patterns, dropping any whose pattern is invalid:
/// every kept entry carries one of the given configurations, unchanged.
pub fn compile_log_metrics(configs: Vec<LogMetricConfig>) -> (r: Vec<CompiledLogMetric>)
    ensures
        r@.len() <= configs@.len(),
        forall|k: int|
            0 <= k < r@.len() ==> exists|j: int|
                0 <= j < configs@.len() && (#[trigger] r@[k]).config == configs@[j],
{
    let ghost orig = configs@;
    let mut rest = configs;
    let mut out: Vec<CompiledLogMetric> = Vec::new();
    let ghost mut done: int = 0;
    while rest.len() > 0
        invariant
            done + rest@.len() == orig.len(),
            0 <= done,
            rest@ == orig.skip(done),
            out@.len() <= done,
            forall|k: int|
                0 <= k < out@.len() ==> exists|j: int|
                    0 <= j < orig.len() && (#[trigger] out@[k]).config == orig[j],
        decreases rest@.len(),
    {
        let cfg = rest.remove(0);
        proof {
            assert(cfg == orig[done]);
            assert(rest@ =~= orig.skip(done + 1));
            done = done + 1;
        }
        match regex_new(cfg.pattern.as_str()) {
            Some(re) => {
                out.push(CompiledLogMetric { config: cfg, regex: re });
            },
            None => {},
        }
    }
    proof {
        assert forall|k: int| 0 <= k < out@.len() implies exists|j: int|
            0 <= j < configs@.len() && (#[trigger] out@[k]).config == configs@[j] by {
            let j = choose|j: int| 0 <= j < orig.len() && (#[trigger] out@[k]).config == orig[j];
            assert(0 <= j < configs@.len() && out@[k].config == configs@[j]);
        }
    }
    out
}

// ---------------------------------------------------------------------------
// Decimal parsing
// ---------------------------------------------------------------------------

pub open spec fn spec_is_digit(c: char) -> bool {
    '0' <= c && c <= '9'
}

pub open spec fn spec_all_digits(s: Seq<char>) -> bool {
    forall|i: int| 0 <= i < s.len() ==> spec_is_digit(#[trigger] s[i])
}

/// The value of a digit string, most significant digit first.
pub open spec fn spec_digits_val(s: Seq<char>) -> int
    decreases s.len(),
{
    if s.len() == 0 {
        0
    } else {
        spec_digits_val(s.drop_last()) * 10 + (s.last() as int - 48)
    }
}

pub open spec fn spec_pow10(n: int) -> int
    decreases n,
{
    if n <= 0 {
        1
    } else {
        10 * spec_pow10(n - 1)
    }
}

/// First index of `c`, or the length when absent.
pub open spec fn spec_find_char(s: Seq<char>, c: char) -> int
    decreases s.len(),
{
    if s.len() == 0 {
        0
    } else if s[0] == c {
        0
    } else {
        1 + spec_find_char(s.drop_first(), c)
    }
}

/// A decimal number parsed to milli-units (truncated beyond three fractional
/// digits, toward zero): an optional minus sign, at least one and at most
/// fifteen integer digits, and an optional fraction after a dot. Anything
/// else is rejected.
pub open spec fn spec_parse_decimal_milli(s: Seq<char>) -> Option<i64> {
    let neg = s.len() > 0 && s[0] == '-';
    let body = if neg {
        s.drop_first()
    } else {
        s
    };
    let dot = spec_find_char(body, '.');
    let ip = body.take(dot);
    let fp = if dot < body.len() {
        body.skip(dot + 1)
    } else {
        Seq::<char>::empty()
    };
    if ip.len() == 0 || ip.len() > 15 || !spec_all_digits(ip) || !spec_all_digits(fp) {
        None
    } else {
        let f3 = if fp.len() >= 3 {
            fp.take(3)
        } else {
            fp
        };
        let fval = spec_digits_val(f3) * spec_pow10(3 - f3.len());
        let m = spec_digits_val(ip) * 1000 + fval;
        Some(
            if neg {
                (-m) as i64
            } else {
                m as i64
            },
        )
    }
}

proof fn lemma_digits_val_bound(s: Seq<char>)
    requires
        spec_all_digits(s),
    ensures
        0 <= spec_digits_val(s) < spec_pow10(s.len() as int),
    decreases s.len(),
{
    if s.len() > 0 {
        assert(spec_all_digits(s.drop_last()));
        lemma_digits_val_bound(s.drop_last());
        assert(spec_is_digit(s.last()));
        assert(spec_pow10(s.len() as int) == 10 * spec_pow10(s.len() - 1));
    }
}

proof fn lemma_pow10_le(a: int, b: int)
    requires
        a <= b,
    ensures
        spec_pow10(a) <= spec_pow10(b),
    decreases b - a,
{
    if a < b && b > 0 {
        lemma_pow10_le(a, b - 1);
        assert(spec_pow10(b) == 10 * spec_pow10(b - 1));
        assert(spec_pow10(b - 1) >= 1) by {
            lemma_pow10_pos(b - 1);
        }
    }
}

proof fn lemma_pow10_pos(n: int)
    ensures
        spec_pow10(n) >= 1,
    decreases n,
{
    if n > 0 {
        lemma_pow10_pos(n - 1);
    }
}

proof fn lemma_find_char_at(s: Seq<char>, c: char, k: int)
    requires
        0 <= k <= s.len(),
        forall|t: int| 0 <= t < k ==> s[t] != c,
        k == s.len() || s[k] == c,
    ensures
        spec_find_char(s, c) == k,
    decreases k, s.len(),
{
    if s.len() == 0 {
    } else if k == 0 {
    } else {
        assert(s[0] != c);
        assert(forall|t: int| 0 <= t < k - 1 ==> s.drop_first()[t] != c);
        assert(k - 1 == s.drop_first().len() || s.drop_first()[k - 1] == c);
        lemma_find_char_at(s.drop_first(), c, k - 1);
    }
}

proof fn lemma_digits_val_take(s: Seq<char>, i: int)
    requires
        0 <= i < s.len(),
    ensures
        spec_digits_val(s.take(i + 1)) == spec_digits_val(s.take(i)) * 10 + (s[i] as int - 48),
{
    assert(s.take(i + 1).drop_last() =~= s.take(i));
    assert(s.take(i + 1).last() == s[i]);
}

fn char_is_digit(c: char) -> (r: bool)
    ensures
        r == spec_is_digit(c),
{
    '0' <= c && c <= '9'
}

/// Parse a decimal number to milli-units (executable twin of
/// [`spec_parse_decimal_milli`]).
#[verifier::loop_isolation(false)]
#[verifier::rlimit(60)]
pub fn parse_decimal_milli(s: &str) -> (r: Option<i64>)
    ensures
        r == spec_parse_decimal_milli(s@),
{
    let n = s.unicode_len();
    let neg = n > 0 && s.get_char(0) == '-';
    let start: usize = if neg {
        1
    } else {
        0
    };
    let ghost body = if neg {
        s@.drop_first()
    } else {
        s@
    };
    proof {
        assert(body.len() == n - start);
        assert(forall|t: int| 0 <= t < body.len() ==> body[t] == s@[t + start]);
    }
    // integer part
    let mut i: usize = start;
    let mut whole: u64 = 0;
    proof {
        assert(body.take(0) =~= Seq::<char>::empty());
    }
    while i < n && char_is_digit(s.get_char(i))
        invariant
            start <= i <= n,
            i - start <= 15,
            forall|t: int| 0 <= t < i - start ==> spec_is_digit(#[trigger] body[t]),
            whole as int == spec_digits_val(body.take(i - start)),
            (whole as int) < spec_pow10(i - start),
        decreases n - i,
    {
        if i - start >= 15 {
            // too many integer digits: the spec rejects such input, but only
            // after seeing where the digits end; scan forward to decide
            return parse_reject_long(s, neg, start, i);
        }
        let c = s.get_char(i);
        let d: u64 = (c as u32 as u64) - 48;
        proof {
            lemma_digits_val_take(body, i - start);
            assert(body[i - start] == s@[i as int]);
            lemma_pow10_le(i - start + 1, 15);
            reveal_with_fuel(spec_pow10, 17);
            assert(spec_pow10(15) == 1_000_000_000_000_000);
        }
        whole = whole * 10 + d;
        i = i + 1;
    }
    let int_len = i - start;
    if int_len == 0 {
        proof {
            if body.len() > 0 && spec_is_digit(body[0]) {
                assert(false);
            }
            lemma_reject_no_digits(body);
        }
        return None;
    }
    // fraction
    let mut frac: u64 = 0;
    let mut fcount: usize = 0;
    let has_dot = i < n && s.get_char(i) == '.';
    let ghost dot = i - start;
    proof {
        assert forall|t: int| 0 <= t < i - start implies body[t] != '.' by {
            assert(spec_is_digit(body[t]));
        }
        if has_dot {
            assert(body[i - start] == s@[i as int]);
            lemma_find_char_at(body, '.', i - start);
        } else if i == n {
            lemma_find_char_at(body, '.', i - start);
        }
    }
    if has_dot {
        let fstart = i + 1;
        let mut j: usize = fstart;
        let ghost fp = body.skip(dot + 1);
        proof {
            assert(fp.len() == n - fstart);
            assert(forall|t: int| 0 <= t < fp.len() ==> fp[t] == s@[t + fstart]);
            assert(fp.take(0) =~= Seq::<char>::empty());
        }
        while j < n && char_is_digit(s.get_char(j))
            invariant
                fstart <= j <= n,
                forall|t: int| 0 <= t < j - fstart ==> spec_is_digit(#[trigger] fp[t]),
                fcount == j - fstart,
                frac as int == spec_digits_val(
                    fp.take(if fcount >= 3 { 3int } else { fcount as int }),
                ),
                frac < 1000,
            decreases n - j,
        {
            let c = s.get_char(j);
            let d: u64 = (c as u32 as u64) - 48;
            proof {
                assert(fp[j - fstart] == s@[j as int]);
                if j - fstart < 3 {
                    lemma_digits_val_take(fp, j - fstart);
                    lemma_digits_val_bound(fp.take(j - fstart + 1));
                    lemma_pow10_le(j - fstart + 1, 3);
                    reveal_with_fuel(spec_pow10, 5);
                    assert(spec_pow10(3) == 1000);
                } else {
                    assert(fp.take(3) =~= fp.take(3));
                }
            }
            if fcount < 3 {
                frac = frac * 10 + d;
            }
            fcount = fcount + 1;
            j = j + 1;
        }
        if j < n {
            // trailing non-digit after the fraction
            proof {
                assert(fp[j - fstart] == s@[j as int]);
                assert(!spec_is_digit(fp[j - fstart]));
                assert(!spec_all_digits(fp));
            }
            return None;
        }
        proof {
            assert(fp.take(fp.len() as int) =~= fp);
            assert(spec_all_digits(fp));
        }
        let ghost f3 = if fp.len() >= 3 {
            fp.take(3)
        } else {
            fp
        };
        // pad the fraction to three digits
        let pad: usize = if fcount >= 3 {
            0
        } else {
            3 - fcount
        };
        let mut p: usize = 0;
        while p < pad
            invariant
                0 <= p <= pad,
                pad <= 3,
                frac < 1000,
                frac as int == spec_digits_val(f3) * spec_pow10(p as int),
            decreases pad - p,
        {
            proof {
                lemma_digits_val_bound(f3);
                reveal_with_fuel(spec_pow10, 5);
                assert(spec_pow10(3) == 1000);
                lemma_pow10_le(f3.len() as int + p + 1, 3);
                assert((spec_digits_val(f3) * spec_pow10(p as int)) * 10 == spec_digits_val(f3)
                    * spec_pow10(p + 1)) by (nonlinear_arith);
                lemma_pow10_pos(p + 1);
                assert(spec_digits_val(f3) * spec_pow10(p + 1) < spec_pow10(
                    f3.len() as int,
                ) * spec_pow10(p + 1)) by (nonlinear_arith)
                    requires
                        spec_digits_val(f3) < spec_pow10(f3.len() as int),
                        spec_pow10(p + 1) >= 1,
                ;
                lemma_pow10_mul(f3.len() as int, p + 1);
            }
            frac = frac * 10;
            p = p + 1;
        }
        proof {
            assert(frac as int == spec_digits_val(f3) * spec_pow10(3 - f3.len()));
        }
    } else {
        if i < n {
            // trailing garbage that is neither digit nor dot
            proof {
                assert(body[i - start] == s@[i as int]);
                assert(!spec_is_digit(body[i - start]) && body[i - start] != '.');
                lemma_reject_garbage(body, i - start);
                let d = spec_find_char(body, '.');
                lemma_find_char_props(body, '.');
                assert(d > i - start);
                assert(body.take(d)[i - start] == body[i - start]);
                assert(!spec_all_digits(body.take(d)));
            }
            return None;
        }
        proof {
            assert(3 - Seq::<char>::empty().len() == 3);
            assert(spec_digits_val(Seq::<char>::empty()) == 0);
        }
    }
    proof {
        reveal_with_fuel(spec_pow10, 17);
        assert(spec_pow10(15) == 1_000_000_000_000_000);
        lemma_pow10_le(int_len as int, 15);
        assert(body.take(dot) =~= body.take(int_len as int));
    }
    let m: u64 = whole * 1000 + frac;
    if neg {
        Some(-(m as i64))
    } else {
        Some(m as i64)
    }
}

/// Multiplying powers of ten adds the exponents.
proof fn lemma_pow10_mul(a: int, b: int)
    requires
        a >= 0,
        b >= 0,
    ensures
        spec_pow10(a) * spec_pow10(b) == spec_pow10(a + b),
    decreases b,
{
    if b == 0 {
        assert(spec_pow10(a) * 1 == spec_pow10(a));
    } else {
        lemma_pow10_mul(a, b - 1);
        assert(spec_pow10(a) * spec_pow10(b) == spec_pow10(a) * (10 * spec_pow10(b - 1)));
        assert(spec_pow10(a) * (10 * spec_pow10(b - 1)) == 10 * (spec_pow10(a) * spec_pow10(
            b - 1,
        ))) by (nonlinear_arith);
    }
}

/// A body that does not start with a digit parses to nothing.
proof fn lemma_reject_no_digits(body: Seq<char>)
    requires
        body.len() == 0 || !spec_is_digit(body[0]),
    ensures
        spec_find_char(body, '.') == 0 || !spec_all_digits(body.take(spec_find_char(body, '.'))),
{
    let d = spec_find_char(body, '.');
    lemma_find_char_props(body, '.');
    if body.len() > 0 && d != 0 {
        assert(d >= 1);
        assert(body.take(d).len() == d);
        assert(body.take(d)[0] == body[0]);
        assert(!spec_is_digit(body.take(d)[0]));
        assert(!spec_all_digits(body.take(d)));
    }
}

/// A non-digit, non-dot character right after the integer digits makes the
/// dot-free split reject.
proof fn lemma_reject_garbage(body: Seq<char>, k: int)
    requires
        0 <= k < body.len(),
        !spec_is_digit(body[k]),
        body[k] != '.',
        forall|t: int| 0 <= t < k ==> body[t] != '.',
    ensures
        spec_find_char(body, '.') == k ==> false,
        !(spec_find_char(body, '.') <= k),
{
    lemma_find_char_props(body, '.');
    let d = spec_find_char(body, '.');
    if d < body.len() {
        assert(body[d] == '.');
        if d <= k {
            if d < k {
                assert(body[d] != '.');
            }
            assert(false);
        }
    } else {
        assert(d == body.len());
    }
}

proof fn lemma_find_char_props(s: Seq<char>, c: char)
    ensures
        0 <= spec_find_char(s, c) <= s.len(),
        spec_find_char(s, c) < s.len() ==> s[spec_find_char(s, c)] == c,
        forall|t: int| 0 <= t < spec_find_char(s, c) ==> s[t] != c,
    decreases s.len(),
{
    if s.len() > 0 && s[0] != c {
        lemma_find_char_props(s.drop_first(), c);
        assert forall|t: int| 0 <= t < spec_find_char(s, c) implies s[t] != c by {
            if t > 0 {
                assert(s.drop_first()[t - 1] == s[t]);
            }
        }
        if spec_find_char(s, c) < s.len() {
            assert(s.drop_first()[spec_find_char(s.drop_first(), c)] == s[spec_find_char(s, c)]);
        }
    }
}

/// The input after the optional minus sign.
pub open spec fn spec_parse_body(s: Seq<char>, neg: bool) -> Seq<char> {
    if neg {
        s.drop_first()
    } else {
        s
    }
}

/// Reject an input whose integer part has more than fifteen digits; the rest
/// of the input no longer matters for the result.
fn parse_reject_long(s: &str, neg: bool, start: usize, i: usize) -> (r: Option<i64>)
    requires
        start <= i <= s@.len(),
        start == if neg {
            1int
        } else {
            0int
        },
        neg ==> s@.len() > 0 && s@[0] == '-',
        !neg ==> !(s@.len() > 0 && s@[0] == '-'),
        i - start == 15,
        forall|t: int|
            0 <= t < i - start ==> spec_is_digit(
                #[trigger] spec_parse_body(s@, neg)[t],
            ),
        spec_is_digit(spec_parse_body(s@, neg)[i - start]),
        i < s@.len(),
    ensures
        r == spec_parse_decimal_milli(s@),
{
    let ghost body = if neg {
        s@.drop_first()
    } else {
        s@
    };
    proof {
        lemma_find_char_props(body, '.');
        let d = spec_find_char(body, '.');
        // every position up to and including i - start is a digit, so the dot
        // (if any) comes later and the integer part is longer than 15
        if d <= i - start {
            if d < body.len() {
                assert(body[d] == '.');
                assert(spec_is_digit(body[d]));
                assert(false);
            } else {
                assert(d == body.len());
                assert(d > i - start);
            }
        }
        assert(body.take(d).len() > 15);
    }
    None
}

// ---------------------------------------------------------------------------
// Extraction
// ---------------------------------------------------------------------------

/// Extract a metric from one log line with one compiled pattern: the first
/// capture group parsed as a decimal, attributed to the configured process id
/// when one is set, else to the process that logged the line.
pub fn extract_log_metric(m: &CompiledLogMetric, content: &str, log_pid: u32) -> (r: Option<
    (u32, i64)>)
    ensures
        r matches Some(hit) ==> hit.0 == (match m.config.target_pid {
            Some(p) => p,
            None => log_pid,
        }),
{
    match regex_capture_group1(&m.regex, content) {
        Some(captured) => {
            match parse_decimal_milli(captured.as_str()) {
                Some(v) => {
                    let pid = match m.config.target_pid {
                        Some(p) => p,
                        None => log_pid,
                    };
                    Some((pid, v))
                },
                None => None,
            }
        },
        None => None,
    }
}

/// Run every compiled pattern over one console-log line, recording each hit
/// as a custom metric through the session's ingestion path.
pub fn process_console_log(
    state: &mut CollectionState,
    metrics: &Vec<CompiledLogMetric>,
    content: &str,
    log_pid: u32,
    timestamp_ms: i64,
) -> (r: usize)
    requires
        old(state).wf(),
    ensures
        final(state).wf(),
        final(state).running == old(state).running,
        final(state).browser_mode == old(state).browser_mode,
        r <= metrics@.len(),
{
    let n = metrics.len();
    let mut hits: usize = 0;
    let mut i: usize = 0;
    while i < n
        invariant
            n == metrics@.len(),
            0 <= i <= n,
            hits <= i,
            state.wf(),
            state.running == old(state).running,
            state.browser_mode == old(state).browser_mode,
        decreases n - i,
    {
        match extract_log_metric(&metrics[i], content, log_pid) {
            Some(hit) => {
                let name = metrics[i].config.name.clone();
                let _ = state.push_custom_metric(hit.0, timestamp_ms, name, hit.1);
                hits = hits + 1;
            },
            None => {},
        }
        i = i + 1;
    }
    hits
}

} // verus!
