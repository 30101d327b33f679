//! Small verified text helpers: decimal rendering for insight messages, and
//! filesystem-friendly identifiers derived from titles and timestamps.

use vstd::prelude::*;
use vstd::string::StringSliceAdditionalSpecFns;

verus! {

/// The decimal digit character for `d` (0 ≤ d ≤ 9).
pub open spec fn spec_digit_char(d: int) -> char {
    if d == 0 {
        '0'
    } else if d == 1 {
        '1'
    } else if d == 2 {
        '2'
    } else if d == 3 {
        '3'
    } else if d == 4 {
        '4'
    } else if d == 5 {
        '5'
    } else if d == 6 {
        '6'
    } else if d == 7 {
        '7'
    } else if d == 8 {
        '8'
    } else {
        '9'
    }
}

/// Decimal digits of a non-negative number, most significant first.
pub open spec fn spec_dec_str(n: int) -> Seq<char>
    decreases n,
{
    if n < 10 {
        seq![spec_digit_char(n)]
    } else {
        spec_dec_str(n / 10).push(spec_digit_char(n % 10))
    }
}

/// One-character string for a single decimal digit.
pub fn digit_str(d: u64) -> (r: &'static str)
    requires
        d < 10,
    ensures
        r@ =~= seq![spec_digit_char(d as int)],
{
    match d {
        0 => {
            proof {
                reveal_strlit("0");
            }
            "0"
        },
        1 => {
            proof {
                reveal_strlit("1");
            }
            "1"
        },
        2 => {
            proof {
                reveal_strlit("2");
            }
            "2"
        },
        3 => {
            proof {
                reveal_strlit("3");
            }
            "3"
        },
        4 => {
            proof {
                reveal_strlit("4");
            }
            "4"
        },
        5 => {
            proof {
                reveal_strlit("5");
            }
            "5"
        },
        6 => {
            proof {
                reveal_strlit("6");
            }
            "6"
        },
        7 => {
            proof {
                reveal_strlit("7");
            }
            "7"
        },
        8 => {
            proof {
                reveal_strlit("8");
            }
            "8"
        },
        _ => {
            proof {
                reveal_strlit("9");
            }
            "9"
        },
    }
}

/// Render a number in decimal.
pub fn dec_string(n: u64) -> (r: String)
    ensures
        r@ =~= spec_dec_str(n as int),
    decreases n,
{
    if n < 10 {
        String::from_str(digit_str(n))
    } else {
        let mut s = dec_string(n / 10);
        s.append(digit_str(n % 10));
        proof {
            assert(spec_dec_str((n / 10) as int).push(spec_digit_char((n % 10) as int)) =~= spec_dec_str(
                (n / 10) as int,
            ) + seq![spec_digit_char((n % 10) as int)]);
        }
        s
    }
}

/// `m` milli-units rendered with one decimal place, rounding half up
/// (`40000` renders as `40.0`).
pub open spec fn spec_fmt_one_dec(m: int) -> Seq<char> {
    let r = (m + 50) / 100;
    spec_dec_str(r / 10) + seq!['.'] + seq![spec_digit_char(r % 10)]
}

pub fn fmt_one_dec(m: u64) -> (r: String)
    requires
        m <= u64::MAX - 50,
    ensures
        r@ =~= spec_fmt_one_dec(m as int),
{
    let v = (m + 50) / 100;
    let mut s = dec_string(v / 10);
    proof {
        reveal_strlit(".");
    }
    s.append(".");
    s.append(digit_str(v % 10));
    s
}

/// `m` milli-units rendered with two decimal places, rounding half up
/// (`150000` renders as `150.00`).
pub open spec fn spec_fmt_two_dec(m: int) -> Seq<char> {
    let r = (m + 5) / 10;
    spec_dec_str(r / 100) + seq!['.'] + seq![spec_digit_char((r % 100) / 10)] + seq![
        spec_digit_char(r % 10),
    ]
}

pub fn fmt_two_dec(m: u64) -> (r: String)
    requires
        m <= u64::MAX - 5,
    ensures
        r@ =~= spec_fmt_two_dec(m as int),
{
    let v = (m + 5) / 10;
    let mut s = dec_string(v / 100);
    proof {
        reveal_strlit(".");
    }
    s.append(".");
    s.append(digit_str((v % 100) / 10));
    s.append(digit_str(v % 10));
    s
}

/// `round(100 * count / n)` — a sample ratio as a whole percentage.
pub open spec fn spec_round_pct(count: int, n: int) -> int {
    (200 * count + n) / (2 * n)
}

pub fn round_pct(count: u64, n: u64) -> (r: u64)
    requires
        1 <= n,
        count <= n,
        n <= 0x10_0000_0000,
    ensures
        r == spec_round_pct(count as int, n as int),
{
    (200 * count + n) / (2 * n)
}

/// ASCII lowercase of one byte.
pub open spec fn lower_byte(b: u8) -> u8 {
    if 65 <= b <= 90 {
        (b + 32) as u8
    } else {
        b
    }
}

/// ASCII-lowercased bytes of a string.
pub fn lower_bytes(s: &str) -> (r: Vec<u8>)
    ensures
        r@ == s.spec_bytes().map_values(|b: u8| lower_byte(b)),
{
    let bytes = s.as_bytes();
    let n = bytes.len();
    let mut out: Vec<u8> = Vec::new();
    let mut i: usize = 0;
    while i < n
        invariant
            n == bytes@.len(),
            bytes@ == s.spec_bytes(),
            0 <= i <= n,
            out@.len() == i,
            forall|t: int| 0 <= t < i ==> (#[trigger] out@[t]) == lower_byte(bytes@[t]),
        decreases n - i,
    {
        let b = bytes[i];
        if 65 <= b && b <= 90 {
            out.push(b + 32);
        } else {
            out.push(b);
        }
        i = i + 1;
    }
    proof {
        assert(out@ =~= s.spec_bytes().map_values(|b: u8| lower_byte(b)));
    }
    out
}

/// Byte-vector equality.
pub fn vec_u8_eq(a: &Vec<u8>, b: &Vec<u8>) -> (r: bool)
    ensures
        r == (a@ == b@),
{
    let n = a.len();
    if n != b.len() {
        proof {
            assert(a@.len() != b@.len());
        }
        return false;
    }
    let mut i: usize = 0;
    while i < n
        invariant
            n == a@.len(),
            n == b@.len(),
            0 <= i <= n,
            forall|t: int| 0 <= t < i ==> a@[t] == b@[t],
        decreases n - i,
    {
        if a[i] != b[i] {
            return false;
        }
        i = i + 1;
    }
    proof {
        assert(a@ =~= b@);
    }
    true
}

/// Whether `n` occurs as a contiguous substring of `h`.
pub open spec fn spec_contains_bytes(h: Seq<u8>, n: Seq<u8>) -> bool {
    exists|i: int| 0 <= i <= h.len() - n.len() && #[trigger] h.subrange(i, i + n.len()) == n
}

/// Substring search (naive scan).
pub fn contains_bytes(h: &Vec<u8>, nd: &Vec<u8>) -> (r: bool)
    ensures
        r == spec_contains_bytes(h@, nd@),
{
    let hl = h.len();
    let nl = nd.len();
    if nl > hl {
        return false;
    }
    let mut i: usize = 0;
    while i <= hl - nl
        invariant
            hl == h@.len(),
            nl == nd@.len(),
            nl <= hl,
            0 <= i <= hl - nl + 1,
            forall|t: int| 0 <= t < i ==> #[trigger] h@.subrange(t, t + nd@.len()) != nd@,
        decreases hl + 1 - nl - i,
    {
        let mut j: usize = 0;
        while j < nl && h[i + j] == nd[j]
            invariant
                hl == h@.len(),
                nl == nd@.len(),
                0 <= i <= hl - nl,
                0 <= j <= nl,
                forall|t: int| 0 <= t < j ==> h@[i + t] == nd@[t],
            decreases nl - j,
        {
            j = j + 1;
        }
        if j == nl {
            proof {
                assert(h@.subrange(i as int, i + nd@.len()) =~= nd@);
            }
            return true;
        }
        proof {
            assert(h@[i + j] != nd@[j as int]);
            assert(h@.subrange(i as int, i + nd@.len())[j as int] == h@[i + j]);
            assert(h@.subrange(i as int, i + nd@.len()) != nd@);
        }
        i = i + 1;
    }
    false
}

} // verus!
