use vstd::prelude::*;
use vstd::string::StringExecFns;

verus! {

/// Whether `s` is a non-empty run of ASCII decimal digits.
pub open spec fn is_digits(s: Seq<char>) -> bool {
    &&& s.len() > 0
    &&& forall|i: int| 0 <= i < s.len() ==> '0' <= #[trigger] s[i] <= '9'
}

/// The number that the decimal digits `s` write.
pub open spec fn digits_value(s: Seq<char>) -> int
    decreases s.len(),
{
    if s.len() == 0 {
        0
    } else {
        digits_value(s.drop_last()) * 10 + ((s.last() as u32) as int - 48)
    }
}

pub proof fn lemma_digits_value_nonneg(s: Seq<char>)
    requires
        forall|i: int| 0 <= i < s.len() ==> '0' <= #[trigger] s[i] <= '9',
    ensures
        digits_value(s) >= 0,
    decreases s.len(),
{
    if s.len() > 0 {
        lemma_digits_value_nonneg(s.drop_last());
        assert('0' <= s[s.len() - 1]);
    }
}

/// A prefix of a run of digits writes a number no larger than the whole.
pub proof fn lemma_digits_prefix_le(s: Seq<char>, k: int)
    requires
        forall|i: int| 0 <= i < s.len() ==> '0' <= #[trigger] s[i] <= '9',
        0 <= k <= s.len(),
    ensures
        digits_value(s.subrange(0, k)) <= digits_value(s),
    decreases s.len(),
{
    if k == s.len() {
        assert(s.subrange(0, k) =~= s);
    } else {
        let p = s.drop_last();
        assert(p.subrange(0, k) =~= s.subrange(0, k));
        lemma_digits_prefix_le(p, k);
        lemma_digits_value_nonneg(p);
        assert('0' <= s[s.len() - 1]);
    }
}

/// `n` zero digits.
pub open spec fn zeros(n: nat) -> Seq<char> {
    Seq::new(n, |i: int| '0')
}

/// An integer part and a fractional part of at most four digits, as a count
/// of ten-thousandths.
pub open spec fn units_of_parts(ip: Seq<char>, fp: Seq<char>) -> Option<int> {
    if is_digits(ip) && is_digits(fp) && fp.len() <= 4 {
        Some(digits_value(ip + fp + zeros((4 - fp.len()) as nat)))
    } else {
        None
    }
}

/// An unsigned decimal number (`12`, `12.5`, `0.1234`) as a count of
/// ten-thousandths; `None` when it is not one or has more than four
/// fractional digits.
pub open spec fn unsigned_units(body: Seq<char>) -> Option<int> {
    if exists|i: int| 0 <= i < body.len() && body[i] == '.' {
        let i = choose|i: int| 0 <= i < body.len() && body[i] == '.';
        units_of_parts(body.subrange(0, i), body.subrange(i + 1, body.len() as int))
    } else if is_digits(body) {
        Some(digits_value(body + zeros(4)))
    } else {
        None
    }
}

/// A decimal number with an optional leading `-`, as a count of
/// ten-thousandths that fits in an `i128`.
pub open spec fn decimal_units(s: Seq<char>) -> Option<int> {
    if s.len() > 0 && s[0] == '-' {
        match unsigned_units(s.drop_first()) {
            Some(v) => if -v >= i128::MIN {
                Some(-v)
            } else {
                None
            },
            None => None,
        }
    } else {
        match unsigned_units(s) {
            Some(v) => if v <= i128::MAX {
                Some(v)
            } else {
                None
            },
            None => None,
        }
    }
}

/// At the first `.` of `body`, the number splits into its two parts.
proof fn lemma_units_at_dot(body: Seq<char>, i: int)
    requires
        0 <= i < body.len(),
        body[i] == '.',
        forall|j: int| 0 <= j < i ==> body[j] != '.',
    ensures
        unsigned_units(body) == units_of_parts(
            body.subrange(0, i),
            body.subrange(i + 1, body.len() as int),
        ),
{
    assert(body[i] == '.');
    let j = choose|j: int| 0 <= j < body.len() && body[j] == '.';
    if j != i {
        assert(j > i);
        assert(body.subrange(0, j)[i] == '.');
        assert(body.subrange(i + 1, body.len() as int)[j - i - 1] == '.');
    }
}

/// The digits of an integer part and a fractional part, padded to four
/// fractional digits.
pub open spec fn mantissa(ip: Seq<char>, fp: Seq<char>) -> Seq<char> {
    ip + fp + zeros((4 - fp.len()) as nat)
}

/// The integer part of `s[start..]` when its first `.` (if any) is at `dot`.
pub open spec fn int_part(s: Seq<char>, start: int, dot: int) -> Seq<char> {
    s.subrange(start, dot)
}

/// The fractional part of `s` after the `.` at `dot`, if there is one.
pub open spec fn frac_part(s: Seq<char>, dot: int, has_dot: bool) -> Seq<char> {
    if has_dot {
        s.subrange(dot + 1, s.len() as int)
    } else {
        Seq::empty()
    }
}

/// Reads the digits of both parts, padded to four fractional digits, as one
/// number no larger than `cap`.
fn mantissa_value(s: &str, n: usize, start: usize, dot: usize, has_dot: bool, cap: u128) -> (r:
    Option<u128>)
    requires
        n == s@.len(),
        start < dot <= n,
        has_dot ==> dot < n && 1 <= n - dot - 1 <= 4,
        !has_dot ==> dot == n,
    ensures
        ({
            let ip = int_part(s@, start as int, dot as int);
            let fp = frac_part(s@, dot as int, has_dot);
            let ok = is_digits(ip) && (has_dot ==> is_digits(fp));
            &&& r matches Some(v) ==> ok && v == digits_value(mantissa(ip, fp)) && v <= cap
            &&& r is None ==> !ok || digits_value(mantissa(ip, fp)) > cap
        }),
{
    let ghost ip = int_part(s@, start as int, dot as int);
    let ghost fp = frac_part(s@, dot as int, has_dot);
    let ghost ok = is_digits(ip) && (has_dot ==> is_digits(fp));
    let ghost t = mantissa(ip, fp);
    let ilen: usize = dot - start;
    let flen: usize = if has_dot {
        n - dot - 1
    } else {
        0
    };
    proof {
        if ok {
            assert forall|j: int| 0 <= j < t.len() implies '0' <= #[trigger] t[j] <= '9' by {
                if j < ilen {
                    assert(t[j] == ip[j]);
                } else if j < ilen + flen {
                    assert(t[j] == fp[j - ilen]);
                }
            }
        }
    }
    let len: usize = ilen + flen;
    let pad: usize = 4 - flen;
    let mut value: u128 = 0;
    let mut k: usize = 0;
    let mut p: usize = 0;
    while k < len || p < pad
        invariant
            n == s@.len(),
            len == ilen + flen,
            ilen == dot - start,
            flen == fp.len(),
            t.len() == len + pad,
            pad == 4 - flen,
            0 <= k <= len,
            0 <= p <= pad,
            p > 0 ==> k == len,
            has_dot ==> dot + 1 + flen == n,
            !has_dot ==> dot == n,
            t == mantissa(ip, fp),
            ip == int_part(s@, start as int, dot as int),
            fp == frac_part(s@, dot as int, has_dot),
            ok == (is_digits(ip) && (has_dot ==> is_digits(fp))),
            ok ==> forall|j: int| 0 <= j < t.len() ==> '0' <= #[trigger] t[j] <= '9',
            value == digits_value(t.subrange(0, k + p)),
            value <= cap,
            forall|j: int| 0 <= j < k + p ==> '0' <= #[trigger] t[j] <= '9',
        decreases len + pad - k - p,
    {
        let ghost at: int = k + p;
        let c = if k < ilen {
            s.get_char(start + k)
        } else if k < len {
            s.get_char(dot + 1 + (k - ilen))
        } else {
            '0'
        };
        assert(c == t[at]);
        if c < '0' || c > '9' {
            proof {
                if k < ilen {
                    assert(ip[k as int] == c);
                } else {
                    assert(fp[k - ilen] == c);
                }
            }
            return None;
        }
        let d = (c as u32 - '0' as u32) as u128;
        proof {
            assert(t.subrange(0, at + 1).drop_last() =~= t.subrange(0, at));
        }
        let next = match value.checked_mul(10) {
            Some(v) => v.checked_add(d),
            None => None,
        };
        if k < len {
            k = k + 1;
        } else {
            p = p + 1;
        }
        match next {
            Some(v) if v <= cap => {
                value = v;
            },
            _ => {
                proof {
                    if ok {
                        lemma_digits_prefix_le(t, at + 1);
                    }
                }
                return None;
            },
        }
    }
    proof {
        assert(t.subrange(0, t.len() as int) =~= t);
        assert(is_digits(ip)) by {
            assert forall|j: int| 0 <= j < ip.len() implies '0' <= #[trigger] ip[j] <= '9' by {
                assert(t[j] == ip[j]);
            }
        }
        if has_dot {
            assert(is_digits(fp)) by {
                assert forall|j: int| 0 <= j < fp.len() implies '0' <= #[trigger] fp[j] <= '9' by {
                    assert(t[ilen + j] == fp[j]);
                }
            }
        }
    }
    Some(value)
}

/// Parses a decimal number exactly, as a count of ten-thousandths.
pub fn parse_units(s: &str) -> (r: Option<i128>)
    ensures
        r matches Some(u) ==> decimal_units(s@) == Some(u as int),
        r is None ==> decimal_units(s@) is None,
{
    let n = s.unicode_len();
    let neg = n > 0 && s.get_char(0) == '-';
    let start: usize = if neg {
        1
    } else {
        0
    };
    let ghost body = s@.subrange(start as int, n as int);
    proof {
        if neg {
            assert(body =~= s@.drop_first());
        } else {
            assert(body =~= s@);
        }
    }
    let mut dot: usize = start;
    while dot < n && s.get_char(dot) != '.'
        invariant
            n == s@.len(),
            start <= dot <= n,
            forall|j: int| start <= j < dot ==> s@[j] != '.',
        decreases n - dot,
    {
        dot = dot + 1;
    }
    let has_dot = dot < n;
    let ghost ip = int_part(s@, start as int, dot as int);
    let ghost fp = frac_part(s@, dot as int, has_dot);
    let ghost ok = is_digits(ip) && (has_dot ==> is_digits(fp));
    proof {
        assert(forall|j: int| 0 <= j < dot - start ==> body[j] == s@[start + j]);
        if has_dot {
            assert(body[dot - start] == '.');
            lemma_units_at_dot(body, dot - start);
            assert(body.subrange(0, dot - start) =~= ip);
            assert(body.subrange(dot - start + 1, body.len() as int) =~= fp);
        } else {
            assert(ip =~= body);
            assert(mantissa(ip, fp) =~= body + zeros(4));
            assert(!exists|j: int| 0 <= j < body.len() && body[j] == '.') by {
                assert(forall|j: int| 0 <= j < body.len() ==> body[j] == s@[start + j]);
            }
        }
    }
    if dot == start || (has_dot && (n - dot - 1 == 0 || n - dot - 1 > 4)) {
        return None;
    }
    assert(unsigned_units(body) == if ok {
        Some(digits_value(mantissa(ip, fp)))
    } else {
        None::<int>
    });
    let cap: u128 = if neg {
        0x8000_0000_0000_0000_0000_0000_0000_0000
    } else {
        0x7fff_ffff_ffff_ffff_ffff_ffff_ffff_ffff
    };
    let value = match mantissa_value(s, n, start, dot, has_dot, cap) {
        Some(v) => v,
        None => {
            return None;
        },
    };
    if neg {
        if value == 0x8000_0000_0000_0000_0000_0000_0000_0000 {
            Some(i128::MIN)
        } else {
            Some(-(value as i128))
        }
    } else {
        Some(value as i128)
    }
}

/// The character of a decimal digit.
pub open spec fn digit_char(d: nat) -> char
    recommends
        d < 10,
{
    seq!['0', '1', '2', '3', '4', '5', '6', '7', '8', '9'][d as int]
}

/// The decimal text of `n`, without leading zeros.
pub open spec fn decimal_text(n: nat) -> Seq<char>
    decreases n,
{
    if n < 10 {
        seq![digit_char(n)]
    } else {
        decimal_text(n / 10).push(digit_char(n % 10))
    }
}

/// The last `w` decimal digits of `v`, padded with leading zeros.
pub open spec fn padded_digits(v: nat, w: nat) -> Seq<char>
    decreases w,
{
    if w == 0 {
        Seq::empty()
    } else {
        padded_digits(v / 10, (w - 1) as nat).push(digit_char(v % 10))
    }
}

/// The fractional part `f` ten-thousandths (`f < 10000`): empty when zero,
/// else a point and its digits without trailing zeros.
pub open spec fn fraction_text(f: nat) -> Seq<char> {
    if f == 0 {
        Seq::empty()
    } else if f % 1000 == 0 {
        seq!['.'] + padded_digits(f / 1000, 1)
    } else if f % 100 == 0 {
        seq!['.'] + padded_digits(f / 100, 2)
    } else if f % 10 == 0 {
        seq!['.'] + padded_digits(f / 10, 3)
    } else {
        seq!['.'] + padded_digits(f, 4)
    }
}

/// The exact decimal text of `u` ten-thousandths.
pub open spec fn amount_text(u: int) -> Seq<char> {
    let a = if u < 0 {
        -u
    } else {
        u
    };
    (if u < 0 {
        seq!['-']
    } else {
        Seq::empty()
    }) + decimal_text((a / 10000) as nat) + fraction_text((a % 10000) as nat)
}

/// The literal text of a boolean.
pub open spec fn bool_text(b: bool) -> Seq<char> {
    if b {
        seq!['t', 'r', 'u', 'e']
    } else {
        seq!['f', 'a', 'l', 's', 'e']
    }
}

/// The text of one decimal digit.
fn digit_str(d: u128) -> (r: &'static str)
    requires
        d < 10,
    ensures
        r@ == seq![digit_char(d as nat)],
{
    proof {
        reveal_strlit("0");
        reveal_strlit("1");
        reveal_strlit("2");
        reveal_strlit("3");
        reveal_strlit("4");
        reveal_strlit("5");
        reveal_strlit("6");
        reveal_strlit("7");
        reveal_strlit("8");
        reveal_strlit("9");
    }
    let r = if d == 0 {
        "0"
    } else if d == 1 {
        "1"
    } else if d == 2 {
        "2"
    } else if d == 3 {
        "3"
    } else if d == 4 {
        "4"
    } else if d == 5 {
        "5"
    } else if d == 6 {
        "6"
    } else if d == 7 {
        "7"
    } else if d == 8 {
        "8"
    } else {
        "9"
    };
    assert(r@ =~= seq![digit_char(d as nat)]);
    r
}

/// The decimal text of `n`.
pub fn decimal_string(n: u128) -> (r: String)
    ensures
        r@ == decimal_text(n as nat),
    decreases n,
{
    if n < 10 {
        <String as StringExecFns>::from_str(digit_str(n))
    } else {
        let mut r = decimal_string(n / 10);
        r.append(digit_str(n % 10));
        r
    }
}

/// The last `w` digits of `v`, zero-padded.
fn padded_string(v: u128, w: u32) -> (r: String)
    ensures
        r@ == padded_digits(v as nat, w as nat),
    decreases w,
{
    if w == 0 {
        String::new()
    } else {
        let mut r = padded_string(v / 10, w - 1);
        r.append(digit_str(v % 10));
        r
    }
}

/// Writes `u` ten-thousandths exactly, without trailing fractional zeros.
pub fn amount_string(u: i128) -> (r: String)
    ensures
        r@ == amount_text(u as int),
{
    proof {
        reveal_strlit("-");
        reveal_strlit(".");
    }
    let a: u128 = if u < 0 {
        ((-(u + 1)) as u128) + 1
    } else {
        u as u128
    };
    let mut r = if u < 0 {
        <String as StringExecFns>::from_str("-")
    } else {
        String::new()
    };
    r.append(decimal_string(a / 10000).as_str());
    let f = a % 10000;
    if f != 0 {
        r.append(".");
        if f % 1000 == 0 {
            r.append(padded_string(f / 1000, 1).as_str());
        } else if f % 100 == 0 {
            r.append(padded_string(f / 100, 2).as_str());
        } else if f % 10 == 0 {
            r.append(padded_string(f / 10, 3).as_str());
        } else {
            r.append(padded_string(f, 4).as_str());
        }
    }
    assert(r@ =~= amount_text(u as int));
    r
}

} // verus!
