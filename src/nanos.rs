//! Rate fields of the local table: raw nanos, or a percentage that is
//! converted to nanos (1% is 10_000_000) rounding half away from zero.
//! Underscores may group digits and are ignored.

use vstd::prelude::*;
use vstd::string::StringSliceAdditionalSpecFns;

verus! {

/// An ASCII decimal digit.
pub open spec fn is_digit(c: u8) -> bool {
    48 <= c <= 57
}

/// Every byte of `s` is a decimal digit.
pub open spec fn all_digits(s: Seq<u8>) -> bool {
    forall|i: int| 0 <= i < s.len() ==> is_digit(#[trigger] s[i])
}

/// The number that a run of decimal digits spells.
pub open spec fn digits_value(s: Seq<u8>) -> nat
    decreases s.len(),
{
    if s.len() == 0 {
        0
    } else {
        digits_value(s.drop_last()) * 10 + (s.last() - 48) as nat
    }
}

/// `s` without its underscores.
pub open spec fn strip_underscores(s: Seq<u8>) -> Seq<u8>
    decreases s.len(),
{
    if s.len() == 0 {
        s
    } else if s.last() == 95u8 {
        strip_underscores(s.drop_last())
    } else {
        strip_underscores(s.drop_last()).push(s.last())
    }
}

/// How many leading bytes of `t` are a sign.
pub open spec fn sign_len(t: Seq<u8>) -> int {
    if t.len() > 0 && (t[0] == 45u8 || t[0] == 43u8) { 1 } else { 0 }
}

/// The sign that `t` starts with.
pub open spec fn sign_of(t: Seq<u8>) -> int {
    if t.len() > 0 && t[0] == 45u8 { -1 } else { 1 }
}

/// The value of an optionally signed run of digits.
pub open spec fn int_form(t: Seq<u8>) -> Option<int> {
    let d = t.subrange(sign_len(t), t.len() as int);
    if d.len() > 0 && all_digits(d) {
        Some(sign_of(t) * digits_value(d))
    } else {
        None
    }
}

/// The first eight fraction digits, padded with zeros.
pub open spec fn pad8(f: Seq<u8>) -> Seq<u8> {
    if f.len() >= 8 {
        f.subrange(0, 8)
    } else {
        f + Seq::new((8 - f.len()) as nat, |i: int| 48u8)
    }
}

/// `p` is the position of the decimal point of a mantissa with digits on
/// both sides of it (either side may be empty, not both).
pub open spec fn dot_at(m: Seq<u8>, p: int) -> bool {
    &&& 0 <= p < m.len()
    &&& m[p] == 46u8
    &&& m.len() > 1
    &&& all_digits(m.subrange(0, p))
    &&& all_digits(m.subrange(p + 1, m.len() as int))
}

/// The nanos, in magnitude, of a percentage with integer digits `i` and
/// fraction digits `f`, rounded half away from zero.
pub open spec fn pct_magnitude(i: Seq<u8>, f: Seq<u8>) -> int {
    let f8 = digits_value(pad8(f)) as int;
    digits_value(i) * 10_000_000 + f8 / 10 + if f8 % 10 >= 5 { 1int } else { 0int }
}

/// The value of an optionally signed decimal followed by `%`, in nanos.
pub open spec fn pct_form(t: Seq<u8>) -> Option<int> {
    if t.len() == 0 || t.last() != 37u8 {
        None
    } else {
        let m = t.subrange(sign_len(t), t.len() - 1);
        if m.len() > 0 && all_digits(m) {
            Some(sign_of(t) * pct_magnitude(m, Seq::empty()))
        } else if exists|p: int| dot_at(m, p) {
            let p = choose|p: int| dot_at(m, p);
            Some(sign_of(t) * pct_magnitude(m.subrange(0, p), m.subrange(p + 1, m.len() as int)))
        } else {
            None
        }
    }
}

/// The nanos that a field spells, before any range check.
pub open spec fn nanos_of(t: Seq<u8>) -> Option<int> {
    if int_form(t) is Some {
        int_form(t)
    } else {
        pct_form(t)
    }
}

/// Why a rate field was rejected.
#[derive(Clone, Copy, Debug, PartialEq, Eq, Structural)]
pub enum NanosError {
    /// Neither raw nanos nor a percentage.
    Syntax,
    /// The value does not fit in 32 signed bits.
    OutOfRange,
}

/// A value, if it fits in 32 signed bits.
pub open spec fn in_range(v: int) -> Result<i32, NanosError> {
    if i32::MIN <= v <= i32::MAX {
        Ok(v as i32)
    } else {
        Err(NanosError::OutOfRange)
    }
}

/// What reading a field gives.
pub open spec fn nanos_result(b: Seq<u8>) -> Result<i32, NanosError> {
    match nanos_of(strip_underscores(b)) {
        None => Err(NanosError::Syntax),
        Some(v) => in_range(v),
    }
}

fn strip_underscores_exec(b: &[u8]) -> (r: Vec<u8>)
    ensures
        r@ == strip_underscores(b@),
{
    let mut r: Vec<u8> = Vec::new();
    let mut i: usize = 0;
    while i < b.len()
        invariant
            0 <= i <= b@.len(),
            r@ == strip_underscores(b@.subrange(0, i as int)),
        decreases b@.len() - i,
    {
        assert(b@.subrange(0, i + 1).drop_last() =~= b@.subrange(0, i as int));
        if b[i] != 95u8 {
            r.push(b[i]);
        }
        i = i + 1;
    }
    assert(b@.subrange(0, b@.len() as int) =~= b@);
    r
}

/// `v` capped at `cap`.
pub open spec fn capped(v: nat, cap: nat) -> nat {
    if v < cap { v } else { cap }
}

/// Scans digits of `t` from `start` up to `end`: the first position that is
/// not a digit (or `end`), and the value of the digits before it, capped.
fn scan_digits(t: &Vec<u8>, start: usize, end: usize, cap: u64) -> (r: (usize, u64))
    requires
        start <= end <= t@.len(),
        cap <= 0x1_0000_0000,
    ensures
        start <= r.0 <= end,
        all_digits(t@.subrange(start as int, r.0 as int)),
        r.0 < end ==> !is_digit(t@[r.0 as int]),
        r.1 == capped(digits_value(t@.subrange(start as int, r.0 as int)), cap as nat),
{
    let mut i: usize = start;
    let mut acc: u64 = 0;
    assert(t@.subrange(start as int, start as int) =~= Seq::<u8>::empty());
    while i < end && 48u8 <= t[i] && t[i] <= 57u8
        invariant
            start <= i <= end <= t@.len(),
            cap <= 0x1_0000_0000,
            all_digits(t@.subrange(start as int, i as int)),
            acc == capped(digits_value(t@.subrange(start as int, i as int)), cap as nat),
        decreases end - i,
    {
        let ghost s = t@.subrange(start as int, i as int);
        let ghost s2 = t@.subrange(start as int, i + 1);
        assert(s2.drop_last() =~= s);
        assert(s2.last() == t@[i as int]);
        let d = (t[i] - 48u8) as u64;
        if acc >= cap {
            assert(digits_value(s2) >= digits_value(s)) by (nonlinear_arith)
                requires digits_value(s2) == digits_value(s) * 10 + d;
            acc = cap;
        } else {
            let n = acc * 10 + d;
            acc = if n >= cap { cap } else { n };
        }
        i = i + 1;
        assert(all_digits(t@.subrange(start as int, i as int))) by {
            assert forall|k: int| 0 <= k < s2.len() implies is_digit(#[trigger] s2[k]) by {
                if k < s.len() {
                    assert(s2[k] == s[k]);
                }
            }
        }
    }
    (i, acc)
}

/// The value of the first eight digits of `t[start..end]`, padded with zeros.
fn frac8(t: &Vec<u8>, start: usize, end: usize) -> (r: u64)
    requires
        start <= end <= t@.len(),
        all_digits(t@.subrange(start as int, end as int)),
    ensures
        r == digits_value(pad8(t@.subrange(start as int, end as int))),
        r < 100_000_000,
{
    let ghost f = t@.subrange(start as int, end as int);
    let n: usize = if end - start < 8 { end - start } else { 8 };
    let mut k: usize = 0;
    let mut acc: u64 = 0;
    while k < n
        invariant
            start <= end <= t@.len(),
            f == t@.subrange(start as int, end as int),
            all_digits(f),
            n <= 8,
            n <= f.len(),
            0 <= k <= n,
            acc == digits_value(f.subrange(0, k as int)),
            acc < pow10(k as nat),
        decreases n - k,
    {
        assert(f.subrange(0, k + 1).drop_last() =~= f.subrange(0, k as int));
        assert(is_digit(f[k as int]));
        assert(t@[start + k] == f[k as int]);
        let d = (t[start + k] - 48u8) as u64;
        assert(acc * 10 + d < pow10(k as nat) * 10) by (nonlinear_arith)
            requires acc < pow10(k as nat), d < 10;
        proof { lemma_pow10_le_8(k as nat); }
        acc = acc * 10 + d;
        k = k + 1;
    }
    let mut j: usize = n;
    let ghost base = f.subrange(0, n as int);
    assert(base + Seq::new(0nat, |i: int| 48u8) =~= base);
    while j < 8
        invariant
            n <= j <= 8,
            acc == digits_value(base + Seq::new((j - n) as nat, |i: int| 48u8)),
            acc < pow10(j as nat),
        decreases 8 - j,
    {
        let ghost z = base + Seq::new((j - n) as nat, |i: int| 48u8);
        let ghost z2 = base + Seq::new((j + 1 - n) as nat, |i: int| 48u8);
        assert(z2.drop_last() =~= z);
        assert(acc * 10 < pow10(j as nat) * 10) by (nonlinear_arith)
            requires acc < pow10(j as nat);
        proof { lemma_pow10_le_8(j as nat); }
        acc = acc * 10;
        j = j + 1;
    }
    proof {
        if f.len() >= 8 {
            assert(base + Seq::new(0nat, |i: int| 48u8) =~= pad8(f));
        } else {
            assert(base =~= f);
        }
        lemma_pow10_le_8(7);
    }
    acc
}

/// Ten to the `n`.
pub open spec fn pow10(n: nat) -> nat
    decreases n,
{
    if n == 0 { 1 } else { pow10((n - 1) as nat) * 10 }
}

proof fn lemma_pow10_le_8(n: nat)
    requires
        n < 8,
    ensures
        pow10(n + 1) <= 100_000_000,
{
    reveal_with_fuel(pow10, 9);
}

proof fn lemma_zeros_value(n: nat)
    ensures
        digits_value(Seq::new(n, |i: int| 48u8)) == 0,
    decreases n,
{
    if n > 0 {
        assert(Seq::new(n, |i: int| 48u8).drop_last() =~= Seq::new((n - 1) as nat, |i: int| 48u8));
        lemma_zeros_value((n - 1) as nat);
    }
}

fn signed(neg: bool, mag: u64) -> (r: Result<i32, NanosError>)
    requires
        mag <= 0x1_0000_0000_0000,
    ensures
        r == in_range(if neg { -(mag as int) } else { mag as int }),
{
    let v: i64 = if neg { -(mag as i64) } else { mag as i64 };
    if v < i32::MIN as i64 || v > i32::MAX as i64 {
        Err(NanosError::OutOfRange)
    } else {
        Ok(v as i32)
    }
}

fn int_form_exec(t: &Vec<u8>) -> (r: Option<Result<i32, NanosError>>)
    ensures
        match int_form(t@) {
            None => r is None,
            Some(v) => r == Some(in_range(v)),
        },
{
    let len = t.len();
    let sl: usize = if len > 0 && (t[0] == 45u8 || t[0] == 43u8) { 1 } else { 0 };
    let neg = len > 0 && t[0] == 45u8;
    let (p, acc) = scan_digits(t, sl, len, 2147483649);
    let ghost d = t@.subrange(sl as int, len as int);
    if p == len && p > sl {
        if acc == 2147483649 {
            Some(Err(NanosError::OutOfRange))
        } else {
            Some(signed(neg, acc))
        }
    } else {
        proof {
            if p < len {
                assert(d[p - sl] == t@[p as int]);
            }
        }
        None
    }
}

fn pct_form_exec(t: &Vec<u8>) -> (r: Option<Result<i32, NanosError>>)
    ensures
        match pct_form(t@) {
            None => r is None,
            Some(v) => r == Some(in_range(v)),
        },
{
    let len = t.len();
    if len == 0 || t[len - 1] != 37u8 {
        return None;
    }
    let sl: usize = if t[0] == 45u8 || t[0] == 43u8 { 1 } else { 0 };
    let neg = t[0] == 45u8;
    let end = len - 1;
    let ghost m = t@.subrange(sl as int, end as int);
    let (p, ip) = scan_digits(t, sl, end, 1000);
    let ghost pp = p - sl;
    proof {
        assert(m.subrange(0, pp) =~= t@.subrange(sl as int, p as int));
        if p < end {
            assert(m[pp] == t@[p as int]);
        }
    }
    if p == end {
        if p == sl {
            return None;
        }
        proof {
            assert(m =~= t@.subrange(sl as int, p as int));
            lemma_zeros_value(8);
            assert(pad8(Seq::<u8>::empty()) =~= Seq::new(8, |i: int| 48u8));
        }
        if ip == 1000 {
            return Some(Err(NanosError::OutOfRange));
        }
        return Some(signed(neg, ip * 10_000_000));
    }
    if t[p] != 46u8 {
        proof {
            assert forall|p2: int| !dot_at(m, p2) by {
                if 0 <= p2 < m.len() && m[p2] == 46u8 && all_digits(m.subrange(0, p2)) {
                    if p2 < pp {
                        assert(m.subrange(0, pp)[p2] == m[p2]);
                    } else if p2 > pp {
                        assert(m.subrange(0, p2)[pp] == m[pp]);
                    }
                }
            }
        }
        return None;
    }
    let (q, _) = scan_digits(t, p + 1, end, 0);
    proof {
        assert(m.subrange(pp + 1, m.len() as int) =~= t@.subrange(p + 1, end as int));
        assert(!is_digit(m[pp]));
        assert forall|p2: int| dot_at(m, p2) implies p2 == pp by {
            if p2 < pp {
                assert(m.subrange(0, pp)[p2] == m[p2]);
            } else if p2 > pp {
                assert(m.subrange(0, p2)[pp] == m[pp]);
            }
        }
    }
    if q != end {
        proof {
            assert(m.subrange(pp + 1, m.len() as int)[q - p - 1] == t@[q as int]);
        }
        return None;
    }
    if end - sl <= 1 {
        return None;
    }
    proof {
        assert(dot_at(m, pp));
    }
    let f8 = frac8(t, p + 1, end);
    if ip == 1000 {
        return Some(Err(NanosError::OutOfRange));
    }
    let round: u64 = if f8 % 10 >= 5 { 1 } else { 0 };
    Some(signed(neg, ip * 10_000_000 + f8 / 10 + round))
}

/// Reads a rate field: raw nanos (an optionally signed integer) or a
/// percentage (an optionally signed decimal followed by `%`), ignoring
/// underscores.
pub fn parse_nanos(s: &str) -> (r: Result<i32, NanosError>)
    ensures
        r == nanos_result(s.spec_bytes()),
{
    let t = strip_underscores_exec(s.as_bytes());
    match int_form_exec(&t) {
        Some(r) => r,
        None => match pct_form_exec(&t) {
            Some(r) => r,
            None => Err(NanosError::Syntax),
        },
    }
}

/// The decimal digits of `n`, most significant first.
pub open spec fn digits_of(n: nat) -> Seq<u8>
    decreases n,
{
    if n < 10 {
        seq![(48 + n) as u8]
    } else {
        digits_of(n / 10).push((48 + n % 10) as u8)
    }
}

/// The plain decimal text of `v`, the form in which a rate is written out.
pub open spec fn decimal_text(v: int) -> Seq<u8> {
    if v < 0 {
        seq![45u8] + digits_of((-v) as nat)
    } else {
        digits_of(v as nat)
    }
}

proof fn lemma_digits_of(n: nat)
    ensures
        digits_of(n).len() > 0,
        all_digits(digits_of(n)),
        digits_value(digits_of(n)) == n,
    decreases n,
{
    let d = digits_of(n);
    if n < 10 {
        assert(d.drop_last() =~= Seq::<u8>::empty());
        assert(d.last() == (48 + n) as u8);
        assert(((48 + n) as u8) as int == 48 + n);
        assert(digits_value(d) == digits_value(d.drop_last()) * 10 + (d.last() - 48) as nat);
        assert(digits_value(Seq::<u8>::empty()) == 0);
    } else {
        lemma_digits_of(n / 10);
        assert(d.drop_last() =~= digits_of(n / 10));
        assert(d.last() == (48 + n % 10) as u8);
        assert(((48 + n % 10) as u8) as int == 48 + n % 10);
        assert(digits_value(d) == (n / 10) * 10 + n % 10);
        assert forall|i: int| 0 <= i < d.len() implies is_digit(#[trigger] d[i]) by {
            if i < d.len() - 1 {
                assert(d[i] == digits_of(n / 10)[i]);
            }
        }
    }
}

proof fn lemma_strip_plain(s: Seq<u8>)
    requires
        forall|i: int| 0 <= i < s.len() ==> #[trigger] s[i] != 95u8,
    ensures
        strip_underscores(s) == s,
    decreases s.len(),
{
    if s.len() > 0 {
        let p = s.drop_last();
        assert forall|i: int| 0 <= i < p.len() implies #[trigger] p[i] != 95u8 by {
            assert(p[i] == s[i]);
        }
        lemma_strip_plain(p);
        assert(p.push(s.last()) =~= s);
    }
}

/// A rate written out as plain decimal text reads back as the same rate.
pub proof fn lemma_nanos_round_trip(v: i32)
    ensures
        nanos_result(decimal_text(v as int)) == Ok::<i32, NanosError>(v),
{
    let t = decimal_text(v as int);
    let n: nat = if v < 0 { (-v) as nat } else { v as nat };
    lemma_digits_of(n);
    let d = digits_of(n);
    assert forall|i: int| 0 <= i < t.len() implies #[trigger] t[i] != 95u8 by {
        if v < 0 {
            if i > 0 {
                assert(t[i] == d[i - 1]);
                assert(is_digit(d[i - 1]));
            }
        } else {
            assert(is_digit(d[i]));
        }
    }
    lemma_strip_plain(t);
    if v < 0 {
        assert(t.subrange(1, t.len() as int) =~= d);
    } else {
        assert(is_digit(t[0]));
        assert(t.subrange(0, t.len() as int) =~= d);
    }
}

/// The `k` low decimal digits of `r`, zero-padded, most significant first.
pub open spec fn fixed_digits(r: nat, k: nat) -> Seq<u8>
    decreases k,
{
    if k == 0 {
        Seq::empty()
    } else {
        fixed_digits(r / 10, (k - 1) as nat).push((48 + r % 10) as u8)
    }
}

/// The percentage text of `v` nanos: `v / 10^7` with seven fraction digits,
/// then `%`.
pub open spec fn percent_text(v: int) -> Seq<u8> {
    let n: nat = if v < 0 { (-v) as nat } else { v as nat };
    let body = digits_of(n / 10_000_000) + seq![46u8] + fixed_digits(n % 10_000_000, 7) + seq![37u8];
    if v < 0 { seq![45u8] + body } else { body }
}

proof fn lemma_fixed_digits(r: nat, k: nat)
    requires
        r < pow10(k),
    ensures
        fixed_digits(r, k).len() == k,
        all_digits(fixed_digits(r, k)),
        digits_value(fixed_digits(r, k)) == r,
    decreases k,
{
    if k > 0 {
        assert(r / 10 < pow10((k - 1) as nat)) by (nonlinear_arith)
            requires r < pow10((k - 1) as nat) * 10;
        lemma_fixed_digits(r / 10, (k - 1) as nat);
        let d = fixed_digits(r, k);
        assert(d.drop_last() =~= fixed_digits(r / 10, (k - 1) as nat));
        assert(((48 + r % 10) as u8) as int == 48 + r % 10);
        assert forall|i: int| 0 <= i < d.len() implies is_digit(#[trigger] d[i]) by {
            if i < d.len() - 1 {
                assert(d[i] == fixed_digits(r / 10, (k - 1) as nat)[i]);
            }
        }
    }
}

/// A rate written out as a percentage with seven fraction digits reads back
/// as the same rate.
pub proof fn lemma_percent_round_trip(v: i32)
    ensures
        nanos_result(percent_text(v as int)) == Ok::<i32, NanosError>(v),
{
    let t = percent_text(v as int);
    let n: nat = if v < 0 { (-v) as nat } else { v as nat };
    let ip = digits_of(n / 10_000_000);
    reveal_with_fuel(pow10, 8);
    lemma_digits_of(n / 10_000_000);
    lemma_fixed_digits(n % 10_000_000, 7);
    let fp = fixed_digits(n % 10_000_000, 7);
    let m = ip + seq![46u8] + fp;
    let sl: int = if v < 0 { 1 } else { 0 };
    assert(t =~= if v < 0 { seq![45u8] + m + seq![37u8] } else { m + seq![37u8] });
    assert forall|i: int| 0 <= i < t.len() implies #[trigger] t[i] != 95u8 by {
        if sl <= i < sl + ip.len() {
            assert(t[i] == ip[i - sl]);
            assert(is_digit(ip[i - sl]));
        } else if sl + ip.len() < i < t.len() - 1 {
            assert(t[i] == fp[i - sl - ip.len() - 1]);
            assert(is_digit(fp[i - sl - ip.len() - 1]));
        }
    }
    lemma_strip_plain(t);
    assert(sign_len(t) == sl) by {
        if v >= 0 {
            assert(is_digit(ip[0]));
            assert(t[0] == ip[0]);
        }
    }
    // Not plain nanos: the text holds a point.
    let d = t.subrange(sl, t.len() as int);
    assert(d[ip.len() as int] == 46u8);
    assert(int_form(t) is None);
    let pp = ip.len() as int;
    assert(t.subrange(sl, t.len() - 1) =~= m);
    assert(m.subrange(0, pp) =~= ip);
    assert(m.subrange(pp + 1, m.len() as int) =~= fp);
    assert(m[pp] == 46u8);
    assert(dot_at(m, pp));
    assert(!all_digits(m));
    assert forall|p2: int| dot_at(m, p2) implies p2 == pp by {
        if p2 < pp {
            assert(m.subrange(0, pp)[p2] == m[p2]);
        } else if p2 > pp {
            assert(m.subrange(0, p2)[pp] == m[pp]);
        }
    }
    let f8 = digits_value(pad8(fp));
    assert(pad8(fp) =~= fp.push(48u8));
    assert(pad8(fp).drop_last() =~= fp);
    assert(f8 == (n % 10_000_000) * 10);
    assert(pct_magnitude(ip, fp) == n);
}

} // verus!
