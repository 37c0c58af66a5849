use vstd::prelude::*;
use vstd::utf8::{decode_utf8, valid_utf8};
use crate::reverse_rng::data_point::{
    pow10,
    exact_raw_range,
    observed_raw_range,
    DataPoint,
    Decimal,
    MAX_MANTISSA,
    NANO_DIGITS,
};

verus! {

/// ASCII whitespace.
pub open spec fn is_ws(b: u8) -> bool {
    b == 0x20 || b == 0x09 || b == 0x0a || b == 0x0d || b == 0x0b || b == 0x0c
}

fn is_ws_exec(b: u8) -> (r: bool)
    ensures
        r == is_ws(b),
{
    b == 0x20 || b == 0x09 || b == 0x0a || b == 0x0d || b == 0x0b || b == 0x0c
}

/// The fields of `s` separated by `sep`, empty fields included.
pub open spec fn split_on(s: Seq<u8>, sep: u8) -> Seq<Seq<u8>>
    decreases s.len(),
{
    if s.len() == 0 {
        seq![Seq::empty()]
    } else {
        let prev = split_on(s.drop_last(), sep);
        if s.last() == sep {
            prev.push(Seq::empty())
        } else {
            prev.update(prev.len() - 1, prev.last().push(s.last()))
        }
    }
}

proof fn lemma_split_on_len(s: Seq<u8>, sep: u8)
    ensures
        split_on(s, sep).len() >= 1,
    decreases s.len(),
{
    if s.len() > 0 {
        lemma_split_on_len(s.drop_last(), sep);
    }
}

/// The maximal runs of non-whitespace bytes of `s`.
pub open spec fn ws_fields(s: Seq<u8>) -> Seq<Seq<u8>>
    decreases s.len(),
{
    if s.len() == 0 {
        Seq::empty()
    } else {
        let prev = ws_fields(s.drop_last());
        let c = s.last();
        if is_ws(c) {
            prev
        } else if s.len() >= 2 && !is_ws(s[s.len() - 2]) {
            prev.update(prev.len() - 1, prev.last().push(c))
        } else {
            prev.push(seq![c])
        }
    }
}

proof fn lemma_ws_fields_nonempty(s: Seq<u8>)
    requires
        s.len() >= 1,
        !is_ws(s.last()),
    ensures
        ws_fields(s).len() >= 1,
    decreases s.len(),
{
    if s.len() >= 2 && !is_ws(s[s.len() - 2]) {
        lemma_ws_fields_nonempty(s.drop_last());
    }
}

/// `s` without its trailing whitespace.
pub open spec fn trim_end(s: Seq<u8>) -> Seq<u8>
    decreases s.len(),
{
    if s.len() > 0 && is_ws(s.last()) {
        trim_end(s.drop_last())
    } else {
        s
    }
}

/// `s` without its leading whitespace.
pub open spec fn trim_start(s: Seq<u8>) -> Seq<u8>
    decreases s.len(),
{
    if s.len() > 0 && is_ws(s[0]) {
        trim_start(s.drop_first())
    } else {
        s
    }
}

/// `s` without leading and trailing whitespace.
pub open spec fn trim(s: Seq<u8>) -> Seq<u8> {
    trim_start(trim_end(s))
}

/// The bounds `[a, b)` of the fields of `s` separated by `sep`.
pub fn split_ranges(s: &[u8], sep: u8) -> (r: Vec<(usize, usize)>)
    ensures
        r@.len() == split_on(s@, sep).len(),
        forall|k: int| #![trigger r@[k]] 0 <= k < r@.len() ==> r@[k].0 <= r@[k].1 <= s@.len()
            && s@.subrange(r@[k].0 as int, r@[k].1 as int) == split_on(s@, sep)[k],
{
    let mut done: Vec<(usize, usize)> = Vec::new();
    let mut start: usize = 0;
    let mut i: usize = 0;
    proof {
        assert(s@.take(0) =~= Seq::<u8>::empty());
        assert(s@.subrange(0, 0) =~= Seq::<u8>::empty());
    }
    while i < s.len()
        invariant
            start <= i <= s@.len(),
            done@.len() + 1 == split_on(s@.take(i as int), sep).len(),
            forall|k: int| #![trigger done@[k]] 0 <= k < done@.len() ==> done@[k].0 <= done@[k].1 <= start
                && s@.subrange(done@[k].0 as int, done@[k].1 as int) == split_on(s@.take(i as int), sep)[k],
            s@.subrange(start as int, i as int) == split_on(s@.take(i as int), sep).last(),
        decreases s@.len() - i,
    {
        let ghost prev = split_on(s@.take(i as int), sep);
        proof {
            assert(s@.take(i as int + 1).drop_last() =~= s@.take(i as int));
            assert(s@.take(i as int + 1).last() == s@[i as int]);
            lemma_split_on_len(s@.take(i as int), sep);
        }
        let ghost old_done = done@;
        if s[i] == sep {
            done.push((start, i));
            start = i + 1;
            proof {
                assert(s@.subrange(start as int, i as int + 1) =~= Seq::<u8>::empty());
                assert(split_on(s@.take(i as int + 1), sep) == prev.push(Seq::empty()));
                assert forall|k: int| #![trigger done@[k]] 0 <= k < done@.len() implies done@[k].0 <= done@[k].1 <= start
                    && s@.subrange(done@[k].0 as int, done@[k].1 as int) == split_on(s@.take(i as int + 1), sep)[k] by {
                    if k < old_done.len() {
                        assert(done@[k] == old_done[k]);
                    }
                }
            }
        } else {
            proof {
                assert(s@.subrange(start as int, i as int + 1) =~= s@.subrange(start as int, i as int).push(s@[i as int]));
                let np = prev.update(prev.len() - 1, prev.last().push(s@[i as int]));
                assert(split_on(s@.take(i as int + 1), sep) == np);
                assert forall|k: int| #![trigger done@[k]] 0 <= k < done@.len() implies done@[k].0 <= done@[k].1 <= start
                    && s@.subrange(done@[k].0 as int, done@[k].1 as int) == split_on(s@.take(i as int + 1), sep)[k] by {
                    assert(done@[k] == old_done[k]);
                    assert(done@[k].0 <= done@[k].1 <= start);
                    assert(s@.subrange(done@[k].0 as int, done@[k].1 as int) == prev[k]);
                    assert(k < prev.len() - 1);
                    assert(np[k] == prev[k]);
                }
            }
        }
        i = i + 1;
    }
    done.push((start, i));
    proof {
        assert(s@.take(s@.len() as int) =~= s@);
        lemma_split_on_len(s@, sep);
    }
    done
}

/// The bounds `[a, b)` of the maximal runs of non-whitespace bytes of `s`.
pub fn ws_ranges(s: &[u8]) -> (r: Vec<(usize, usize)>)
    ensures
        r@.len() == ws_fields(s@).len(),
        forall|k: int| #![trigger r@[k]] 0 <= k < r@.len() ==> r@[k].0 <= r@[k].1 <= s@.len()
            && s@.subrange(r@[k].0 as int, r@[k].1 as int) == ws_fields(s@)[k],
{
    let mut r: Vec<(usize, usize)> = Vec::new();
    let mut i: usize = 0;
    proof {
        assert(s@.take(0) =~= Seq::<u8>::empty());
    }
    while i < s.len()
        invariant
            i <= s@.len(),
            r@.len() == ws_fields(s@.take(i as int)).len(),
            forall|k: int| #![trigger r@[k]] 0 <= k < r@.len() ==> r@[k].0 <= r@[k].1 <= i
                && s@.subrange(r@[k].0 as int, r@[k].1 as int) == ws_fields(s@.take(i as int))[k],
            i > 0 && !is_ws(s@[i - 1]) ==> r@.len() > 0 && r@[r@.len() - 1].1 == i,
        decreases s@.len() - i,
    {
        let ghost t = s@.take(i as int + 1);
        proof {
            assert(t.drop_last() =~= s@.take(i as int));
            assert(t.last() == s@[i as int]);
            if i >= 1 {
                assert(t[t.len() - 2] == s@[i - 1]);
            }
        }
        let c = s[i];
        if is_ws_exec(c) {
        } else if i > 0 && !is_ws_exec(s[i - 1]) {
            let last = r.len() - 1;
            let a = r[last].0;
            r.set(last, (a, i + 1));
            proof {
                assert(s@.subrange(a as int, i as int + 1) =~= s@.subrange(a as int, i as int).push(c));
            }
        } else {
            r.push((i, i + 1));
            proof {
                assert(s@.subrange(i as int, i as int + 1) =~= seq![c]);
            }
        }
        i = i + 1;
    }
    proof {
        assert(s@.take(s@.len() as int) =~= s@);
    }
    r
}

/// The bounds `[a, b)` of `s` without leading and trailing whitespace.
pub fn trim_range(s: &[u8]) -> (r: (usize, usize))
    ensures
        r.0 <= r.1 <= s@.len(),
        s@.subrange(r.0 as int, r.1 as int) == trim(s@),
{
    let mut b: usize = s.len();
    proof {
        assert(s@.subrange(0, b as int) =~= s@);
    }
    while b > 0 && is_ws_exec(s[b - 1])
        invariant
            b <= s@.len(),
            trim_end(s@.subrange(0, b as int)) == trim_end(s@),
        decreases b,
    {
        proof {
            assert(s@.subrange(0, b as int).drop_last() =~= s@.subrange(0, b - 1));
        }
        b = b - 1;
    }
    let mut a: usize = 0;
    while a < b && is_ws_exec(s[a])
        invariant
            a <= b <= s@.len(),
            trim_end(s@.subrange(0, b as int)) == s@.subrange(0, b as int),
            trim_start(s@.subrange(a as int, b as int)) == trim(s@),
            trim_end(s@.subrange(0, b as int)) == trim_end(s@),
        decreases b - a,
    {
        proof {
            assert(s@.subrange(a as int, b as int).drop_first() =~= s@.subrange(a + 1, b as int));
        }
        a = a + 1;
    }
    (a, b)
}

/// An ASCII decimal digit.
pub open spec fn is_digit(b: u8) -> bool {
    0x30 <= b <= 0x39
}

/// Whether every byte of `s` is a decimal digit.
pub open spec fn all_digits(s: Seq<u8>) -> bool {
    forall|i: int| 0 <= i < s.len() ==> #[trigger] is_digit(s[i])
}

/// The number that the decimal digits `s` spell.
pub open spec fn digits_value(s: Seq<u8>) -> nat
    decreases s.len(),
{
    if s.len() == 0 {
        0
    } else {
        digits_value(s.drop_last()) * 10 + (s.last() - 0x30) as nat
    }
}

/// A prefix of a run of digits spells no more than the whole run.
proof fn lemma_digits_prefix(s: Seq<u8>, i: int)
    requires
        0 <= i <= s.len(),
        all_digits(s),
    ensures
        digits_value(s.take(i)) <= digits_value(s),
    decreases s.len() - i,
{
    if i < s.len() {
        lemma_digits_prefix(s, i + 1);
        assert(s.take(i + 1).drop_last() =~= s.take(i));
        assert(is_digit(s[i]));
    } else {
        assert(s.take(i) =~= s);
    }
}

/// The value of the digits `s` where they are all digits and spell at most
/// `limit`; `None` otherwise.
pub fn digits_upto(s: &[u8], limit: u64) -> (r: Option<u64>)
    ensures
        r == (if all_digits(s@) && digits_value(s@) <= limit {
            Some(digits_value(s@) as u64)
        } else {
            None::<u64>
        }),
{
    let mut acc: u64 = 0;
    let mut i: usize = 0;
    proof {
        assert(s@.take(0) =~= Seq::<u8>::empty());
    }
    while i < s.len()
        invariant
            i <= s@.len(),
            all_digits(s@.take(i as int)),
            acc as nat == digits_value(s@.take(i as int)),
            acc <= limit,
        decreases s@.len() - i,
    {
        let c = s[i];
        proof {
            assert(s@.take(i as int + 1).drop_last() =~= s@.take(i as int));
        }
        if !(c >= 0x30 && c <= 0x39) {
            assert(!is_digit(s@[i as int]));
            return None;
        }
        let next: u128 = acc as u128 * 10 + (c - 0x30) as u128;
        if next > limit as u128 {
            proof {
                if all_digits(s@) {
                    lemma_digits_prefix(s@, i as int + 1);
                }
            }
            return None;
        }
        acc = next as u64;
        proof {
            assert forall|j: int| 0 <= j < i + 1 implies #[trigger] is_digit(s@.take(i as int + 1)[j]) by {
                if j < i {
                    assert(s@.take(i as int + 1)[j] == s@.take(i as int)[j]);
                }
            }
        }
        i = i + 1;
    }
    proof {
        assert(s@.take(s@.len() as int) =~= s@);
    }
    Some(acc)
}

/// An unsigned integer: an optional `+` and then at least one digit, with a
/// value that fits in 64 bits.
pub open spec fn parse_u64_spec(s: Seq<u8>) -> Option<u64> {
    let t = if s.len() > 0 && s[0] == 0x2b {
        s.drop_first()
    } else {
        s
    };
    if t.len() > 0 && all_digits(t) && digits_value(t) <= u64::MAX {
        Some(digits_value(t) as u64)
    } else {
        None
    }
}

/// Parses an unsigned 64-bit integer.
pub fn parse_u64(s: &[u8]) -> (r: Option<u64>)
    ensures
        r == parse_u64_spec(s@),
{
    let t: &[u8] = if s.len() > 0 && s[0] == 0x2b {
        &s[1..s.len()]
    } else {
        s
    };
    proof {
        if s@.len() > 0 && s@[0] == 0x2b {
            assert(t@ =~= s@.drop_first());
        }
    }
    if t.len() == 0 {
        return None;
    }
    digits_upto(t, u64::MAX)
}

/// Digits with at most one `.` among them and at least one digit: the
/// digits with the point dropped and the number of them after the point.
pub open spec fn parse_digits_point(t: Seq<u8>) -> Option<(Seq<u8>, nat)> {
    let parts = split_on(t, 0x2e);
    let frac = if parts.len() == 2 {
        parts[1]
    } else {
        Seq::empty()
    };
    let ds = parts[0] + frac;
    if parts.len() <= 2 && ds.len() > 0 && all_digits(ds) {
        Some((ds, frac.len()))
    } else {
        None
    }
}

/// An exponent: an optional sign and at least one digit, at most 10^9 in
/// magnitude.
pub open spec fn parse_exponent_spec(e: Seq<u8>) -> Option<int> {
    let neg = e.len() > 0 && e[0] == 0x2d;
    let t = if e.len() > 0 && (e[0] == 0x2d || e[0] == 0x2b) {
        e.drop_first()
    } else {
        e
    };
    if t.len() > 0 && all_digits(t) && digits_value(t) <= 1_000_000_000 {
        Some(if neg { -(digits_value(t) as int) } else { digits_value(t) as int })
    } else {
        None
    }
}

/// `t` with `E` written as `e`.
pub open spec fn lower_e(t: Seq<u8>) -> Seq<u8> {
    t.map_values(|c: u8| if c == 0x45 { 0x65u8 } else { c })
}

/// How many of the digits `ds`, which carry `sc > 9` decimals, reach down
/// to the ninth decimal.
pub open spec fn kept_len(ds: Seq<u8>, sc: int) -> int {
    if sc - 9 >= ds.len() {
        0
    } else {
        ds.len() - (sc - 9)
    }
}

/// The digits `ds`, which carry `sc > 9` decimals, rounded to nine decimals
/// (half away from zero, which the first dropped digit decides), as a
/// mantissa of scale nine.
pub open spec fn rounded_mantissa(ds: Seq<u8>, sc: int) -> nat {
    let k = kept_len(ds, sc);
    digits_value(ds.take(k)) + if k < ds.len() && ds[k] >= 0x35 {
        1nat
    } else {
        0nat
    }
}

/// The mantissa and scale of the digits `ds` carrying `sc` decimals: as
/// they are for up to nine decimals, scaled up to scale zero for a negative
/// count, and rounded to nine decimals beyond that.
pub open spec fn mantissa_spec(ds: Seq<u8>, sc: int) -> (int, int) {
    if 0 <= sc <= NANO_DIGITS {
        (digits_value(ds) as int, sc)
    } else if sc < 0 {
        (digits_value(ds) * pow10((-sc) as nat), 0)
    } else {
        (rounded_mantissa(ds, sc) as int, NANO_DIGITS as int)
    }
}

/// A decimal number: an optional sign, digits with an optional `.`, and an
/// optional exponent (`e` or `E`, an optional sign, at most 10^9). Past
/// nine decimals the value is rounded to nine, half away from zero; it is
/// refused where its mantissa at that scale exceeds 10^18.
pub open spec fn parse_decimal_spec(s: Seq<u8>) -> Option<Decimal> {
    let signed = s.len() > 0 && (s[0] == 0x2d || s[0] == 0x2b);
    let neg = s.len() > 0 && s[0] == 0x2d;
    let t = if signed {
        s.drop_first()
    } else {
        s
    };
    let ep = split_on(lower_e(t), 0x65);
    let x = if ep.len() == 2 {
        parse_exponent_spec(ep[1])
    } else {
        Some(0int)
    };
    if ep.len() > 2 {
        None
    } else {
        match (parse_digits_point(ep[0]), x) {
            (Some((ds, f)), Some(x)) => {
                let (m, scale) = mantissa_spec(ds, f - x);
                if m <= MAX_MANTISSA {
                    Some(Decimal { mantissa: (if neg { -m } else { m }) as i64, scale: scale as u32 })
                } else {
                    None
                }
            },
            _ => None,
        }
    }
}

/// Whether every byte of `s` is a digit.
fn all_digits_exec(s: &[u8]) -> (r: bool)
    ensures
        r == all_digits(s@),
{
    let mut i: usize = 0;
    while i < s.len()
        invariant
            i <= s@.len(),
            forall|j: int| 0 <= j < i ==> #[trigger] is_digit(s@[j]),
        decreases s@.len() - i,
    {
        if !(s[i] >= 0x30 && s[i] <= 0x39) {
            assert(!is_digit(s@[i as int]));
            return false;
        }
        i = i + 1;
    }
    true
}

/// Parses digits with an optional point.
fn parse_digits_point_exec(t: &[u8]) -> (r: Option<(Vec<u8>, usize)>)
    ensures
        r matches Some((ds, f)) ==> parse_digits_point(t@) == Some((ds@, f as nat)),
        r is None ==> parse_digits_point(t@) is None,
{
    proof {
        lemma_split_on_len(t@, 0x2e);
    }
    let parts = split_ranges(t, 0x2e);
    if parts.len() > 2 {
        return None;
    }
    let mut ds: Vec<u8> = Vec::new();
    let mut frac_len: usize = 0;
    let mut k: usize = 0;
    while k < parts.len()
        invariant
            parts@.len() <= 2,
            parts@.len() == split_on(t@, 0x2e).len(),
            forall|q: int| #![trigger parts@[q]] 0 <= q < parts@.len() ==> parts@[q].0 <= parts@[q].1 <= t@.len()
                && t@.subrange(parts@[q].0 as int, parts@[q].1 as int) == split_on(t@, 0x2e)[q],
            k <= parts@.len(),
            k >= 1 ==> ds@ == (if k == 2 { split_on(t@, 0x2e)[0] + split_on(t@, 0x2e)[1] } else { split_on(t@, 0x2e)[0] }),
            k == 0 ==> ds@.len() == 0,
            frac_len == (if k == 2 { split_on(t@, 0x2e)[1].len() } else { 0 }),
        decreases parts@.len() - k,
    {
        let (a, b) = parts[k];
        let ghost before = ds@;
        let mut j = a;
        while j < b
            invariant
                a <= j <= b <= t@.len(),
                ds@ == before + t@.subrange(a as int, j as int),
            decreases b - j,
        {
            ds.push(t[j]);
            proof {
                assert(t@.subrange(a as int, j as int + 1) =~= t@.subrange(a as int, j as int).push(t@[j as int]));
            }
            j = j + 1;
        }
        if k == 1 {
            frac_len = b - a;
        }
        proof {
            if k == 0 {
                assert(ds@ =~= split_on(t@, 0x2e)[0]);
            }
        }
        k = k + 1;
    }
    if ds.len() == 0 || !all_digits_exec(ds.as_slice()) {
        return None;
    }
    Some((ds, frac_len))
}

/// Parses an exponent.
fn parse_exponent(e: &[u8]) -> (r: Option<i64>)
    ensures
        r matches Some(x) ==> parse_exponent_spec(e@) == Some(x as int),
        r is None ==> parse_exponent_spec(e@) is None,
{
    let neg = e.len() > 0 && e[0] == 0x2d;
    let t: &[u8] = if e.len() > 0 && (e[0] == 0x2d || e[0] == 0x2b) {
        &e[1..e.len()]
    } else {
        e
    };
    proof {
        if e@.len() > 0 && (e@[0] == 0x2d || e@[0] == 0x2b) {
            assert(t@ =~= e@.drop_first());
        }
    }
    if t.len() == 0 {
        return None;
    }
    match digits_upto(t, 1_000_000_000) {
        Some(v) => Some(if neg { -(v as i64) } else { v as i64 }),
        None => None,
    }
}

/// `v * 10^k` where it is at most 10^18.
fn scale_up(v: u64, k: u64) -> (r: Option<u64>)
    requires
        v <= MAX_MANTISSA,
    ensures
        r matches Some(m) ==> m == v * pow10(k as nat) && m <= MAX_MANTISSA,
        r is None ==> v * pow10(k as nat) > MAX_MANTISSA,
{
    let mut acc: u64 = v;
    let mut j: u64 = 0;
    while j < k
        invariant
            j <= k,
            acc == v * pow10(j as nat),
            acc <= MAX_MANTISSA,
        decreases k - j,
    {
        proof {
            assert(pow10((j + 1) as nat) == 10 * pow10(j as nat));
            assert(v * pow10((j + 1) as nat) == acc * 10) by (nonlinear_arith)
                requires
                    acc == v * pow10(j as nat),
                    pow10((j + 1) as nat) == 10 * pow10(j as nat),
            ;
        }
        if acc > 100_000_000_000_000_000 {
            proof {
                lemma_pow10_grows(v, (j + 1) as nat, k as nat);
            }
            return None;
        }
        acc = acc * 10;
        j = j + 1;
    }
    Some(acc)
}

/// `v * 10^a <= v * 10^b` for `a <= b`.
proof fn lemma_pow10_grows(v: u64, a: nat, b: nat)
    requires
        a <= b,
    ensures
        v * pow10(a) <= v * pow10(b),
    decreases b,
{
    if a < b {
        lemma_pow10_grows(v, a, (b - 1) as nat);
        lemma_pow10_nonneg((b - 1) as nat);
        assert(pow10(b) == 10 * pow10((b - 1) as nat));
        assert(v * pow10((b - 1) as nat) <= v * pow10(b)) by (nonlinear_arith)
            requires
                pow10(b) == 10 * pow10((b - 1) as nat),
                pow10((b - 1) as nat) >= 0,
                v >= 0,
        ;
    }
}

proof fn lemma_pow10_nonneg(k: nat)
    ensures
        pow10(k) >= 1,
    decreases k,
{
    if k > 0 {
        lemma_pow10_nonneg((k - 1) as nat);
    }
}

/// `v * 10^k` is at least `v`.
proof fn lemma_scaled_at_least(v: nat, k: nat)
    ensures
        v * pow10(k) >= v,
{
    lemma_pow10_nonneg(k);
    assert(v * pow10(k) >= v) by (nonlinear_arith)
        requires
            pow10(k) >= 1,
    ;
}

/// The mantissa and scale of the digits `ds` carrying `sc` decimals, where
/// the mantissa is at most 10^18.
fn scaled_mantissa(ds: &Vec<u8>, sc: i128) -> (r: Option<(u64, u32)>)
    requires
        all_digits(ds@),
        sc >= -1_000_000_000,
    ensures
        r matches Some((m, e)) ==> mantissa_spec(ds@, sc as int) == (m as int, e as int) && m <= MAX_MANTISSA,
        r is None ==> mantissa_spec(ds@, sc as int).0 > MAX_MANTISSA,
{
    if sc >= 0 && sc <= 9 {
        match digits_upto(ds.as_slice(), 1_000_000_000_000_000_000) {
            Some(v) => Some((v, sc as u32)),
            None => return None,
        }
    } else if sc < 0 {
        let v = match digits_upto(ds.as_slice(), 1_000_000_000_000_000_000) {
            Some(v) => v,
            None => {
                proof {
                    lemma_scaled_at_least(digits_value(ds@), (-sc) as nat);
                }
                return None;
            },
        };
        if v == 0 {
            proof {
                let p = pow10((-sc) as nat);
                assert(digits_value(ds@) == 0);
                assert(digits_value(ds@) * p == 0) by (nonlinear_arith)
                    requires
                        digits_value(ds@) == 0,
                ;
            }
            Some((0, 0))
        } else {
            match scale_up(v, (-sc) as u64) {
                Some(m0) => Some((m0, 0)),
                None => None,
            }
        }
    } else {
        let drop = sc - 9;
        let k: usize = if drop >= ds.len() as i128 {
            0
        } else {
            ds.len() - drop as usize
        };
        let kept = &ds.as_slice()[0..k];
        proof {
            assert(kept@ =~= ds@.take(k as int));
            assert(k as int == kept_len(ds@, sc as int));
            assert(all_digits(kept@)) by {
                assert forall|j: int| 0 <= j < kept@.len() implies #[trigger] is_digit(kept@[j]) by {
                    assert(kept@[j] == ds@[j]);
                }
            }
        }
        let v = match digits_upto(kept, 1_000_000_000_000_000_000) {
            Some(v) => v,
            None => return None,
        };
        let up = k < ds.len() && ds[k] >= 0x35;
        let m0 = if up { v + 1 } else { v };
        proof {
            assert(v as nat == digits_value(ds@.take(k as int)));
            assert(m0 as int == rounded_mantissa(ds@, sc as int) as int);
            assert(mantissa_spec(ds@, sc as int) == (rounded_mantissa(ds@, sc as int) as int, 9int));
        }
        if m0 > 1_000_000_000_000_000_000 {
            return None;
        }
        Some((m0, 9))
    }
}

/// Parses a decimal number.
pub fn parse_decimal(s: &[u8]) -> (r: Option<Decimal>)
    ensures
        r == parse_decimal_spec(s@),
        r matches Some(d) ==> d.wf(),
{
    let signed = s.len() > 0 && (s[0] == 0x2d || s[0] == 0x2b);
    let neg = s.len() > 0 && s[0] == 0x2d;
    let t: &[u8] = if signed {
        &s[1..s.len()]
    } else {
        s
    };
    let mut lowered: Vec<u8> = Vec::new();
    let mut i: usize = 0;
    while i < t.len()
        invariant
            i <= t@.len(),
            lowered@ == lower_e(t@).take(i as int),
        decreases t@.len() - i,
    {
        let c = t[i];
        lowered.push(if c == 0x45 { 0x65 } else { c });
        proof {
            assert(lower_e(t@).take(i as int + 1) =~= lower_e(t@).take(i as int).push(lower_e(t@)[i as int]));
        }
        i = i + 1;
    }
    proof {
        if signed {
            assert(t@ =~= s@.drop_first());
        }
        assert(lower_e(t@).take(t@.len() as int) =~= lower_e(t@));
        lemma_split_on_len(lowered@, 0x65);
    }
    let ep = split_ranges(lowered.as_slice(), 0x65);
    if ep.len() > 2 {
        return None;
    }
    let x: i64 = if ep.len() == 2 {
        match parse_exponent(&lowered.as_slice()[ep[1].0..ep[1].1]) {
            Some(x) => x,
            None => return None,
        }
    } else {
        0
    };
    let (ds, f) = match parse_digits_point_exec(&lowered.as_slice()[ep[0].0..ep[0].1]) {
        Some(p) => p,
        None => return None,
    };
    proof {
        assert(lowered@.subrange(ep@[0].0 as int, ep@[0].1 as int) == split_on(lowered@, 0x65)[0]);
    }
    let (m, scale) = match scaled_mantissa(&ds, f as i128 - x as i128) {
        Some(p) => p,
        None => return None,
    };
    let mi = m as i64;
    Some(Decimal { mantissa: if neg { -mi } else { mi }, scale })
}

/// Why an observation record was refused.
#[derive(Clone, Copy, Debug, PartialEq, Eq, Structural)]
pub enum ParseErrorKind {
    /// A comma-separated record without exactly five fields.
    FieldCount,
    /// A `/range` record without exactly six fields.
    RangeFieldCount,
    /// The offset is not an unsigned 64-bit integer.
    InvalidOffset,
    /// The lower end of the scale is not a decimal number.
    InvalidRangeMin,
    /// The upper end of the scale is not a decimal number.
    InvalidRangeMax,
    /// The observed value is not a decimal number.
    InvalidObserved,
    /// The total range is not a decimal number.
    InvalidRange,
    /// The lower bound is not a decimal number.
    InvalidLowerBound,
    /// The upper bound is not a decimal number.
    InvalidUpperBound,
    /// The lower end of the scale is not below its upper end.
    RangeOrder,
    /// The observed value lies outside the scale.
    ObservedOutOfRange,
    /// The lower bound is not below the upper bound.
    BoundsOrder,
    /// The total range is not positive.
    NonPositiveRange,
    /// The upper bound exceeds the total range.
    UpperAboveRange,
    /// The lower bound is negative.
    NegativeLowerBound,
    /// The input holds no observation at all.
    NoDataPoints,
}

/// A refused input: the (1-based) line, 0 where the input as a whole is at
/// fault, and why.
#[derive(Clone, Copy, Debug, PartialEq, Eq, Structural)]
pub struct ParseError {
    pub line: usize,
    pub kind: ParseErrorKind,
}

/// What a record states: its name, its offset and its raw range.
pub type Record = (Seq<u8>, u64, u32, u32);

/// The bytes of `/range `.
pub open spec fn range_prefix() -> Seq<u8> {
    seq![0x2fu8, 0x72u8, 0x61u8, 0x6eu8, 0x67u8, 0x65u8, 0x20u8]
}

/// A `/range <name> <offset> <total_range> <lower_bound> <upper_bound>`
/// record, given its whitespace-separated fields.
pub open spec fn parse_range_fields(f: Seq<Seq<u8>>) -> Result<Option<Record>, ParseErrorKind> {
    if f.len() != 6 {
        Err(ParseErrorKind::RangeFieldCount)
    } else {
        match parse_u64_spec(f[2]) {
            None => Err(ParseErrorKind::InvalidOffset),
            Some(offset) => match parse_decimal_spec(f[3]) {
                None => Err(ParseErrorKind::InvalidRange),
                Some(range) => match parse_decimal_spec(f[4]) {
                    None => Err(ParseErrorKind::InvalidLowerBound),
                    Some(lower) => match parse_decimal_spec(f[5]) {
                        None => Err(ParseErrorKind::InvalidUpperBound),
                        Some(upper) => if lower.nano() >= upper.nano() {
                            Err(ParseErrorKind::BoundsOrder)
                        } else if range.nano() <= 0 {
                            Err(ParseErrorKind::NonPositiveRange)
                        } else if upper.nano() > range.nano() {
                            Err(ParseErrorKind::UpperAboveRange)
                        } else if lower.nano() < 0 {
                            Err(ParseErrorKind::NegativeLowerBound)
                        } else {
                            let (lo, hi) = exact_raw_range(range, lower, upper);
                            Ok(Some((f[1], offset, lo, hi)))
                        },
                    },
                },
            },
        }
    }
}

/// A `<name>,<offset>,<range_min>,<range_max>,<observed>` record, given its
/// comma-separated fields.
pub open spec fn parse_observed_fields(f: Seq<Seq<u8>>) -> Result<Option<Record>, ParseErrorKind> {
    if f.len() != 5 {
        Err(ParseErrorKind::FieldCount)
    } else {
        match parse_u64_spec(f[1]) {
            None => Err(ParseErrorKind::InvalidOffset),
            Some(offset) => match parse_decimal_spec(f[2]) {
                None => Err(ParseErrorKind::InvalidRangeMin),
                Some(range_min) => match parse_decimal_spec(f[3]) {
                    None => Err(ParseErrorKind::InvalidRangeMax),
                    Some(range_max) => match parse_decimal_spec(f[4]) {
                        None => Err(ParseErrorKind::InvalidObserved),
                        Some(observed) => if range_min.nano() >= range_max.nano() {
                            Err(ParseErrorKind::RangeOrder)
                        } else if observed.nano() < range_min.nano() || observed.nano() > range_max.nano() {
                            Err(ParseErrorKind::ObservedOutOfRange)
                        } else {
                            let (lo, hi) = observed_raw_range(range_min, range_max, observed);
                            Ok(Some((f[0], offset, lo, hi)))
                        },
                    },
                },
            },
        }
    }
}

/// One line of input: nothing for a blank line or a `#` comment, else a
/// record in one of the two forms.
pub open spec fn parse_line_spec(line: Seq<u8>) -> Result<Option<Record>, ParseErrorKind> {
    let t = trim(line);
    if t.len() == 0 || t[0] == 0x23 {
        Ok(None)
    } else if t.len() >= 7 && t.take(7) == range_prefix() {
        parse_range_fields(ws_fields(t))
    } else {
        parse_observed_fields(split_on(t, 0x2c))
    }
}

/// The records of the first `n` lines, or the first refusal among them.
pub open spec fn parse_prefix(lines: Seq<Seq<u8>>, n: nat) -> Result<Seq<Record>, ParseError>
    decreases n,
{
    if n == 0 {
        Ok(Seq::empty())
    } else {
        match parse_prefix(lines, (n - 1) as nat) {
            Err(e) => Err(e),
            Ok(v) => match parse_line_spec(lines[n - 1]) {
                Err(k) => Err(ParseError { line: n as usize, kind: k }),
                Ok(None) => Ok(v),
                Ok(Some(x)) => Ok(v.push(x)),
            },
        }
    }
}

/// A refusal among the first `j` lines is the refusal of the first `m >= j`.
proof fn lemma_prefix_err_sticks(lines: Seq<Seq<u8>>, j: nat, m: nat)
    requires
        j <= m,
        parse_prefix(lines, j) is Err,
    ensures
        parse_prefix(lines, m) == parse_prefix(lines, j),
    decreases m - j,
{
    if m > j {
        lemma_prefix_err_sticks(lines, j, (m - 1) as nat);
    }
}

/// The records of a whole input, split into lines at `\n`; an input with no
/// record is refused.
pub open spec fn parse_input_spec(contents: Seq<u8>) -> Result<Seq<Record>, ParseError> {
    let lines = split_on(contents, 0x0a);
    match parse_prefix(lines, lines.len()) {
        Err(e) => Err(e),
        Ok(v) => if v.len() == 0 {
            Err(ParseError { line: 0, kind: ParseErrorKind::NoDataPoints })
        } else {
            Ok(v)
        },
    }
}

/// The text that a name's bytes decode to, invalid sequences replaced.
pub uninterp spec fn utf8_lossy(b: Seq<u8>) -> Seq<char>;

/// Relies on `String::from_utf8_lossy`: the text depends on the bytes alone,
/// and valid UTF-8 comes back as the text it encodes.
#[verifier::external_body]
fn string_from_bytes(b: &[u8]) -> (r: String)
    ensures
        r@ == utf8_lossy(b@),
        valid_utf8(b@) ==> r@ == decode_utf8(b@),
{
    String::from_utf8_lossy(b).into_owned()
}

/// Whether `dp` holds what the record `x` states.
pub open spec fn holds_record(dp: DataPoint, x: Record) -> bool {
    &&& dp.name@ == utf8_lossy(x.0)
    &&& valid_utf8(x.0) ==> dp.name@ == decode_utf8(x.0)
    &&& dp.offset == x.1
    &&& dp.min_u32 == x.2
    &&& dp.max_u32 == x.3
}

/// Whether the parsed line `r` is what `s` describes.
pub open spec fn line_agrees(r: Result<Option<DataPoint>, ParseErrorKind>, s: Result<Option<Record>, ParseErrorKind>) -> bool {
    match s {
        Err(k) => r == Err::<Option<DataPoint>, ParseErrorKind>(k),
        Ok(None) => r matches Ok(None),
        Ok(Some(x)) => r matches Ok(Some(dp)) && holds_record(dp, x),
    }
}

/// Parses the fields of a `/range` record.
fn parse_range_record(t: &[u8]) -> (r: Result<Option<DataPoint>, ParseErrorKind>)
    ensures
        line_agrees(r, parse_range_fields(ws_fields(t@))),
{
    let f = ws_ranges(t);
    if f.len() != 6 {
        return Err(ParseErrorKind::RangeFieldCount);
    }
    proof {
        let g = ws_fields(t@);
        assert(f@[1].0 <= f@[1].1 <= t@.len() && t@.subrange(f@[1].0 as int, f@[1].1 as int) == g[1]);
        assert(f@[2].0 <= f@[2].1 <= t@.len() && t@.subrange(f@[2].0 as int, f@[2].1 as int) == g[2]);
        assert(f@[3].0 <= f@[3].1 <= t@.len() && t@.subrange(f@[3].0 as int, f@[3].1 as int) == g[3]);
        assert(f@[4].0 <= f@[4].1 <= t@.len() && t@.subrange(f@[4].0 as int, f@[4].1 as int) == g[4]);
        assert(f@[5].0 <= f@[5].1 <= t@.len() && t@.subrange(f@[5].0 as int, f@[5].1 as int) == g[5]);
    }
    let offset = match parse_u64(&t[f[2].0..f[2].1]) {
        Some(v) => v,
        None => return Err(ParseErrorKind::InvalidOffset),
    };
    let range = match parse_decimal(&t[f[3].0..f[3].1]) {
        Some(v) => v,
        None => return Err(ParseErrorKind::InvalidRange),
    };
    let lower = match parse_decimal(&t[f[4].0..f[4].1]) {
        Some(v) => v,
        None => return Err(ParseErrorKind::InvalidLowerBound),
    };
    let upper = match parse_decimal(&t[f[5].0..f[5].1]) {
        Some(v) => v,
        None => return Err(ParseErrorKind::InvalidUpperBound),
    };
    let (range_n, lower_n, upper_n) = (range.to_nano(), lower.to_nano(), upper.to_nano());
    if lower_n >= upper_n {
        return Err(ParseErrorKind::BoundsOrder);
    }
    if range_n <= 0 {
        return Err(ParseErrorKind::NonPositiveRange);
    }
    if upper_n > range_n {
        return Err(ParseErrorKind::UpperAboveRange);
    }
    if lower_n < 0 {
        return Err(ParseErrorKind::NegativeLowerBound);
    }
    let (min_u32, max_u32) = DataPoint::calculate_range_u32_range(range, lower, upper);
    let name = string_from_bytes(&t[f[1].0..f[1].1]);
    Ok(Some(DataPoint { offset, name, min_u32, max_u32 }))
}

/// Parses the fields of a comma-separated record.
fn parse_observed_record(t: &[u8]) -> (r: Result<Option<DataPoint>, ParseErrorKind>)
    ensures
        line_agrees(r, parse_observed_fields(split_on(t@, 0x2c))),
{
    let f = split_ranges(t, 0x2c);
    if f.len() != 5 {
        return Err(ParseErrorKind::FieldCount);
    }
    proof {
        let g = split_on(t@, 0x2c);
        assert(f@[0].0 <= f@[0].1 <= t@.len() && t@.subrange(f@[0].0 as int, f@[0].1 as int) == g[0]);
        assert(f@[1].0 <= f@[1].1 <= t@.len() && t@.subrange(f@[1].0 as int, f@[1].1 as int) == g[1]);
        assert(f@[2].0 <= f@[2].1 <= t@.len() && t@.subrange(f@[2].0 as int, f@[2].1 as int) == g[2]);
        assert(f@[3].0 <= f@[3].1 <= t@.len() && t@.subrange(f@[3].0 as int, f@[3].1 as int) == g[3]);
        assert(f@[4].0 <= f@[4].1 <= t@.len() && t@.subrange(f@[4].0 as int, f@[4].1 as int) == g[4]);
    }
    let offset = match parse_u64(&t[f[1].0..f[1].1]) {
        Some(v) => v,
        None => return Err(ParseErrorKind::InvalidOffset),
    };
    let range_min = match parse_decimal(&t[f[2].0..f[2].1]) {
        Some(v) => v,
        None => return Err(ParseErrorKind::InvalidRangeMin),
    };
    let range_max = match parse_decimal(&t[f[3].0..f[3].1]) {
        Some(v) => v,
        None => return Err(ParseErrorKind::InvalidRangeMax),
    };
    let observed = match parse_decimal(&t[f[4].0..f[4].1]) {
        Some(v) => v,
        None => return Err(ParseErrorKind::InvalidObserved),
    };
    let (min_n, max_n, obs_n) = (range_min.to_nano(), range_max.to_nano(), observed.to_nano());
    if min_n >= max_n {
        return Err(ParseErrorKind::RangeOrder);
    }
    if obs_n < min_n || obs_n > max_n {
        return Err(ParseErrorKind::ObservedOutOfRange);
    }
    let (min_u32, max_u32) = DataPoint::calculate_observed_u32_range(range_min, range_max, observed);
    let name = string_from_bytes(&t[f[0].0..f[0].1]);
    Ok(Some(DataPoint { offset, name, min_u32, max_u32 }))
}

/// Parses one line of input.
pub fn parse_line(line: &[u8]) -> (r: Result<Option<DataPoint>, ParseErrorKind>)
    ensures
        line_agrees(r, parse_line_spec(line@)),
{
    let (a, b) = trim_range(line);
    let t = &line[a..b];
    if t.len() == 0 || t[0] == 0x23 {
        return Ok(None);
    }
    if t.len() >= 7 && t[0] == 0x2f && t[1] == 0x72 && t[2] == 0x61 && t[3] == 0x6e && t[4] == 0x67 && t[5] == 0x65
        && t[6] == 0x20 {
        proof {
            assert(t@.take(7) =~= range_prefix());
        }
        parse_range_record(t)
    } else {
        proof {
            if t@.len() >= 7 {
                if t@.take(7) == range_prefix() {
                    assert(t@.take(7)[0] == t@[0]);
                    assert(t@.take(7)[1] == t@[1]);
                    assert(t@.take(7)[2] == t@[2]);
                    assert(t@.take(7)[3] == t@[3]);
                    assert(t@.take(7)[4] == t@[4]);
                    assert(t@.take(7)[5] == t@[5]);
                    assert(t@.take(7)[6] == t@[6]);
                }
            }
        }
        parse_observed_record(t)
    }
}

/// Parses a whole input: one record per line, in either form, with blank
/// lines and `#` comments skipped. The first refused line refuses the whole
/// input, and an input without records is refused.
///
/// Numbers are held exactly at nine decimals at most: a number with more is
/// rounded to nine (half away from zero). A number is refused, as a
/// malformed one is, where it is not finite (`inf`, `nan`), where its
/// exponent exceeds 10^9 in magnitude, or where its mantissa at that scale
/// exceeds 10^18 (for instance `1e19`, or 1234567890.1234567891).
pub fn parse_input(contents: &[u8]) -> (r: Result<Vec<DataPoint>, ParseError>)
    ensures
        match parse_input_spec(contents@) {
            Err(e) => r == Err::<Vec<DataPoint>, ParseError>(e),
            Ok(x) => r matches Ok(v) && v@.len() == x.len() && forall|i: int|
                0 <= i < x.len() ==> #[trigger] holds_record(v@[i], x[i]),
        },
{
    let lines = split_ranges(contents, 0x0a);
    let ghost ls = split_on(contents@, 0x0a);
    let mut out: Vec<DataPoint> = Vec::new();
    let mut n: usize = 0;
    while n < lines.len()
        invariant
            n <= lines@.len() == ls.len(),
            ls == split_on(contents@, 0x0a),
            forall|q: int| #![trigger lines@[q]] 0 <= q < lines@.len() ==> lines@[q].0 <= lines@[q].1
                <= contents@.len() && contents@.subrange(lines@[q].0 as int, lines@[q].1 as int) == ls[q],
            parse_prefix(ls, n as nat) matches Ok(x) && out@.len() == x.len() && forall|i: int|
                0 <= i < x.len() ==> #[trigger] holds_record(out@[i], x[i]),
        decreases lines@.len() - n,
    {
        let (a, b) = lines[n];
        let ghost prev = parse_prefix(ls, n as nat);
        proof {
            assert(contents@.subrange(a as int, b as int) == ls[n as int]);
        }
        match parse_line(&contents[a..b]) {
            Err(k) => {
                proof {
                    assert(parse_prefix(ls, (n + 1) as nat) == Err::<Seq<Record>, ParseError>(ParseError { line: (n + 1) as usize, kind: k }));
                    lemma_prefix_err_sticks(ls, (n + 1) as nat, ls.len());
                }
                return Err(ParseError { line: n + 1, kind: k });
            },
            Ok(None) => {},
            Ok(Some(dp)) => {
                let ghost before = out@;
                out.push(dp);
                proof {
                    let x = prev->Ok_0;
                    let y = parse_line_spec(ls[n as int])->Ok_0->Some_0;
                    assert forall|i: int| 0 <= i < x.len() + 1 implies #[trigger] holds_record(out@[i], x.push(y)[i]) by {
                        if i < x.len() {
                            assert(out@[i] == before[i]);
                        }
                    }
                }
            },
        }
        n = n + 1;
    }
    if out.len() == 0 {
        return Err(ParseError { line: 0, kind: ParseErrorKind::NoDataPoints });
    }
    Ok(out)
}

} // verus!
