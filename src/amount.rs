//! Fixed-point amounts written as decimal text.
use vstd::prelude::*;

verus! {

pub open spec fn is_digit(c: char) -> bool {
    '0' <= c && c <= '9'
}

pub open spec fn all_digits(s: Seq<char>) -> bool {
    forall|i: int| 0 <= i < s.len() ==> is_digit(#[trigger] s[i])
}

pub open spec fn digit_value(c: char) -> int {
    (c as u32) - ('0' as u32)
}

/// The number that the decimal digits `s` spell, most significant first.
pub open spec fn digits_value(s: Seq<char>) -> int
    decreases s.len(),
{
    if s.len() == 0 {
        0
    } else {
        digits_value(s.drop_last()) * 10 + digit_value(s.last())
    }
}

/// The index of the first `'.'` in `s`, or its length if there is none.
pub open spec fn dot_pos(s: Seq<char>) -> int
    decreases s.len(),
{
    if s.len() == 0 {
        0
    } else if s[0] == '.' {
        0
    } else {
        1 + dot_pos(s.drop_first())
    }
}

/// Fractional digits as ten-thousandths; digits past the fourth are dropped.
pub open spec fn fraction_units(f: Seq<char>) -> int {
    if f.len() >= 4 {
        digits_value(f.take(4))
    } else if f.len() == 3 {
        digits_value(f) * 10
    } else if f.len() == 2 {
        digits_value(f) * 100
    } else if f.len() == 1 {
        digits_value(f) * 1000
    } else {
        0
    }
}

/// The value in ten-thousandths of unsigned decimal text: digits, optionally
/// a point and more digits, with at least one digit in all.
pub open spec fn unsigned_amount(s: Seq<char>) -> Option<int> {
    let k = dot_pos(s);
    let whole = s.take(k);
    let frac = if k < s.len() { s.skip(k + 1) } else { Seq::<char>::empty() };
    if all_digits(whole) && all_digits(frac) && whole.len() + frac.len() > 0 {
        Some(digits_value(whole) * 10000 + fraction_units(frac))
    } else {
        None
    }
}

/// The value in ten-thousandths of decimal text with an optional sign.
pub open spec fn amount_value(s: Seq<char>) -> Option<int> {
    if s.len() > 0 && s[0] == '-' {
        match unsigned_amount(s.drop_first()) {
            Some(v) => Some(-v),
            None => None,
        }
    } else if s.len() > 0 && s[0] == '+' {
        unsigned_amount(s.drop_first())
    } else {
        unsigned_amount(s)
    }
}

/// The fixed-point value of amount text, when it is well formed and fits.
pub open spec fn amount_in_range(a: Seq<char>) -> Option<i64> {
    match amount_value(a) {
        Some(v) => if -i64::MAX <= v <= i64::MAX {
            Some(v as i64)
        } else {
            None
        },
        None => None,
    }
}

proof fn lemma_digits_nonneg(s: Seq<char>)
    requires
        all_digits(s),
    ensures
        digits_value(s) >= 0,
    decreases s.len(),
{
    if s.len() > 0 {
        lemma_digits_nonneg(s.drop_last());
    }
}

pub open spec fn ten_pow(n: nat) -> int
    decreases n,
{
    if n == 0 {
        1
    } else {
        10 * ten_pow((n - 1) as nat)
    }
}

proof fn lemma_digits_bound(s: Seq<char>)
    requires
        all_digits(s),
    ensures
        0 <= digits_value(s) < ten_pow(s.len()),
    decreases s.len(),
{
    if s.len() > 0 {
        lemma_digits_bound(s.drop_last());
    }
}

proof fn lemma_fraction_units_range(f: Seq<char>)
    requires
        all_digits(f),
    ensures
        0 <= fraction_units(f) < 10000,
{
    if f.len() >= 4 {
        lemma_all_digits_split(f, 4);
        lemma_digits_bound(f.take(4));
    } else {
        lemma_digits_bound(f);
    }
    reveal_with_fuel(ten_pow, 5);
}

proof fn lemma_unsigned_nonneg(t: Seq<char>)
    ensures
        unsigned_amount(t) matches Some(v) ==> v >= 0,
{
    let k = dot_pos(t);
    let whole = t.take(k);
    let frac = if k < t.len() { t.skip(k + 1) } else { Seq::<char>::empty() };
    if all_digits(whole) && all_digits(frac) {
        lemma_digits_nonneg(whole);
        lemma_fraction_units_range(frac);
    }
}

proof fn lemma_digits_prefix_le(s: Seq<char>, i: int)
    requires
        all_digits(s),
        0 <= i <= s.len(),
    ensures
        digits_value(s.take(i)) <= digits_value(s),
    decreases s.len(),
{
    if i == s.len() {
        assert(s.take(i) =~= s);
    } else {
        let t = s.drop_last();
        lemma_digits_prefix_le(t, i);
        lemma_digits_nonneg(t);
        assert(t.take(i) =~= s.take(i));
    }
}

proof fn lemma_dot_pos(t: Seq<char>, k: int)
    requires
        0 <= k <= t.len(),
        forall|j: int| 0 <= j < k ==> t[j] != '.',
        k < t.len() ==> t[k] == '.',
    ensures
        dot_pos(t) == k,
    decreases k,
{
    if k > 0 {
        lemma_dot_pos(t.drop_first(), k - 1);
    }
}

proof fn lemma_all_digits_split(s: Seq<char>, m: int)
    requires
        0 <= m <= s.len(),
    ensures
        all_digits(s) <==> all_digits(s.take(m)) && all_digits(s.skip(m)),
{
    if all_digits(s.take(m)) && all_digits(s.skip(m)) {
        assert forall|i: int| 0 <= i < s.len() implies is_digit(#[trigger] s[i]) by {
            if i < m {
                assert(s.take(m)[i] == s[i]);
            } else {
                assert(s.skip(m)[i - m] == s[i]);
            }
        }
    }
    if all_digits(s) {
        assert forall|i: int| 0 <= i < s.take(m).len() implies is_digit(#[trigger] s.take(m)[i]) by {
            assert(s.take(m)[i] == s[i]);
        }
        assert forall|i: int| 0 <= i < s.skip(m).len() implies is_digit(#[trigger] s.skip(m)[i]) by {
            assert(s.skip(m)[i] == s[i + m]);
        }
    }
}

/// The first index at or after `from` that holds `'.'`, or the length.
fn find_dot(s: &str, from: usize) -> (k: usize)
    requires
        from <= s@.len(),
    ensures
        from <= k <= s@.len(),
        forall|j: int| from <= j < k ==> s@[j] != '.',
        k < s@.len() ==> s@[k as int] == '.',
{
    let n = s.unicode_len();
    let mut k = from;
    while k < n
        invariant
            n == s@.len(),
            from <= k <= n,
            forall|j: int| from <= j < k ==> s@[j] != '.',
        decreases n - k,
    {
        if s.get_char(k) == '.' {
            return k;
        }
        k = k + 1;
    }
    k
}

/// The value of the digits `s[from..to]`, if they are all digits and the
/// value fits in an `i64`.
fn digits_in(s: &str, from: usize, to: usize) -> (r: Option<i64>)
    requires
        from <= to <= s@.len(),
    ensures
        ({
            let d = s@.subrange(from as int, to as int);
            match r {
                Some(v) => all_digits(d) && v as int == digits_value(d),
                None => !all_digits(d) || digits_value(d) > i64::MAX,
            }
        }),
{
    let ghost d = s@.subrange(from as int, to as int);
    let mut value: i64 = 0;
    let mut i = from;
    while i < to
        invariant
            from <= i <= to <= s@.len(),
            d == s@.subrange(from as int, to as int),
            all_digits(d.take(i - from)),
            value as int == digits_value(d.take(i - from)),
        decreases to - i,
    {
        let c = s.get_char(i);
        let ghost j = i - from;
        assert(d.take(j + 1).drop_last() =~= d.take(j));
        assert(d[j] == c);
        if c < '0' || c > '9' {
            assert(!is_digit(d[j]));
            return None;
        }
        let digit = (c as u32 - '0' as u32) as i64;
        proof {
            assert forall|t: int| 0 <= t < j + 1 implies is_digit(#[trigger] d.take(j + 1)[t]) by {
                if t < j {
                    assert(d.take(j + 1)[t] == d.take(j)[t]);
                }
            }
        }
        match value.checked_mul(10) {
            Some(tens) => match tens.checked_add(digit) {
                Some(next) => {
                    value = next;
                },
                None => {
                    proof {
                        lemma_all_digits_split(d, j + 1);
                        if all_digits(d) {
                            lemma_digits_prefix_le(d, j + 1);
                        }
                    }
                    return None;
                },
            },
            None => {
                proof {
                    lemma_digits_nonneg(d.take(j));
                    lemma_all_digits_split(d, j + 1);
                    if all_digits(d) {
                        lemma_digits_prefix_le(d, j + 1);
                    }
                }
                return None;
            },
        }
        i = i + 1;
    }
    assert(d.take(to - from) =~= d);
    Some(value)
}

/// The fractional digits `s[from..]` as ten-thousandths, if they are all
/// digits.
fn fraction_in(s: &str, from: usize) -> (r: Option<i64>)
    requires
        from <= s@.len(),
    ensures
        ({
            let f = s@.skip(from as int);
            match r {
                Some(u) => all_digits(f) && u as int == fraction_units(f),
                None => !all_digits(f),
            }
        }),
{
    let n = s.unicode_len();
    let ghost f = s@.skip(from as int);
    assert(f =~= s@.subrange(from as int, n as int));
    let len = n - from;
    let kept = if len > 4 { 4 } else { len };
    let ghost h = s@.subrange(from as int, from + kept);
    assert(f.take(kept as int) =~= h);
    assert(f.skip(kept as int) =~= s@.subrange(from + kept, n as int));
    proof {
        lemma_all_digits_split(f, kept as int);
    }
    let head = match digits_in(s, from, from + kept) {
        Some(v) => v,
        None => {
            proof {
                if all_digits(h) {
                    lemma_digits_bound(h);
                    reveal_with_fuel(ten_pow, 5);
                }
            }
            return None;
        },
    };
    if !all_digits_in(s, from + kept, n) {
        return None;
    }
    proof {
        lemma_digits_bound(h);
        reveal_with_fuel(ten_pow, 5);
        if kept < 4 {
            assert(h =~= f);
        }
    }
    if kept == 4 {
        Some(head)
    } else if kept == 3 {
        Some(head * 10)
    } else if kept == 2 {
        Some(head * 100)
    } else if kept == 1 {
        Some(head * 1000)
    } else {
        Some(0)
    }
}

/// The unsigned decimal text `s[start..]` in ten-thousandths, if it is well
/// formed and fits in an `i64`.
fn unsigned_in(s: &str, start: usize) -> (r: Option<i64>)
    requires
        start <= s@.len(),
    ensures
        match unsigned_amount(s@.skip(start as int)) {
            Some(v) => if v <= i64::MAX {
                r == Some(v as i64)
            } else {
                r is None
            },
            None => r is None,
        },
        r matches Some(m) ==> m >= 0,
{
    let n = s.unicode_len();
    let ghost body = s@.skip(start as int);
    let k = find_dot(s, start);
    proof {
        lemma_dot_pos(body, k - start);
        assert(body.take(k - start) =~= s@.subrange(start as int, k as int));
    }
    let frac_start = if k < n { k + 1 } else { n };
    let ghost frac = if k < n { body.skip(k - start + 1) } else { Seq::<char>::empty() };
    assert(frac =~= s@.skip(frac_start as int));
    let units = match fraction_in(s, frac_start) {
        Some(u) => u,
        None => {
            return None;
        },
    };
    proof {
        lemma_fraction_units_range(frac);
    }
    if k == start && frac_start == n {
        return None;
    }
    let whole = match digits_in(s, start, k) {
        Some(w) => w,
        None => {
            return None;
        },
    };
    proof {
        lemma_digits_nonneg(s@.subrange(start as int, k as int));
    }
    match whole.checked_mul(10000) {
        Some(w) => w.checked_add(units),
        None => None,
    }
}

/// Parses decimal text with an optional sign into ten-thousandths. Digits
/// past the fourth fractional one are dropped. Gives `None` for text of
/// another form and for magnitudes beyond `i64::MAX`.
pub fn parse_amount(s: &str) -> (r: Option<i64>)
    ensures
        r == amount_in_range(s@),
{
    let n = s.unicode_len();
    if n > 0 {
        let c = s.get_char(0);
        if c == '-' {
            assert(s@.skip(1) =~= s@.drop_first());
            proof {
                lemma_unsigned_nonneg(s@.drop_first());
            }
            return match unsigned_in(s, 1) {
                Some(m) => Some(-m),
                None => None,
            };
        } else if c == '+' {
            assert(s@.skip(1) =~= s@.drop_first());
            proof {
                lemma_unsigned_nonneg(s@.drop_first());
            }
            return unsigned_in(s, 1);
        }
    }
    assert(s@.skip(0) =~= s@);
    proof {
        lemma_unsigned_nonneg(s@);
    }
    unsigned_in(s, 0)
}

/// Whether `s[from..to]` holds digits only.
fn all_digits_in(s: &str, from: usize, to: usize) -> (r: bool)
    requires
        from <= to <= s@.len(),
    ensures
        r == all_digits(s@.subrange(from as int, to as int)),
{
    let mut i = from;
    while i < to
        invariant
            from <= i <= to <= s@.len(),
            forall|j: int| from <= j < i ==> is_digit(#[trigger] s@[j]),
        decreases to - i,
    {
        let c = s.get_char(i);
        if c < '0' || c > '9' {
            assert(s@.subrange(from as int, to as int)[i - from] == c);
            return false;
        }
        i = i + 1;
    }
    assert forall|j: int| 0 <= j < to - from implies is_digit(
        #[trigger] s@.subrange(from as int, to as int)[j],
    ) by {
        assert(s@.subrange(from as int, to as int)[j] == s@[from + j]);
    }
    true
}

/// The parts in which an amount is written with exactly four fractional
/// digits: whether it is negative, its whole units and its remaining
/// ten-thousandths.
pub fn amount_parts(v: i64) -> (r: (bool, u64, u64))
    ensures
        r.0 == (v < 0),
        r.2 < 10000,
        r.1 * 10000 + r.2 == if v < 0 { -v } else { v as int },
{
    let magnitude: u64 = if v < 0 {
        if v == i64::MIN {
            (i64::MAX as u64) + 1
        } else {
            (-v) as u64
        }
    } else {
        v as u64
    };
    (v < 0, magnitude / 10000, magnitude % 10000)
}

} // verus!
