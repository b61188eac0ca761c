//! Character-level helpers: decimal and hexadecimal rendering, and the
//! conversions between `String` and `Vec<char>`.
use vstd::prelude::*;

verus! {

/// The ASCII digit for a value below ten.
pub open spec fn digit_char(d: nat) -> char {
    if d == 0 { '0' }
    else if d == 1 { '1' }
    else if d == 2 { '2' }
    else if d == 3 { '3' }
    else if d == 4 { '4' }
    else if d == 5 { '5' }
    else if d == 6 { '6' }
    else if d == 7 { '7' }
    else if d == 8 { '8' }
    else { '9' }
}

/// Decimal rendering of a natural number, without leading zeros.
pub open spec fn dec(n: nat) -> Seq<char>
    decreases n,
{
    if n < 10 {
        seq![digit_char(n)]
    } else {
        dec(n / 10) + seq![digit_char(n % 10)]
    }
}

/// The last `k` decimal digits of `r`, padded with leading zeros.
pub open spec fn padded(r: nat, k: nat) -> Seq<char>
    decreases k,
{
    if k == 0 {
        Seq::empty()
    } else {
        padded(r / 10, (k - 1) as nat) + seq![digit_char(r % 10)]
    }
}

/// The `k` digits of the fraction `r / 10^k`, with trailing zeros removed.
pub open spec fn frac_digits(r: nat, k: nat) -> Seq<char>
    decreases k,
{
    if k > 0 && r % 10 == 0 {
        frac_digits(r / 10, (k - 1) as nat)
    } else {
        padded(r, k)
    }
}

pub open spec fn pow10(k: nat) -> nat
    decreases k,
{
    if k == 0 { 1 } else { 10 * pow10((k - 1) as nat) }
}

/// The shortest decimal rendering of `v / 10^k`: the integer part, then a dot
/// and the significant fractional digits when there are any ("2.5", "10").
pub open spec fn fixed(v: nat, k: nat) -> Seq<char> {
    let q = v / pow10(k);
    let r = v % pow10(k);
    if r == 0 {
        dec(q)
    } else {
        dec(q) + seq!['.'] + frac_digits(r, k)
    }
}

/// Decimal rendering with at least two digits (`{:02}`).
pub open spec fn dec2(n: nat) -> Seq<char> {
    if n < 10 { seq!['0'] + dec(n) } else { dec(n) }
}

/// Lowercase hexadecimal digit for a value below sixteen.
pub open spec fn hex_char(d: nat) -> char {
    if d < 10 { digit_char(d) }
    else if d == 10 { 'a' }
    else if d == 11 { 'b' }
    else if d == 12 { 'c' }
    else if d == 13 { 'd' }
    else if d == 14 { 'e' }
    else { 'f' }
}

/// Two lowercase hexadecimal digits of a byte.
pub open spec fn hex2(b: u8) -> Seq<char> {
    seq![hex_char((b / 16) as nat), hex_char((b % 16) as nat)]
}

pub fn digit(d: u64) -> (c: char)
    requires
        d < 10,
    ensures
        c == digit_char(d as nat),
{
    if d == 0 { '0' }
    else if d == 1 { '1' }
    else if d == 2 { '2' }
    else if d == 3 { '3' }
    else if d == 4 { '4' }
    else if d == 5 { '5' }
    else if d == 6 { '6' }
    else if d == 7 { '7' }
    else if d == 8 { '8' }
    else { '9' }
}

fn hex_digit(d: u8) -> (c: char)
    requires
        d < 16,
    ensures
        c == hex_char(d as nat),
{
    if d < 10 { digit(d as u64) }
    else if d == 10 { 'a' }
    else if d == 11 { 'b' }
    else if d == 12 { 'c' }
    else if d == 13 { 'd' }
    else if d == 14 { 'e' }
    else { 'f' }
}

/// Appends the decimal rendering of `n`.
pub fn push_dec(out: &mut Vec<char>, n: u64)
    ensures
        final(out)@ == old(out)@ + dec(n as nat),
    decreases n,
{
    if n < 10 {
        out.push(digit(n));
    } else {
        push_dec(out, n / 10);
        out.push(digit(n % 10));
        assert(final(out)@ =~= old(out)@ + dec(n as nat));
    }
}

/// Appends the decimal rendering of `n` with at least two digits.
pub fn push_dec2(out: &mut Vec<char>, n: u64)
    ensures
        final(out)@ == old(out)@ + dec2(n as nat),
{
    if n < 10 {
        out.push('0');
    }
    push_dec(out, n);
    assert(final(out)@ =~= old(out)@ + dec2(n as nat));
}

/// Appends the `k` last digits of `r`, zero padded.
pub fn push_padded(out: &mut Vec<char>, r: u64, k: u64)
    ensures
        final(out)@ == old(out)@ + padded(r as nat, k as nat),
    decreases k,
{
    if k > 0 {
        push_padded(out, r / 10, k - 1);
        out.push(digit(r % 10));
        assert(final(out)@ =~= old(out)@ + padded(r as nat, k as nat));
    }
}

/// Appends the significant digits of the fraction `r / 10^k`.
fn push_frac(out: &mut Vec<char>, r: u64, k: u64)
    ensures
        final(out)@ == old(out)@ + frac_digits(r as nat, k as nat),
    decreases k,
{
    if k > 0 && r % 10 == 0 {
        push_frac(out, r / 10, k - 1);
    } else {
        push_padded(out, r, k);
    }
}

fn pow10_exec(k: u64) -> (p: u64)
    requires
        k <= 6,
    ensures
        p == pow10(k as nat),
        1 <= p <= 1_000_000,
{
    proof { reveal_with_fuel(pow10, 7); }
    if k == 0 { 1 }
    else if k == 1 { 10 }
    else if k == 2 { 100 }
    else if k == 3 { 1000 }
    else if k == 4 { 10_000 }
    else if k == 5 { 100_000 }
    else { 1_000_000 }
}

/// Appends the shortest decimal rendering of `v / 10^k`.
pub fn push_fixed(out: &mut Vec<char>, v: u64, k: u64)
    requires
        k <= 6,
    ensures
        final(out)@ == old(out)@ + fixed(v as nat, k as nat),
{
    let p = pow10_exec(k);
    let q = v / p;
    let r = v % p;
    push_dec(out, q);
    if r != 0 {
        out.push('.');
        push_frac(out, r, k);
        assert(final(out)@ =~= old(out)@ + fixed(v as nat, k as nat));
    }
}

/// Appends two lowercase hexadecimal digits of `b`.
pub fn push_hex2(out: &mut Vec<char>, b: u8)
    ensures
        final(out)@ == old(out)@ + hex2(b),
{
    out.push(hex_digit(b / 16));
    out.push(hex_digit(b % 16));
    assert(final(out)@ =~= old(out)@ + hex2(b));
}

/// Appends every character of `s`.
pub fn push_str(out: &mut Vec<char>, s: &str)
    ensures
        final(out)@ == old(out)@ + s@,
{
    let chars = str_chars(s);
    push_chars(out, &chars);
}

/// Appends every character of `v`.
pub fn push_chars(out: &mut Vec<char>, v: &Vec<char>)
    ensures
        final(out)@ == old(out)@ + v@,
{
    let ghost start = out@;
    let n = v.len();
    let mut i: usize = 0;
    while i < n
        invariant
            n == v@.len(),
            i <= n,
            out@ == start + v@.subrange(0, i as int),
        decreases n - i,
    {
        out.push(v[i]);
        i = i + 1;
        assert(out@ =~= start + v@.subrange(0, i as int));
    }
    assert(v@.subrange(0, n as int) =~= v@);
}

/// The characters of a string slice, in order.
pub fn str_chars(s: &str) -> (v: Vec<char>)
    ensures
        v@ == s@,
{
    let mut v: Vec<char> = Vec::new();
    for c in it: s.chars()
        invariant
            v@ == it.seq().take(it.index() as int),
    {
        v.push(c);
        assert(v@ =~= it.seq().take(it.index() as int + 1));
    }
    assert(v@ =~= s@);
    v
}

/// The string made of the given characters, in order.
#[verifier::external_body]
pub(crate) fn string_from_chars(v: &Vec<char>) -> (s: String)
    ensures
        s@ == v@,
{
    String::from_iter(v.iter())
}

/// The characters that Rust's `char::is_whitespace` accepts (Unicode
/// White_Space).
pub open spec fn is_ws(c: char) -> bool {
    let u = c as u32;
    ||| 0x9 <= u <= 0xD
    ||| u == 0x20
    ||| u == 0x85
    ||| u == 0xA0
    ||| u == 0x1680
    ||| 0x2000 <= u <= 0x200A
    ||| u == 0x2028
    ||| u == 0x2029
    ||| u == 0x202F
    ||| u == 0x205F
    ||| u == 0x3000
}

/// `s` without its leading whitespace.
pub open spec fn trim_front(s: Seq<char>) -> Seq<char>
    decreases s.len(),
{
    if s.len() > 0 && is_ws(s[0]) { trim_front(s.drop_first()) } else { s }
}

/// `s` without its trailing whitespace.
pub open spec fn trim_back(s: Seq<char>) -> Seq<char>
    decreases s.len(),
{
    if s.len() > 0 && is_ws(s.last()) { trim_back(s.drop_last()) } else { s }
}

/// `s` without leading and trailing whitespace, as `str::trim` gives it.
pub open spec fn trimmed(s: Seq<char>) -> Seq<char> {
    trim_back(trim_front(s))
}

fn char_is_ws(c: char) -> (b: bool)
    ensures
        b == is_ws(c),
{
    let u = c as u32;
    (0x9 <= u && u <= 0xD) || u == 0x20 || u == 0x85 || u == 0xA0 || u == 0x1680
        || (0x2000 <= u && u <= 0x200A) || u == 0x2028 || u == 0x2029 || u == 0x202F
        || u == 0x205F || u == 0x3000
}

proof fn lemma_trim_front(s: Seq<char>, lo: int)
    requires
        0 <= lo <= s.len(),
        forall|j: int| 0 <= j < lo ==> is_ws(#[trigger] s[j]),
        lo == s.len() || !is_ws(s[lo]),
    ensures
        trim_front(s) == s.skip(lo),
    decreases lo,
{
    if lo == 0 {
        assert(s.skip(0) =~= s);
    } else {
        let t = s.drop_first();
        assert forall|j: int| 0 <= j < lo - 1 implies is_ws(#[trigger] t[j]) by {
            assert(is_ws(s[j + 1]));
        }
        lemma_trim_front(t, lo - 1);
        assert(t.skip(lo - 1) =~= s.skip(lo));
    }
}

proof fn lemma_trim_back(s: Seq<char>, hi: int)
    requires
        0 <= hi <= s.len(),
        forall|j: int| hi <= j < s.len() ==> is_ws(#[trigger] s[j]),
        hi == 0 || !is_ws(s[hi - 1]),
    ensures
        trim_back(s) == s.take(hi),
    decreases s.len() - hi,
{
    if hi == s.len() {
        assert(s.take(hi) =~= s);
    } else {
        let t = s.drop_last();
        lemma_trim_back(t, hi);
        assert(t.take(hi) =~= s.take(hi));
    }
}

/// The characters of `v` without leading and trailing whitespace.
pub fn trim_chars(v: &Vec<char>) -> (r: Vec<char>)
    ensures
        r@ == trimmed(v@),
{
    let n = v.len();
    let mut lo: usize = 0;
    while lo < n && char_is_ws(v[lo])
        invariant
            n == v@.len(),
            lo <= n,
            forall|j: int| 0 <= j < lo ==> is_ws(#[trigger] v@[j]),
        decreases n - lo,
    {
        lo = lo + 1;
    }
    proof { lemma_trim_front(v@, lo as int); }
    let ghost t = v@.skip(lo as int);
    let mut hi: usize = n;
    while hi > lo && char_is_ws(v[hi - 1])
        invariant
            n == v@.len(),
            lo <= hi <= n,
            forall|j: int| hi <= j < n ==> is_ws(#[trigger] v@[j]),
        decreases hi,
    {
        hi = hi - 1;
    }
    proof {
        assert forall|j: int| hi - lo <= j < t.len() implies is_ws(#[trigger] t[j]) by {
            assert(t[j] == v@[j + lo]);
        }
        if hi > lo {
            assert(t[hi - lo - 1] == v@[hi - 1]);
        }
        lemma_trim_back(t, hi - lo);
    }
    let mut out: Vec<char> = Vec::new();
    let mut i: usize = lo;
    while i < hi
        invariant
            n == v@.len(),
            lo <= i <= hi <= n,
            out@ == v@.subrange(lo as int, i as int),
        decreases hi - i,
    {
        out.push(v[i]);
        i = i + 1;
        assert(out@ =~= v@.subrange(lo as int, i as int));
    }
    assert(out@ =~= t.take(hi - lo));
    out
}

pub open spec fn is_digit(c: char) -> bool {
    '0' <= c && c <= '9'
}

/// The value of a sequence of decimal digits.
pub open spec fn digits_value(s: Seq<char>) -> nat
    decreases s.len(),
{
    if s.len() == 0 {
        0
    } else {
        10 * digits_value(s.drop_last()) + ((s.last() as u32) - ('0' as u32)) as nat
    }
}

pub open spec fn all_digits(s: Seq<char>) -> bool {
    forall|i: int| 0 <= i < s.len() ==> is_digit(#[trigger] s[i])
}

/// Sign and digits of an integer literal: `-` or `+` then the digits, or the
/// digits alone.
pub open spec fn sign_and_digits(s: Seq<char>) -> (bool, Seq<char>) {
    if s.len() > 0 && s[0] == '-' {
        (true, s.drop_first())
    } else if s.len() > 0 && s[0] == '+' {
        (false, s.drop_first())
    } else {
        (false, s)
    }
}

/// An `i64` read as `str::parse::<i64>` reads it: an optional sign, one or
/// more decimal digits, and a value in range.
pub open spec fn parse_i64(s: Seq<char>) -> Option<int> {
    let (neg, body) = sign_and_digits(s);
    if body.len() > 0 && all_digits(body) {
        let v: int = if neg { -(digits_value(body) as int) } else { digits_value(body) as int };
        if i64::MIN <= v <= i64::MAX { Some(v) } else { None }
    } else {
        None
    }
}

proof fn lemma_digits_value_grows(s: Seq<char>, k: int)
    requires
        0 <= k <= s.len(),
        all_digits(s),
    ensures
        digits_value(s.take(k)) <= digits_value(s),
    decreases s.len() - k,
{
    if k < s.len() {
        let t = s.drop_last();
        assert(all_digits(t));
        lemma_digits_value_grows(t, if k <= t.len() { k } else { t.len() as int });
        assert(t.take(k) =~= s.take(k));
        assert(s.take(s.len() as int) =~= s);
    } else {
        assert(s.take(k) =~= s);
    }
}

/// Reads an `i64` as `str::parse::<i64>` does.
pub fn parse_i64_chars(s: &Vec<char>) -> (r: Option<i64>)
    ensures
        match parse_i64(s@) {
            Some(v) => r == Some(v as i64),
            None => r is None,
        },
{
    let n = s.len();
    let mut start: usize = 0;
    let mut neg = false;
    if n > 0 && s[0] == '-' {
        neg = true;
        start = 1;
    } else if n > 0 && s[0] == '+' {
        start = 1;
    }
    let ghost body = sign_and_digits(s@).1;
    assert(body =~= s@.skip(start as int));
    if start == n {
        return None;
    }
    // Accumulate while the value stays below 2^64; beyond that no i64 fits.
    let mut acc: u128 = 0;
    let mut i: usize = start;
    while i < n
        invariant
            n == s@.len(),
            start <= i <= n,
            body == s@.skip(start as int),
            body == sign_and_digits(s@).1,
            all_digits(body.take(i - start)),
            acc == digits_value(body.take(i - start)),
            acc <= 0x1_0000_0000_0000_0000,
        decreases n - i,
    {
        let c = s[i];
        if !('0' <= c && c <= '9') {
            proof {
                assert(body[i - start] == c);
                assert(!is_digit(body[i - start]));
                assert(!all_digits(body));
                assert(sign_and_digits(s@).1 == body);
                assert(parse_i64(s@) is None);
            }
            return None;
        }
        let d = (c as u32 - 48) as u128;
        proof {
            assert(body.take(i - start + 1).drop_last() =~= body.take(i - start));
            assert(body[i - start] == c);
        }
        let next = acc * 10 + d;
        assert(next == digits_value(body.take(i - start + 1)));
        i = i + 1;
        if next > 0x1_0000_0000_0000_0000 {
            proof {
                assert(all_digits(body.take(i - start))) by {
                    assert forall|j: int| 0 <= j < i - start implies is_digit(#[trigger] body.take(i - start)[j]) by {
                        if j < i - start - 1 {
                            assert(body.take(i - start)[j] == body.take(i - start - 1)[j]);
                        }
                    }
                }
                if all_digits(body) {
                    lemma_digits_value_grows(body, i - start);
                    assert(digits_value(body) > 0x1_0000_0000_0000_0000);
                }
            }
            return None;
        }
        acc = next;
        assert(all_digits(body.take(i - start))) by {
            assert forall|j: int| 0 <= j < i - start implies is_digit(#[trigger] body.take(i - start)[j]) by {
                if j < i - start - 1 {
                    assert(body.take(i - start)[j] == body.take(i - start - 1)[j]);
                }
            }
        }
    }
    assert(body.take(n - start) =~= body);
    if neg {
        if acc <= 0x8000_0000_0000_0000 {
            if acc == 0x8000_0000_0000_0000 {
                Some(i64::MIN)
            } else {
                Some(-(acc as i64))
            }
        } else {
            None
        }
    } else {
        if acc <= 0x7FFF_FFFF_FFFF_FFFF {
            Some(acc as i64)
        } else {
            None
        }
    }
}


/// A `u32` read as `str::parse::<u32>` reads it: an optional `+`, one or
/// more decimal digits, and a value in range (a `-` is no digit).
pub open spec fn parse_u32(s: Seq<char>) -> Option<int> {
    if s.len() > 0 && s[0] == '-' {
        None
    } else {
        match parse_i64(s) {
            Some(v) => if 0 <= v <= u32::MAX { Some(v) } else { None },
            None => None,
        }
    }
}

/// Reads a `u32` as `str::parse::<u32>` does.
pub fn parse_u32_chars(s: &Vec<char>) -> (r: Option<u32>)
    ensures
        match parse_u32(s@) {
            Some(v) => r == Some(v as u32),
            None => r is None,
        },
{
    if s.len() > 0 && s[0] == '-' {
        return None;
    }
    match parse_i64_chars(s) {
        Some(v) => if 0 <= v && v <= 0xFFFF_FFFF { Some(v as u32) } else { None },
        None => None,
    }
}

/// The characters of `v` from `lo` up to `hi`.
pub fn copy_range(v: &Vec<char>, lo: usize, hi: usize) -> (r: Vec<char>)
    requires
        lo <= hi <= v@.len(),
    ensures
        r@ == v@.subrange(lo as int, hi as int),
{
    let mut out: Vec<char> = Vec::new();
    let mut i: usize = lo;
    while i < hi
        invariant
            lo <= i <= hi <= v@.len(),
            out@ == v@.subrange(lo as int, i as int),
        decreases hi - i,
    {
        out.push(v[i]);
        i = i + 1;
        assert(out@ =~= v@.subrange(lo as int, i as int));
    }
    out
}

/// Index of the first comma at or after `i`; the length when there is none.
pub open spec fn comma_from(s: Seq<char>, i: int) -> int
    decreases s.len() - i,
{
    if i < 0 || i >= s.len() {
        s.len() as int
    } else if s[i] == ',' {
        i
    } else {
        comma_from(s, i + 1)
    }
}

/// Index of the first comma at or after `i`; the length when there is none.
pub fn find_comma(v: &Vec<char>, i: usize) -> (r: usize)
    requires
        i <= v@.len(),
    ensures
        r == comma_from(v@, i as int),
        i <= r <= v@.len(),
{
    let n = v.len();
    let mut j: usize = i;
    while j < n
        invariant
            n == v@.len(),
            i <= j <= n,
            comma_from(v@, i as int) == comma_from(v@, j as int),
        decreases n - j,
    {
        if v[j] == ',' {
            return j;
        }
        j = j + 1;
    }
    j
}

} // verus!
