//! Character-level helpers: decimal and hexadecimal numerals, whitespace
//! trimming, and conversions between strings and character vectors.
use vstd::prelude::*;

verus! {

/// Appends one character to a string (`String::push`).
#[verifier::external_body]
pub(crate) fn push_char(s: &mut String, c: char)
    ensures
        final(s)@ == old(s)@.push(c),
{
    s.push(c)
}

/// The characters of a string slice, in order.
pub fn chars_of(s: &str) -> (v: Vec<char>)
    ensures
        v@ == s@,
{
    let mut v: Vec<char> = Vec::new();
    for c in it: s.chars()
        invariant
            v@ == it.seq().take(it.index() as int),
    {
        v.push(c);
    }
    v
}

/// A string holding exactly the given characters.
pub fn string_of(cs: &[char]) -> (s: String)
    ensures
        s@ == cs@,
{
    let mut s = String::new();
    let mut i: usize = 0;
    while i < cs.len()
        invariant
            i <= cs@.len(),
            s@ == cs@.take(i as int),
        decreases cs@.len() - i,
    {
        push_char(&mut s, cs[i]);
        i = i + 1;
        assert(s@ =~= cs@.take(i as int));
    }
    assert(cs@.take(cs@.len() as int) =~= cs@);
    s
}

/// `a` followed by `b`, as a new string.
pub fn concat(a: &str, b: &str) -> (s: String)
    ensures
        s@ == a@ + b@,
{
    let mut s = a.to_owned();
    s.append(b);
    s
}

/// Whether two string slices hold the same characters (`a == b`).
pub fn eq_str(a: &str, b: &str) -> (r: bool)
    ensures
        r == (a@ == b@),
{
    let x = chars_of(a);
    let y = chars_of(b);
    if x.len() != y.len() {
        return false;
    }
    let mut i: usize = 0;
    while i < x.len()
        invariant
            i <= x@.len(),
            x@ == a@,
            y@ == b@,
            x@.len() == y@.len(),
            forall|j: int| 0 <= j < i ==> x@[j] == y@[j],
        decreases x@.len() - i,
    {
        if x[i] != y[i] {
            assert(x@[i as int] != y@[i as int]);
            return false;
        }
        i = i + 1;
    }
    assert(x@ =~= y@);
    true
}

// ---------------------------------------------------------------------------
// Decimal numerals
// ---------------------------------------------------------------------------

/// The ASCII digit for `d` (0..=9) in base 10, or for `d` (0..=15) in
/// lower-case hexadecimal.
pub open spec fn digit_char(d: nat) -> char {
    if d < 10 {
        (48 + d) as char
    } else {
        (87 + d) as char
    }
}

/// The decimal numeral of `n`, most significant digit first, without
/// leading zeros (`0` is written `"0"`), as `Display` writes unsigned integers.
pub open spec fn decimal(n: nat) -> Seq<char>
    decreases n,
{
    if n < 10 {
        seq![digit_char(n)]
    } else {
        decimal(n / 10).push(digit_char(n % 10))
    }
}

fn digit(d: u64) -> (c: char)
    requires
        d < 16,
    ensures
        c == digit_char(d as nat),
{
    if d < 10 {
        ((48 + d) as u8) as char
    } else {
        ((87 + d) as u8) as char
    }
}

/// The decimal numeral of `n` (`n.to_string()`).
pub fn decimal_string(n: u64) -> (s: String)
    ensures
        s@ == decimal(n as nat),
    decreases n,
{
    if n < 10 {
        let mut s = String::new();
        push_char(&mut s, digit(n));
        assert(s@ =~= seq![digit_char(n as nat)]);
        s
    } else {
        let mut s = decimal_string(n / 10);
        push_char(&mut s, digit(n % 10));
        s
    }
}

proof fn lemma_decimal_step(n: nat)
    requires
        n >= 10,
        all_dec_digits(decimal(n / 10)),
    ensures
        decimal(n).len() == decimal(n / 10).len() + 1,
        decimal(n)[0] == decimal(n / 10)[0],
        all_dec_digits(decimal(n)),
{
    let s = decimal(n);
    assert(s.drop_last() =~= decimal(n / 10));
    assert forall|i: int| 0 <= i < s.len() implies is_dec_digit(#[trigger] s[i]) by {
        if i < s.len() - 1 {
            assert(s[i] == decimal(n / 10)[i]);
        }
    }
    assert(decimal(n / 10).len() > 0) by {
        reveal_with_fuel(decimal, 2);
    }
    assert(s[0] == decimal(n / 10)[0]);
}

/// A number from 100000 to 999999 is written with six decimal digits, the
/// first not `0`.
pub proof fn lemma_decimal_six_digits(n: nat)
    requires
        100000 <= n <= 999999,
    ensures
        decimal(n).len() == 6,
        all_dec_digits(decimal(n)),
        decimal(n)[0] != '0',
{
    let n1 = n / 10;
    let n2 = n1 / 10;
    let n3 = n2 / 10;
    let n4 = n3 / 10;
    let n5 = n4 / 10;
    assert(1 <= n5 <= 9);
    assert(decimal(n5) == seq![digit_char(n5)]);
    assert(all_dec_digits(decimal(n5)));
    lemma_decimal_step(n4);
    lemma_decimal_step(n3);
    lemma_decimal_step(n2);
    lemma_decimal_step(n1);
    lemma_decimal_step(n);
}

/// Whether `c` is an ASCII decimal digit.
pub open spec fn is_dec_digit(c: char) -> bool {
    '0' <= c && c <= '9'
}

/// The value of a decimal digit character.
pub open spec fn dec_digit_value(c: char) -> nat {
    (c as int - 48) as nat
}

/// The value of a string of decimal digits, most significant first.
pub open spec fn decimal_value(s: Seq<char>) -> nat
    decreases s.len(),
{
    if s.len() == 0 {
        0
    } else {
        decimal_value(s.drop_last()) * 10 + dec_digit_value(s.last())
    }
}

/// Whether every character of `s` is a decimal digit.
pub open spec fn all_dec_digits(s: Seq<char>) -> bool {
    forall|i: int| 0 <= i < s.len() ==> is_dec_digit(#[trigger] s[i])
}

/// What `str::parse` gives for an unsigned integer type whose largest value
/// is `max`: an optional leading `+`, then one or more decimal digits whose
/// value is at most `max`; anything else is rejected.
pub open spec fn parse_unsigned(s: Seq<char>, max: nat) -> Option<nat> {
    let body = if s.len() > 0 && s[0] == '+' {
        s.drop_first()
    } else {
        s
    };
    if body.len() == 0 || !all_dec_digits(body) || decimal_value(body) > max {
        None
    } else {
        Some(decimal_value(body))
    }
}

proof fn lemma_decimal_value_prefix_le(s: Seq<char>, k: int)
    requires
        0 <= k <= s.len(),
        all_dec_digits(s),
    ensures
        decimal_value(s.take(k)) <= decimal_value(s),
    decreases s.len(),
{
    if k < s.len() {
        assert(s.drop_last().take(k) =~= s.take(k));
        lemma_decimal_value_prefix_le(s.drop_last(), k);
        assert(decimal_value(s.drop_last()) <= decimal_value(s.drop_last()) * 10);
    } else {
        assert(s.take(k) =~= s);
    }
}

/// Parses an unsigned decimal numeral whose value may not exceed `max`
/// (`str::parse::<u16>()`, `::<u32>()`, `::<u64>()` for the matching `max`).
pub fn parse_unsigned_decimal(s: &str, max: u64) -> (r: Option<u64>)
    ensures
        r matches Some(v) ==> parse_unsigned(s@, max as nat) == Some(v as nat),
        r is None ==> parse_unsigned(s@, max as nat) is None,
{
    let cs = chars_of(s);
    let start: usize = if cs.len() > 0 && cs[0] == '+' {
        1
    } else {
        0
    };
    let ghost body = if s@.len() > 0 && s@[0] == '+' {
        s@.drop_first()
    } else {
        s@
    };
    assert(body =~= cs@.skip(start as int));
    if start >= cs.len() {
        return None;
    }
    let mut acc: u64 = 0;
    let mut i: usize = start;
    while i < cs.len()
        invariant
            start <= i <= cs@.len(),
            cs@ == s@,
            body == (if s@.len() > 0 && s@[0] == '+' { s@.drop_first() } else { s@ }),
            body =~= cs@.skip(start as int),
            all_dec_digits(body.take(i - start)),
            acc as nat == decimal_value(body.take(i - start)),
            acc <= max,
        decreases cs@.len() - i,
    {
        let c = cs[i];
        if !('0' <= c && c <= '9') {
            assert(body[i - start] == c);
            assert(!is_dec_digit(body[i - start]));
            assert(!all_dec_digits(body));
            return None;
        }
        let d: u64 = ((c as u32) - 48) as u64;
        let next: u128 = (acc as u128) * 10 + (d as u128);
        let ghost pre = body.take(i - start);
        let ghost post = body.take(i + 1 - start);
        assert(post.drop_last() =~= pre);
        assert(post.last() == c);
        assert(d as nat == dec_digit_value(c));
        assert(decimal_value(post) == decimal_value(pre) * 10 + dec_digit_value(c));
        if next > max as u128 {
            proof {
                if all_dec_digits(body) {
                    lemma_decimal_value_prefix_le(body, i + 1 - start);
                    assert(decimal_value(body) > max);
                }
            }
            return None;
        }
        acc = next as u64;
        i = i + 1;
        assert forall|j: int| 0 <= j < post.len() implies is_dec_digit(#[trigger] post[j]) by {
            if j < pre.len() {
                assert(post[j] == pre[j]);
            }
        }
    }
    assert(body.take(cs@.len() - start) =~= body);
    Some(acc)
}

// ---------------------------------------------------------------------------
// Hexadecimal numerals
// ---------------------------------------------------------------------------

/// The lower-case hexadecimal numeral of `n`, without leading zeros.
pub open spec fn hex_lower(n: nat) -> Seq<char>
    decreases n,
{
    if n < 16 {
        seq![digit_char(n)]
    } else {
        hex_lower(n / 16).push(digit_char(n % 16))
    }
}

/// The bit pattern of an `i64` read as an unsigned number, as `{:x}` prints it.
pub open spec fn twos_complement(v: int) -> nat {
    if v >= 0 {
        v as nat
    } else {
        (v + 0x1_0000_0000_0000_0000) as nat
    }
}

fn hex_string_u64(n: u64) -> (s: String)
    ensures
        s@ == hex_lower(n as nat),
    decreases n,
{
    if n < 16 {
        let mut s = String::new();
        push_char(&mut s, digit(n));
        assert(s@ =~= seq![digit_char(n as nat)]);
        s
    } else {
        let mut s = hex_string_u64(n / 16);
        push_char(&mut s, digit(n % 16));
        s
    }
}

/// `format!("{:x}", v)` for an `i64`.
pub fn hex_string(v: i64) -> (s: String)
    ensures
        s@ == hex_lower(twos_complement(v as int)),
{
    if v >= 0 {
        hex_string_u64(v as u64)
    } else {
        let shifted: u64 = (v + i64::MAX + 1) as u64;
        hex_string_u64(shifted + 0x8000_0000_0000_0000u64)
    }
}

/// Whether `c` is a hexadecimal digit (either case).
pub open spec fn is_hex_digit(c: char) -> bool {
    ('0' <= c && c <= '9') || ('a' <= c && c <= 'f') || ('A' <= c && c <= 'F')
}

/// The value of a hexadecimal digit character.
pub open spec fn hex_digit_value(c: char) -> nat {
    if '0' <= c && c <= '9' {
        (c as int - 48) as nat
    } else if 'a' <= c && c <= 'f' {
        (c as int - 87) as nat
    } else {
        (c as int - 55) as nat
    }
}

/// The value of a string of hexadecimal digits, most significant first.
pub open spec fn hex_value(s: Seq<char>) -> nat
    decreases s.len(),
{
    if s.len() == 0 {
        0
    } else {
        hex_value(s.drop_last()) * 16 + hex_digit_value(s.last())
    }
}

/// Whether every character of `s` is a hexadecimal digit.
pub open spec fn all_hex_digits(s: Seq<char>) -> bool {
    forall|i: int| 0 <= i < s.len() ==> is_hex_digit(#[trigger] s[i])
}

/// What `i64::from_str_radix(s, 16)` gives: an optional sign, then one or
/// more hexadecimal digits; the signed value must fit in an `i64`.
pub open spec fn parse_hex_i64(s: Seq<char>) -> Option<int> {
    if s.len() == 0 {
        None
    } else {
        let negative = s[0] == '-';
        let body = if s[0] == '+' || s[0] == '-' {
            s.drop_first()
        } else {
            s
        };
        let magnitude = hex_value(body) as int;
        let value = if negative {
            -magnitude
        } else {
            magnitude
        };
        if body.len() == 0 || !all_hex_digits(body) || value < i64::MIN || value > i64::MAX {
            None
        } else {
            Some(value)
        }
    }
}

proof fn lemma_hex_value_prefix_le(s: Seq<char>, k: int)
    requires
        0 <= k <= s.len(),
        all_hex_digits(s),
    ensures
        hex_value(s.take(k)) <= hex_value(s),
    decreases s.len(),
{
    if k < s.len() {
        assert(s.drop_last().take(k) =~= s.take(k));
        lemma_hex_value_prefix_le(s.drop_last(), k);
    } else {
        assert(s.take(k) =~= s);
    }
}

/// Parses a signed hexadecimal numeral (`i64::from_str_radix(s, 16)`).
pub fn parse_hex(s: &str) -> (r: Option<i64>)
    ensures
        r matches Some(v) ==> parse_hex_i64(s@) == Some(v as int),
        r is None ==> parse_hex_i64(s@) is None,
{
    let cs = chars_of(s);
    if cs.len() == 0 {
        return None;
    }
    let negative = cs[0] == '-';
    let start: usize = if cs[0] == '+' || cs[0] == '-' {
        1
    } else {
        0
    };
    let ghost body = if s@[0] == '+' || s@[0] == '-' {
        s@.drop_first()
    } else {
        s@
    };
    assert(body =~= cs@.skip(start as int));
    if start >= cs.len() {
        return None;
    }
    let mut acc: i128 = 0;
    let mut i: usize = start;
    while i < cs.len()
        invariant
            start <= i <= cs@.len(),
            cs@ == s@,
            s@.len() > 0,
            negative == (s@[0] == '-'),
            body == (if s@[0] == '+' || s@[0] == '-' { s@.drop_first() } else { s@ }),
            body =~= cs@.skip(start as int),
            all_hex_digits(body.take(i - start)),
            acc as nat == hex_value(body.take(i - start)),
            0 <= acc <= 0x8000_0000_0000_0000,
        decreases cs@.len() - i,
    {
        let c = cs[i];
        let d: i128 = if '0' <= c && c <= '9' {
            ((c as u32) - 48) as i128
        } else if 'a' <= c && c <= 'f' {
            ((c as u32) - 87) as i128
        } else if 'A' <= c && c <= 'F' {
            ((c as u32) - 55) as i128
        } else {
            assert(body[i - start] == c);
            assert(!is_hex_digit(body[i - start]));
            assert(!all_hex_digits(body));
            return None;
        };
        let ghost pre = body.take(i - start);
        let ghost post = body.take(i + 1 - start);
        assert(post.drop_last() =~= pre);
        assert(post.last() == c);
        let next: i128 = acc * 16 + d;
        assert(d as nat == hex_digit_value(c));
        assert(hex_value(post) == hex_value(pre) * 16 + hex_digit_value(c));
        assert forall|j: int| 0 <= j < post.len() implies is_hex_digit(#[trigger] post[j]) by {
            if j < pre.len() {
                assert(post[j] == pre[j]);
            }
        }
        if next > 0x8000_0000_0000_0000 {
            proof {
                if all_hex_digits(body) {
                    lemma_hex_value_prefix_le(body, i + 1 - start);
                    assert(hex_value(body) > 0x8000_0000_0000_0000);
                }
            }
            return None;
        }
        acc = next;
        i = i + 1;
    }
    assert(body.take(cs@.len() - start) =~= body);
    if negative {
        Some((0 - acc) as i64)
    } else if acc > 0x7fff_ffff_ffff_ffff {
        None
    } else {
        Some(acc as i64)
    }
}

proof fn lemma_digit_char(d: nat)
    requires
        d < 16,
    ensures
        digit_char(d) as int == (if d < 10 { 48 + d } else { 87 + d }),
        is_hex_digit(digit_char(d)),
        hex_digit_value(digit_char(d)) == d,
{
}

proof fn lemma_hex_lower_digits(n: nat)
    ensures
        all_hex_digits(hex_lower(n)),
        hex_value(hex_lower(n)) == n,
        hex_lower(n).len() > 0,
        hex_lower(n)[0] != '+' && hex_lower(n)[0] != '-',
    decreases n,
{
    lemma_digit_char(n % 16);
    if n < 16 {
        assert(hex_lower(n).drop_last() =~= Seq::<char>::empty());
        assert(hex_lower(n).last() == digit_char(n));
        assert(hex_value(hex_lower(n)) == hex_value(Seq::<char>::empty()) * 16 + hex_digit_value(digit_char(n)));
    } else {
        lemma_hex_lower_digits(n / 16);
        let s = hex_lower(n);
        assert(s.drop_last() =~= hex_lower(n / 16));
        assert forall|i: int| 0 <= i < s.len() implies is_hex_digit(#[trigger] s[i]) by {
            if i < s.len() - 1 {
                assert(s[i] == hex_lower(n / 16)[i]);
            }
        }
    }
}

/// Reading back a non-negative id written with `hex_string` gives the id.
pub proof fn lemma_hex_roundtrip(v: i64)
    requires
        v >= 0,
    ensures
        parse_hex_i64(hex_lower(twos_complement(v as int))) == Some(v as int),
{
    lemma_hex_lower_digits(v as nat);
}

// ---------------------------------------------------------------------------
// Whitespace
// ---------------------------------------------------------------------------

/// Unicode `White_Space`, as `char::is_whitespace` tests it.
pub open spec fn is_white(c: char) -> bool {
    ||| ('\u{9}' <= c && c <= '\u{d}')
    ||| c == ' '
    ||| c == '\u{85}'
    ||| c == '\u{a0}'
    ||| c == '\u{1680}'
    ||| ('\u{2000}' <= c && c <= '\u{200a}')
    ||| c == '\u{2028}'
    ||| c == '\u{2029}'
    ||| c == '\u{202f}'
    ||| c == '\u{205f}'
    ||| c == '\u{3000}'
}

/// `c.is_whitespace()`.
pub fn is_whitespace(c: char) -> (b: bool)
    ensures
        b == is_white(c),
{
    ('\u{9}' <= c && c <= '\u{d}') || c == ' ' || c == '\u{85}' || c == '\u{a0}' || c
        == '\u{1680}' || ('\u{2000}' <= c && c <= '\u{200a}') || c == '\u{2028}' || c
        == '\u{2029}' || c == '\u{202f}' || c == '\u{205f}' || c == '\u{3000}'
}

/// `s` without its leading whitespace.
pub open spec fn trim_start(s: Seq<char>) -> Seq<char>
    decreases s.len(),
{
    if s.len() > 0 && is_white(s[0]) {
        trim_start(s.drop_first())
    } else {
        s
    }
}

/// `s` without its trailing whitespace.
pub open spec fn trim_end(s: Seq<char>) -> Seq<char>
    decreases s.len(),
{
    if s.len() > 0 && is_white(s.last()) {
        trim_end(s.drop_last())
    } else {
        s
    }
}

/// `s` without leading and trailing whitespace (`str::trim`).
pub open spec fn trim(s: Seq<char>) -> Seq<char> {
    trim_end(trim_start(s))
}

proof fn lemma_trim_start_skip(s: Seq<char>, k: int)
    requires
        0 <= k <= s.len(),
        forall|i: int| 0 <= i < k ==> is_white(#[trigger] s[i]),
    ensures
        trim_start(s) == trim_start(s.skip(k)),
    decreases k,
{
    if k > 0 {
        assert(s.drop_first().skip(k - 1) =~= s.skip(k));
        assert forall|i: int| 0 <= i < k - 1 implies is_white(#[trigger] s.drop_first()[i]) by {
            assert(s.drop_first()[i] == s[i + 1]);
        }
        lemma_trim_start_skip(s.drop_first(), k - 1);
    } else {
        assert(s.skip(0) =~= s);
    }
}

proof fn lemma_trim_end_take(s: Seq<char>, k: int)
    requires
        0 <= k <= s.len(),
        forall|i: int| k <= i < s.len() ==> is_white(#[trigger] s[i]),
    ensures
        trim_end(s) == trim_end(s.take(k)),
    decreases s.len() - k,
{
    if k < s.len() {
        assert(s.drop_last().take(k) =~= s.take(k));
        lemma_trim_end_take(s.drop_last(), k);
    } else {
        assert(s.take(k) =~= s);
    }
}

/// The characters `cs[lo..hi]` without surrounding whitespace, as a range
/// `(start, end)` into `cs`.
pub fn trim_range(cs: &Vec<char>, lo: usize, hi: usize) -> (r: (usize, usize))
    requires
        lo <= hi <= cs@.len(),
    ensures
        lo <= r.0 <= r.1 <= hi,
        cs@.subrange(r.0 as int, r.1 as int) == trim(cs@.subrange(lo as int, hi as int)),
{
    let ghost s = cs@.subrange(lo as int, hi as int);
    let mut a = lo;
    while a < hi && is_whitespace(cs[a])
        invariant
            lo <= a <= hi <= cs@.len(),
            s == cs@.subrange(lo as int, hi as int),
            forall|i: int| lo <= i < a ==> is_white(#[trigger] cs@[i]),
        decreases hi - a,
    {
        a = a + 1;
    }
    proof {
        assert forall|i: int| 0 <= i < a - lo implies is_white(#[trigger] s[i]) by {
            assert(s[i] == cs@[lo + i]);
        }
        lemma_trim_start_skip(s, a - lo);
        assert(s.skip(a - lo) =~= cs@.subrange(a as int, hi as int));
        let t = cs@.subrange(a as int, hi as int);
        if a < hi {
            assert(t[0] == cs@[a as int]);
        }
        assert(trim_start(t) == t);
    }
    let mut b = hi;
    while b > a && is_whitespace(cs[b - 1])
        invariant
            lo <= a <= b <= hi <= cs@.len(),
            forall|i: int| b <= i < hi ==> is_white(#[trigger] cs@[i]),
        decreases b - a,
    {
        b = b - 1;
    }
    proof {
        let t = cs@.subrange(a as int, hi as int);
        assert forall|i: int| b - a <= i < t.len() implies is_white(#[trigger] t[i]) by {
            assert(t[i] == cs@[a + i]);
        }
        lemma_trim_end_take(t, b - a);
        let u = cs@.subrange(a as int, b as int);
        assert(t.take(b - a) =~= u);
        if b > a {
            assert(u.last() == cs@[b - 1]);
        }
        assert(trim_end(u) == u);
    }
    (a, b)
}

} // verus!
