//! Decimal text for the wire protocol: whole numbers and fixed-point
//! thousandths, written and read.
use vstd::prelude::*;
use vstd::string::*;

verus! {

/// The character of decimal digit `d`.
pub open spec fn digit_char(d: int) -> char {
    seq!['0', '1', '2', '3', '4', '5', '6', '7', '8', '9'][d]
}

/// Decimal text of `n`, without leading zeros.
pub open spec fn dec(n: nat) -> Seq<char>
    decreases n,
{
    if n < 10 {
        seq![digit_char(n as int)]
    } else {
        dec(n / 10).push(digit_char((n % 10) as int))
    }
}

/// The fractional part of thousandths `f` (below 1000): empty for zero,
/// else a point and its digits without trailing zeros.
pub open spec fn frac_text(f: int) -> Seq<char> {
    if f == 0 {
        seq![]
    } else if f % 100 == 0 {
        seq!['.', digit_char(f / 100)]
    } else if f % 10 == 0 {
        seq!['.', digit_char(f / 100), digit_char((f / 10) % 10)]
    } else {
        seq!['.', digit_char(f / 100), digit_char((f / 10) % 10), digit_char(f % 10)]
    }
}

pub open spec fn abs(v: int) -> int {
    if v < 0 {
        -v
    } else {
        v
    }
}

/// Shortest decimal text of `v` thousandths: `7500` is `7.5`, `-250` is
/// `-0.25`, `20000` is `20`.
pub open spec fn fixed(v: int) -> Seq<char> {
    (if v < 0 {
        seq!['-']
    } else {
        seq![]
    }) + dec((abs(v) / 1000) as nat) + frac_text(abs(v) % 1000)
}

/// The one-character text of digit `d`.
fn digit_str(d: u64) -> (r: &'static str)
    requires
        d < 10,
    ensures
        r@ == seq![digit_char(d as int)],
{
    if d == 0 {
        proof { reveal_strlit("0"); }
        assert("0"@ =~= seq![digit_char(0)]);
        "0"
    } else if d == 1 {
        proof { reveal_strlit("1"); }
        assert("1"@ =~= seq![digit_char(1)]);
        "1"
    } else if d == 2 {
        proof { reveal_strlit("2"); }
        assert("2"@ =~= seq![digit_char(2)]);
        "2"
    } else if d == 3 {
        proof { reveal_strlit("3"); }
        assert("3"@ =~= seq![digit_char(3)]);
        "3"
    } else if d == 4 {
        proof { reveal_strlit("4"); }
        assert("4"@ =~= seq![digit_char(4)]);
        "4"
    } else if d == 5 {
        proof { reveal_strlit("5"); }
        assert("5"@ =~= seq![digit_char(5)]);
        "5"
    } else if d == 6 {
        proof { reveal_strlit("6"); }
        assert("6"@ =~= seq![digit_char(6)]);
        "6"
    } else if d == 7 {
        proof { reveal_strlit("7"); }
        assert("7"@ =~= seq![digit_char(7)]);
        "7"
    } else if d == 8 {
        proof { reveal_strlit("8"); }
        assert("8"@ =~= seq![digit_char(8)]);
        "8"
    } else {
        proof { reveal_strlit("9"); }
        assert("9"@ =~= seq![digit_char(9)]);
        "9"
    }
}

/// Appends the decimal text of `n`.
pub fn write_dec(out: &mut String, n: u64)
    ensures
        final(out)@ == old(out)@ + dec(n as nat),
    decreases n,
{
    if n >= 10 {
        write_dec(out, n / 10);
    }
    out.append(digit_str(n % 10));
    proof {
        if n >= 10 {
            assert(old(out)@ + dec(n as nat) =~= old(out)@ + dec((n / 10) as nat) + seq![
                digit_char((n % 10) as int),
            ]);
        } else {
            assert(old(out)@ + dec(n as nat) =~= old(out)@ + seq![digit_char((n % 10) as int)]);
        }
    }
}

/// Appends the shortest decimal text of `v` thousandths.
pub fn write_fixed(out: &mut String, v: i64)
    ensures
        final(out)@ == old(out)@ + fixed(v as int),
{
    let ghost start = out@;
    let m: u64 = if v < 0 {
        (-(v as i128)) as u64
    } else {
        v as u64
    };
    if v < 0 {
        proof { reveal_strlit("-"); }
        out.append("-");
        assert("-"@ =~= seq!['-']);
    }
    let ghost signed = out@;
    write_dec(out, m / 1000);
    let f: u64 = m % 1000;
    let ghost whole = out@;
    if f != 0 {
        proof { reveal_strlit("."); }
        out.append(".");
        assert("."@ =~= seq!['.']);
        out.append(digit_str(f / 100));
        if f % 100 != 0 {
            out.append(digit_str((f / 10) % 10));
            if f % 10 != 0 {
                out.append(digit_str(f % 10));
            }
        }
    }
    assert(out@ =~= whole + frac_text(f as int));
    assert(signed =~= start + (if v < 0 {
        seq!['-']
    } else {
        seq![]
    }));
    assert(out@ =~= start + fixed(v as int));
}

/// The decimal text of `n`.
pub fn dec_string(n: u64) -> (r: String)
    ensures
        r@ == dec(n as nat),
{
    let mut out: String = String::new();
    write_dec(&mut out, n);
    assert(out@ =~= dec(n as nat));
    out
}

/// The shortest decimal text of `v` thousandths.
pub fn fixed_string(v: i64) -> (r: String)
    ensures
        r@ == fixed(v as int),
{
    let mut out: String = String::new();
    write_fixed(&mut out, v);
    assert(out@ =~= fixed(v as int));
    out
}

/// Most digits accepted before the point of a decimal.
pub const MAX_WHOLE_DIGITS: usize = 12;

pub open spec fn is_digit(c: char) -> bool {
    '0' <= c && c <= '9'
}

pub open spec fn digit_value(c: char) -> int {
    c as int - '0' as int
}

pub open spec fn all_digits(s: Seq<char>) -> bool {
    forall|i: int| 0 <= i < s.len() ==> is_digit(#[trigger] s[i])
}

/// The number that a run of decimal digits stands for.
pub open spec fn digits_value(s: Seq<char>) -> int
    decreases s.len(),
{
    if s.len() == 0 {
        0
    } else {
        digits_value(s.drop_last()) * 10 + digit_value(s.last())
    }
}

pub open spec fn pow10(n: nat) -> int
    decreases n,
{
    if n == 0 {
        1
    } else {
        10 * pow10((n - 1) as nat)
    }
}

/// Thousandths that the digits after a point stand for; later digits are dropped.
pub open spec fn frac_value(f: Seq<char>) -> int {
    (if f.len() > 0 {
        digit_value(f[0]) * 100
    } else {
        0
    }) + (if f.len() > 1 {
        digit_value(f[1]) * 10
    } else {
        0
    }) + (if f.len() > 2 {
        digit_value(f[2])
    } else {
        0
    })
}

/// `b` has its decimal point at `i`, with digits alone on either side.
pub open spec fn is_point_at(b: Seq<char>, i: int) -> bool {
    &&& 0 <= i < b.len()
    &&& b[i] == '.'
    &&& all_digits(b.take(i))
    &&& all_digits(b.skip(i + 1))
}

/// Thousandths that an unsigned decimal (`12`, `7.5`, `3.`, `.25`) stands
/// for, with at most `MAX_WHOLE_DIGITS` digits before the point; `None` for
/// any other text.
pub open spec fn unsigned_value(b: Seq<char>) -> Option<int> {
    if all_digits(b) {
        if 0 < b.len() <= MAX_WHOLE_DIGITS {
            Some(digits_value(b) * 1000)
        } else {
            None
        }
    } else if exists|i: int| is_point_at(b, i) {
        let i = choose|i: int| is_point_at(b, i);
        if i <= MAX_WHOLE_DIGITS && b.len() >= 2 {
            Some(digits_value(b.take(i)) * 1000 + frac_value(b.skip(i + 1)))
        } else {
            None
        }
    } else {
        None
    }
}

/// Thousandths that a decimal, optionally signed with `-`, stands for.
pub open spec fn decimal_value(s: Seq<char>) -> Option<int> {
    if s.len() > 0 && s[0] == '-' {
        match unsigned_value(s.skip(1)) {
            Some(v) => Some(-v),
            None => None,
        }
    } else {
        unsigned_value(s)
    }
}

proof fn lemma_pow10_mono(a: nat, b: nat)
    requires
        a <= b,
    ensures
        1 <= pow10(a) <= pow10(b),
    decreases b,
{
    if b > 0 && a < b {
        lemma_pow10_mono(a, (b - 1) as nat);
    } else if b > 0 {
        lemma_pow10_mono(0, (b - 1) as nat);
    }
}

fn char_digit(c: char) -> (r: Option<u64>)
    ensures
        r is Some <==> is_digit(c),
        r is Some ==> r->0 == digit_value(c) && r->0 < 10,
{
    if '0' <= c && c <= '9' {
        Some((c as u32 - '0' as u32) as u64)
    } else {
        None
    }
}

/// Reads an unsigned decimal as thousandths.
fn parse_unsigned(b: &str) -> (r: Option<i64>)
    ensures
        match unsigned_value(b@) {
            Some(v) => r == Some(v as i64) && 0 <= v < 1_000_000_000_000_000,
            None => r is None,
        },
{
    let n: usize = b.unicode_len();
    let mut i: usize = 0;
    let mut acc: u64 = 0;
    while i < n
        invariant
            n == b@.len(),
            i <= n,
            i <= MAX_WHOLE_DIGITS,
            all_digits(b@.take(i as int)),
            acc == digits_value(b@.take(i as int)),
            0 <= acc < pow10(i as nat),
        ensures
            i <= n,
            i <= MAX_WHOLE_DIGITS,
            all_digits(b@.take(i as int)),
            acc == digits_value(b@.take(i as int)),
            0 <= acc < pow10(i as nat),
            i == n || !is_digit(b@[i as int]),
        decreases n - i,
    {
        let c: char = b.get_char(i);
        let d: Option<u64> = char_digit(c);
        if d.is_none() {
            break;
        }
        let d: u64 = d.unwrap();
        if i == MAX_WHOLE_DIGITS {
            proof {
                assert(!all_digits(b@) || b@.len() > MAX_WHOLE_DIGITS);
                assert forall|j: int| is_point_at(b@, j) implies j > MAX_WHOLE_DIGITS by {
                    if j <= i {
                        assert(b@.take(i as int + 1)[j] == b@[j]);
                        assert(is_digit(b@[j])) by {
                            if j < i {
                                assert(b@.take(i as int)[j] == b@[j]);
                            }
                        }
                    }
                }
            }
            return None;
        }
        proof {
            lemma_pow10_mono(i as nat, MAX_WHOLE_DIGITS as nat);
            reveal_with_fuel(pow10, 13);
            assert(b@.take(i as int + 1).drop_last() =~= b@.take(i as int));
        }
        acc = acc * 10 + d;
        i = i + 1;
    }
    proof {
        lemma_pow10_mono(i as nat, MAX_WHOLE_DIGITS as nat);
        reveal_with_fuel(pow10, 13);
    }
    if i == n {
        assert(b@.take(n as int) =~= b@);
        if n == 0 {
            return None;
        }
        return Some((acc * 1000) as i64);
    }
    if b.get_char(i) != '.' {
        proof {
            assert(!is_digit(b@[i as int]));
            assert forall|j: int| !is_point_at(b@, j) by {
                if 0 <= j < i {
                    assert(b@.take(i as int)[j] == b@[j]);
                } else if j > i && j < b@.len() {
                    assert(b@.take(j)[i as int] == b@[i as int]);
                }
            }
        }
        return None;
    }
    let mut k: usize = i + 1;
    let mut frac: u64 = 0;
    while k < n
        invariant
            n == b@.len(),
            i < k <= n,
            i <= MAX_WHOLE_DIGITS,
            all_digits(b@.take(i as int)),
            acc == digits_value(b@.take(i as int)),
            0 <= acc < 1_000_000_000_000,
            b@[i as int] == '.',
            all_digits(b@.subrange(i + 1, k as int)),
            frac == frac_value(b@.subrange(i + 1, k as int)),
        decreases n - k,
    {
        let c: char = b.get_char(k);
        let d: Option<u64> = char_digit(c);
        if d.is_none() {
            proof {
                assert(!is_digit(b@[k as int]));
                assert(!is_digit(b@[i as int]));
                assert forall|j: int| !is_point_at(b@, j) by {
                    if 0 <= j < i {
                        assert(b@.take(i as int)[j] == b@[j]);
                    } else if j == i {
                        let t = b@.skip(i + 1);
                        let m: int = k - i - 1;
                        assert(0 <= m < t.len());
                        assert(t[m] == b@[k as int]);
                        assert(!is_digit(t[m]));
                        assert(!all_digits(t));
                    } else if j > i && j < b@.len() {
                        assert(b@.take(j)[i as int] == b@[i as int]);
                    }
                }
                assert(!all_digits(b@));
            }
            return None;
        }
        let d: u64 = d.unwrap();
        if k == i + 1 {
            frac = d * 100;
        } else if k == i + 2 {
            frac = frac + d * 10;
        } else if k == i + 3 {
            frac = frac + d;
        }
        proof {
            let f = b@.subrange(i + 1, k as int + 1);
            let g = b@.subrange(i + 1, k as int);
            assert forall|j: int| 0 <= j < g.len() implies f[j] == g[j] by {}
            assert(f[k - i - 1] == b@[k as int]);
        }
        k = k + 1;
    }
    proof {
        assert(b@.subrange(i + 1, n as int) =~= b@.skip(i + 1));
        assert(is_point_at(b@, i as int));
        assert(!all_digits(b@));
        assert forall|j: int| is_point_at(b@, j) implies j == i by {
            if 0 <= j < i {
                assert(b@.take(i as int)[j] == b@[j]);
            } else if j > i && j < b@.len() {
                assert(b@.take(j)[i as int] == b@[i as int]);
            }
        }
    }
    if n < 2 {
        return None;
    }
    Some((acc * 1000 + frac) as i64)
}

/// Reads a decimal, optionally signed with `-`, as thousandths.
pub fn parse_fixed(s: &str) -> (r: Option<i64>)
    ensures
        match decimal_value(s@) {
            Some(v) => r == Some(v as i64) && -1_000_000_000_000_000 < v < 1_000_000_000_000_000,
            None => r is None,
        },
{
    let n: usize = s.unicode_len();
    if n > 0 && s.get_char(0) == '-' {
        let rest: &str = s.substring_char(1, n);
        assert(rest@ =~= s@.skip(1));
        match parse_unsigned(rest) {
            Some(v) => Some(-v),
            None => None,
        }
    } else {
        parse_unsigned(s)
    }
}

} // verus!
