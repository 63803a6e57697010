//! Numbers as text.
use crate::text::{glue, to_chars};
use vstd::prelude::*;

verus! {

/// The character for a digit below ten.
pub open spec fn digit(d: nat) -> char {
    (0x30 + d) as char
}

/// Whether `c` is a digit of the base `radix`, which is at most ten.
pub open spec fn is_digit(c: char, radix: nat) -> bool {
    0x30 <= c as u32 && (c as u32) < 0x30 + radix
}

/// `n` in the base `radix`, without leading zeros; zero is one digit.
pub open spec fn written(n: nat, radix: nat) -> Seq<char>
    decreases n,
{
    if n < radix || radix < 2 {
        seq![digit(n)]
    } else {
        proof {
            assert(n / radix < n) by (nonlinear_arith)
                requires
                    radix >= 2,
                    n >= radix,
            ;
        }
        written(n / radix, radix).push(digit(n % radix))
    }
}

/// Whether `s` is one digit or more, and nothing else.
pub open spec fn all_digits(s: Seq<char>, radix: nat) -> bool {
    &&& s.len() > 0
    &&& forall|i: int| 0 <= i < s.len() ==> is_digit(#[trigger] s[i], radix)
}

/// The number that the digits `s` stand for.
pub open spec fn value(s: Seq<char>, radix: nat) -> nat
    decreases s.len(),
{
    if s.len() == 0 {
        0
    } else {
        value(s.drop_last(), radix) * radix + (s.last() as u32 - 0x30) as nat
    }
}

/// `s` without one plus sign at its start.
pub open spec fn unsigned_part(s: Seq<char>) -> Seq<char> {
    if s.len() > 0 && s[0] == '+' {
        s.skip(1)
    } else {
        s
    }
}

/// The number that `s` writes, as far as it is at most `max`: an optional plus sign and digits.
pub open spec fn number(s: Seq<char>, radix: nat, max: nat) -> Option<nat> {
    let t = unsigned_part(s);
    if all_digits(t, radix) && value(t, radix) <= max {
        Some(value(t, radix))
    } else {
        None
    }
}

/// The decimal number that `s` writes, as far as 64 bits hold it.
pub open spec fn decimal(s: Seq<char>) -> Option<nat> {
    number(s, 10, u64::MAX as nat)
}

/// The value of a longer row of digits is not smaller.
proof fn lemma_value_grows(s: Seq<char>, k: int, radix: nat)
    requires
        0 <= k <= s.len(),
        radix >= 1,
    ensures
        value(s.take(k), radix) <= value(s, radix),
    decreases s.len() - k,
{
    if k == s.len() {
        assert(s.take(k) =~= s);
    } else {
        lemma_value_grows(s, k + 1, radix);
        let longer = s.take(k + 1);
        assert(longer.drop_last() =~= s.take(k));
        let v = value(s.take(k), radix);
        assert(v * radix >= v) by (nonlinear_arith)
            requires
                radix >= 1,
        ;
    }
}

/// Reads a number of base `radix` that is at most `max`.
pub fn parse_number(s: &str, radix: u64, max: u64) -> (r: Option<u64>)
    requires
        2 <= radix <= 10,
    ensures
        r.deep_view() == match number(s@, radix as nat, max as nat) {
            Some(n) => Some(n as u64),
            None => None,
        },
{
    let v = to_chars(s);
    let ghost t = unsigned_part(s@);
    let from: usize = if v.len() > 0 && v[0] == '+' {
        1
    } else {
        0
    };
    proof {
        assert(v@.skip(from as int) =~= t);
    }
    if v.len() == from {
        return None;
    }
    let mut acc: u64 = 0;
    let mut i: usize = from;
    proof {
        assert(t.take(0) =~= Seq::<char>::empty());
    }
    while i < v.len()
        invariant
            from <= i <= v@.len(),
            from < v@.len(),
            t == v@.skip(from as int),
            t == unsigned_part(s@),
            2 <= radix <= 10,
            acc == value(t.take(i - from), radix as nat),
            acc <= max,
            forall|j: int| 0 <= j < i - from ==> is_digit(#[trigger] t[j], radix as nat),
        decreases v@.len() - i,
    {
        let c: u32 = v[i] as u32;
        proof {
            assert(t[i - from] == v@[i as int]);
            assert(t.take(i + 1 - from).drop_last() =~= t.take(i - from));
            assert(t.take(i + 1 - from).last() == v@[i as int]);
        }
        if c < 0x30 || (c - 0x30) as u64 >= radix {
            return None;
        }
        let d: u64 = (c - 0x30) as u64;
        if d > max || acc > (max - d) / radix {
            proof {
                lemma_value_grows(t, i + 1 - from, radix as nat);
                if d <= max {
                    assert(acc * radix + d > max) by (nonlinear_arith)
                        requires
                            acc > (max - d) / (radix as int),
                            d <= max,
                            radix >= 2,
                    ;
                } else {
                    assert(acc * radix >= 0) by (nonlinear_arith);
                }
            }
            return None;
        }
        proof {
            assert(acc * radix + d <= max) by (nonlinear_arith)
                requires
                    acc <= (max - d) / (radix as int),
                    d <= max,
                    radix >= 2,
            ;
        }
        acc = acc * radix + d;
        i = i + 1;
    }
    proof {
        assert(t.take(t.len() as int) =~= t);
    }
    Some(acc)
}

/// Reads a decimal number of at most 64 bits.
pub fn parse_u64(s: &str) -> (r: Option<u64>)
    ensures
        r.deep_view() == match decimal(s@) {
            Some(n) => Some(n as u64),
            None => None,
        },
{
    parse_number(s, 10, u64::MAX)
}

/// Writes `n` in the base `radix`.
pub fn format_in(n: u64, radix: u64) -> (r: String)
    requires
        2 <= radix <= 10,
    ensures
        r@ == written(n as nat, radix as nat),
    decreases n,
{
    if n < radix {
        let mut r = String::new();
        r.push((48u8 + n as u8) as char);
        proof {
            assert(r@ =~= seq![digit(n as nat)]);
        }
        r
    } else {
        proof {
            assert(n / radix < n) by (nonlinear_arith)
                requires
                    radix >= 2,
                    n >= radix,
            ;
            assert(n % radix < radix) by (nonlinear_arith)
                requires
                    radix >= 2,
            ;
        }
        let mut r = format_in(n / radix, radix);
        let d: u64 = n % radix;
        r.push((48u8 + d as u8) as char);
        r
    }
}

/// Writes `n` in decimal.
pub fn format_u64(n: u64) -> (r: String)
    ensures
        r@ == written(n as nat, 10),
{
    format_in(n, 10)
}

/// `n` in decimal, with a minus sign where it is negative.
pub open spec fn signed(n: int) -> Seq<char> {
    if n < 0 {
        "-"@ + written((-n) as nat, 10)
    } else {
        written(n as nat, 10)
    }
}

/// Writes `n` in decimal.
pub fn format_i32(n: i32) -> (r: String)
    ensures
        r@ == signed(n as int),
{
    if n < 0 {
        let m: i64 = 0 - (n as i64);
        let d = format_u64(m as u64);
        glue("-", d.as_str())
    } else {
        format_u64(n as u64)
    }
}

/// `s` with zeros in front of it as far as it is shorter than `width`.
pub open spec fn zero_padded(s: Seq<char>, width: nat) -> Seq<char> {
    if s.len() >= width {
        s
    } else {
        Seq::new((width - s.len()) as nat, |i: int| '0') + s
    }
}

/// Nine permission bits and the three above them, as four octal digits.
pub open spec fn permission_text(mode: u32) -> Seq<char> {
    zero_padded(written((mode % 4096) as nat, 8), 4)
}

/// Writes the permission bits of `mode` as four octal digits.
pub fn format_permissions(mode: u32) -> (r: String)
    ensures
        r@ == permission_text(mode),
{
    let mut r = format_in((mode % 4096) as u64, 8);
    let mut v = to_chars(r.as_str());
    while v.len() < 4
        invariant
            v@ == r@,
            zero_padded(r@, 4) == permission_text(mode),
        decreases 4 - v@.len(),
    {
        let ghost shorter = r@;
        r = glue("0", r.as_str());
        proof {
            reveal_strlit("0");
            assert(zero_padded(r@, 4) =~= zero_padded(shorter, 4));
        }
        v = to_chars(r.as_str());
    }
    r
}

/// What `written` gives is one digit or more, and reads as the number.
pub proof fn lemma_written(n: nat, radix: nat)
    requires
        2 <= radix <= 10,
    ensures
        all_digits(written(n, radix), radix),
        value(written(n, radix), radix) == n,
        written(n, radix)[0] != '+',
    decreases n,
{
    let w = written(n, radix);
    if n < radix {
        assert(w.drop_last() =~= Seq::<char>::empty());
        assert(value(w, radix) == value(w.drop_last(), radix) * radix + n);
        assert(value(w.drop_last(), radix) * radix == 0) by (nonlinear_arith)
            requires
                value(w.drop_last(), radix) == 0,
        ;
    } else {
        let q = n / radix;
        let d = n % radix;
        assert(q < n && d < radix && n == q * radix + d) by (nonlinear_arith)
            requires
                radix >= 2,
                n >= radix,
                q == n / radix,
                d == n % radix,
        ;
        lemma_written(q, radix);
        assert(w.drop_last() =~= written(q, radix));
        assert forall|i: int| 0 <= i < w.len() implies is_digit(#[trigger] w[i], radix) by {
            if i < w.len() - 1 {
                assert(w[i] == written(q, radix)[i]);
            }
        }
        assert(w[0] == written(q, radix)[0]);
    }
}

/// Reading back a number that was written gives the number.
pub proof fn law_written_reads_back(n: nat, radix: nat, max: nat)
    requires
        2 <= radix <= 10,
        n <= max,
    ensures
        number(written(n, radix), radix, max) == Some(n),
{
    lemma_written(n, radix);
}

/// Two numbers that are written alike are the same.
pub proof fn law_written_is_one_to_one(a: nat, b: nat, radix: nat)
    requires
        2 <= radix <= 10,
        written(a, radix) == written(b, radix),
    ensures
        a == b,
{
    lemma_written(a, radix);
    lemma_written(b, radix);
}

/// Zeros in front do not count.
proof fn lemma_zeros_do_not_count(s: Seq<char>, n: nat)
    ensures
        value(Seq::new(n, |i: int| '0') + s, 8) == value(s, 8),
    decreases s.len() + n,
{
    let z = Seq::new(n, |i: int| '0');
    if s.len() > 0 {
        lemma_zeros_do_not_count(s.drop_last(), n);
        assert((z + s).drop_last() =~= z + s.drop_last());
        assert((z + s).last() == s.last());
    } else if n > 0 {
        let fewer = (n - 1) as nat;
        lemma_zeros_do_not_count(s, fewer);
        assert(z + s =~= z);
        assert(z.drop_last() =~= Seq::new(fewer, |i: int| '0') + s);
        assert(z.last() == '0');
    } else {
        assert(z + s =~= s);
    }
}

/// Permissions are four octal digits, which stand for the lowest twelve bits.
pub proof fn law_permissions_are_four_digits(mode: u32)
    ensures
        permission_text(mode).len() == 4,
        all_digits(permission_text(mode), 8),
        value(permission_text(mode), 8) == mode % 4096,
{
    let n = (mode % 4096) as nat;
    let w = written(n, 8);
    lemma_written(n, 8);
    reveal_with_fuel(written, 5);
    assert(n / 8 < 512 && n / 8 / 8 < 64 && n / 8 / 8 / 8 < 8);
    assert(w.len() <= 4);
    let missing = (4 - w.len()) as nat;
    lemma_zeros_do_not_count(w, missing);
    if w.len() < 4 {
        let z = Seq::new(missing, |i: int| '0');
        assert(permission_text(mode) =~= z + w);
        assert forall|i: int| 0 <= i < 4 implies is_digit(#[trigger] permission_text(mode)[i], 8) by {
            if i >= missing {
                assert((z + w)[i] == w[i - missing]);
            }
        }
    }
}

/// A plus sign before the digits does not change the number; a number that is too large, and a text
/// with anything but digits behind the sign, is none.
pub proof fn law_only_digits_make_a_number(n: nat, radix: nat, max: nat, s: Seq<char>, i: int)
    requires
        2 <= radix <= 10,
    ensures
        n <= max ==> number(seq!['+'] + written(n, radix), radix, max) == Some(n),
        n > max ==> number(written(n, radix), radix, max) is None,
        0 <= i < s.len() && !is_digit(s[i], radix) && !(i == 0 && s[0] == '+') ==> number(
            s,
            radix,
            max,
        ) is None,
        number(Seq::<char>::empty(), radix, max) is None,
        number(seq!['+'], radix, max) is None,
{
    lemma_written(n, radix);
    let w = written(n, radix);
    let t = seq!['+'] + w;
    assert(t.skip(1) =~= w);
    assert(is_digit(w[0], radix));
    assert(seq!['+'].skip(1).len() == 0);
    if 0 <= i < s.len() && !is_digit(s[i], radix) && !(i == 0 && s[0] == '+') {
        if s[0] == '+' {
            assert(s.skip(1)[i - 1] == s[i]);
        }
    }
}

/// A negative number has a minus sign before the digits of its amount.
pub proof fn law_minus_sign_comes_first(n: nat)
    ensures
        signed(n as int) == written(n, 10),
        n > 0 ==> signed(-(n as int)) == "-"@ + written(n, 10),
{
}

/// Numbers are written with the usual digits, the last one behind those of the rest.
pub proof fn law_digits_are_the_usual(n: nat, d: nat)
    requires
        d <= 9,
    ensures
        written(d, 10).len() == 1,
        written(d, 10)[0] as u32 == 0x30 + d,
        n > 0 ==> written(10 * n + d, 10) == written(n, 10) + written(d, 10),
{
    assert((10 * n + d) / 10 == n && (10 * n + d) % 10 == d);
    if n > 0 {
        assert(written(10 * n + d, 10) =~= written(n, 10) + written(d, 10));
    }
}

} // verus!
