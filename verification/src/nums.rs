use vstd::prelude::*;
use vstd::arithmetic::div_mod::{lemma_fundamental_div_mod, lemma_mod_bound};
use crate::text::{digit_char, digit_char_x, digit_val, is_digit, is_digit_x};

verus! {

/// Decimal digits of a non-negative value, most significant first.
pub open spec fn dec_digits(n: int) -> Seq<char>
    decreases n,
{
    if n < 10 {
        seq![digit_char(n)]
    } else {
        dec_digits(n / 10).push(digit_char(n % 10))
    }
}

/// Decimal rendering of a signed value.
pub open spec fn int_digits(n: int) -> Seq<char> {
    if n < 0 {
        seq!['-'] + dec_digits(-n)
    } else {
        dec_digits(n)
    }
}

pub fn dec_digits_x(n: u64) -> (v: Vec<char>)
    ensures
        v@ == dec_digits(n as int),
    decreases n,
{
    if n < 10 {
        vec![digit_char_x(n as u32)]
    } else {
        let mut v = dec_digits_x(n / 10);
        v.push(digit_char_x((n % 10) as u32));
        v
    }
}

pub fn i64_digits_x(n: i64) -> (v: Vec<char>)
    ensures
        v@ == int_digits(n as int),
{
    if n >= 0 {
        dec_digits_x(n as u64)
    } else {
        let mag: u64 = if n == i64::MIN {
            9223372036854775808u64
        } else {
            (-n) as u64
        };
        let mut v: Vec<char> = vec!['-'];
        let mut d = dec_digits_x(mag);
        v.append(&mut d);
        proof {
            assert(v@ =~= int_digits(n as int));
        }
        v
    }
}

/// Greedy decimal parse from a position: consumes a maximal digit run,
/// refusing values over the bound. The accumulator carries what is already
/// read.
pub open spec fn parse_digits(s: Seq<char>, pos: int, acc: int, max: int) -> Option<(int, int)>
    decreases s.len() - pos,
{
    if pos < 0 || pos >= s.len() || !is_digit(s[pos]) {
        None
    } else {
        let v = acc * 10 + digit_val(s[pos]);
        if v > max {
            None
        } else if pos + 1 < s.len() && is_digit(s[pos + 1]) {
            parse_digits(s, pos + 1, v, max)
        } else {
            Some((v, pos + 1))
        }
    }
}

/// Signed decimal parse: an optional minus sign, then digits; magnitudes must
/// fit a 64-bit signed value.
pub open spec fn parse_int_at(s: Seq<char>, pos: int) -> Option<(int, int)> {
    if 0 <= pos < s.len() && s[pos] == '-' {
        match parse_digits(s, pos + 1, 0, 9223372036854775808) {
            Some((v, p)) => Some((-v, p)),
            None => None,
        }
    } else {
        parse_digits(s, pos, 0, 9223372036854775807)
    }
}

pub fn parse_digits_x(v: &Vec<char>, pos: usize, max: u64) -> (r: Option<(u64, usize)>)
    requires
        pos <= v@.len(),
    ensures
        match r {
            Some((n, p)) => parse_digits(v@, pos as int, 0, max as int) == Some(
                (n as int, p as int),
            ) && p <= v@.len() && n <= max,
            None => parse_digits(v@, pos as int, 0, max as int) is None,
        },
{
    if pos >= v.len() || !is_digit_x(v[pos]) {
        return None;
    }
    let mut p: usize = pos;
    let mut acc: u64 = 0;
    loop
        invariant
            pos <= p < v@.len(),
            is_digit(v@[p as int]),
            0 <= acc <= max,
            max <= u64::MAX,
            parse_digits(v@, pos as int, 0, max as int) == parse_digits(
                v@,
                p as int,
                acc as int,
                max as int,
            ),
        decreases v@.len() - p,
    {
        let d: u64 = crate::text::digit_val_x(v[p]) as u64;
        let q: u64 = max / 10;
        let r0: u64 = max % 10;
        let over: bool = acc > q || (acc == q && d > r0);
        proof {
            lemma_fundamental_div_mod(max as int, 10);
            lemma_mod_bound(max as int, 10);
            assert(over == (acc * 10 + d > max));
        }
        if over {
            return None;
        }
        let val: u64 = acc * 10 + d;
        let nlen: usize = v.len();
        if p < nlen - 1 && is_digit_x(v[p + 1]) {
            p = p + 1;
            acc = val;
        } else {
            return Some((val, p + 1));
        }
    }
}

pub fn parse_int_x(v: &Vec<char>, pos: usize) -> (r: Option<(i64, usize)>)
    requires
        pos <= v@.len(),
    ensures
        match r {
            Some((n, p)) => parse_int_at(v@, pos as int) == Some((n as int, p as int)) && p
                <= v@.len(),
            None => parse_int_at(v@, pos as int) is None,
        },
{
    if pos < v.len() && v[pos] == '-' {
        match parse_digits_x(v, pos + 1, 9223372036854775808u64) {
            Some((mag, p)) => {
                let n: i64 = if mag == 9223372036854775808u64 {
                    i64::MIN
                } else {
                    -(mag as i64)
                };
                Some((n, p))
            },
            None => None,
        }
    } else {
        match parse_digits_x(v, pos, 9223372036854775807u64) {
            Some((mag, p)) => Some((mag as i64, p)),
            None => None,
        }
    }
}

spec fn pow10(k: nat) -> int
    decreases k,
{
    if k == 0 {
        1
    } else {
        10 * pow10((k - 1) as nat)
    }
}

/// Value of a digit string read left to right onto an accumulator.
spec fn digits_val_acc(acc: int, ds: Seq<char>) -> int
    decreases ds.len(),
{
    if ds.len() == 0 {
        acc
    } else {
        digits_val_acc(acc * 10 + digit_val(ds[0]), ds.drop_first())
    }
}

proof fn lemma_digits_val_acc_mono(acc: int, ds: Seq<char>)
    requires
        acc >= 0,
        forall|i: int| 0 <= i < ds.len() ==> is_digit(#[trigger] ds[i]),
    ensures
        digits_val_acc(acc, ds) >= acc,
    decreases ds.len(),
{
    if ds.len() > 0 {
        let acc2 = acc * 10 + digit_val(ds[0]);
        assert(acc * 10 + digit_val(ds[0]) >= acc) by (nonlinear_arith)
            requires
                acc >= 0,
                digit_val(ds[0]) >= 0,
        ;
        let rest = ds.drop_first();
        assert(forall|i: int| 0 <= i < rest.len() ==> #[trigger] rest[i] == ds[i + 1]);
        lemma_digits_val_acc_mono(acc2, rest);
    }
}

proof fn lemma_digits_val_acc_push(acc: int, ds: Seq<char>, c: char)
    ensures
        digits_val_acc(acc, ds.push(c)) == digits_val_acc(acc, ds) * 10 + digit_val(c),
    decreases ds.len(),
{
    if ds.len() == 0 {
        assert(ds.push(c) =~= seq![c]);
        assert(seq![c].drop_first() =~= Seq::<char>::empty());
        assert(digits_val_acc(acc * 10 + digit_val(c), Seq::<char>::empty()) == acc * 10
            + digit_val(c));
        assert(digits_val_acc(acc, ds) == acc);
    } else {
        assert(ds.push(c)[0] == ds[0]);
        assert(ds.push(c).drop_first() =~= ds.drop_first().push(c));
        lemma_digits_val_acc_push(acc * 10 + digit_val(ds[0]), ds.drop_first(), c);
        assert(digits_val_acc(acc, ds.push(c)) == digits_val_acc(
            acc * 10 + digit_val(ds[0]),
            ds.drop_first().push(c),
        ));
        assert(digits_val_acc(acc, ds) == digits_val_acc(
            acc * 10 + digit_val(ds[0]),
            ds.drop_first(),
        ));
    }
}

proof fn lemma_dec_digits_all_digits(n: int)
    requires
        n >= 0,
    ensures
        dec_digits(n).len() >= 1,
        forall|i: int| 0 <= i < dec_digits(n).len() ==> is_digit(#[trigger] dec_digits(n)[i]),
    decreases n,
{
    if n < 10 {
        assert(is_digit(digit_char(n)));
    } else {
        lemma_dec_digits_all_digits(n / 10);
        lemma_mod_bound(n, 10);
        assert(is_digit(digit_char(n % 10)));
        assert(forall|i: int|
            0 <= i < dec_digits(n / 10).len() ==> #[trigger] dec_digits(n)[i] == dec_digits(
                n / 10,
            )[i]);
        assert(dec_digits(n).last() == digit_char(n % 10));
    }
}

proof fn lemma_dec_digits_value(acc: int, n: int)
    requires
        n >= 0,
    ensures
        digits_val_acc(acc, dec_digits(n)) == acc * pow10(dec_digits(n).len() as nat) + n,
    decreases n,
{
    if n < 10 {
        assert(seq![digit_char(n)].drop_first() =~= Seq::<char>::empty());
        assert(digit_val(digit_char(n)) == n);
        assert(pow10(0) == 1);
        assert(pow10(1) == 10);
        assert(digits_val_acc(acc, seq![digit_char(n)]) == digits_val_acc(
            acc * 10 + n,
            Seq::<char>::empty(),
        ));
        assert(digits_val_acc(acc * 10 + n, Seq::<char>::empty()) == acc * 10 + n);
    } else {
        lemma_fundamental_div_mod(n, 10);
        lemma_mod_bound(n, 10);
        lemma_dec_digits_value(acc, n / 10);
        lemma_digits_val_acc_push(acc, dec_digits(n / 10), digit_char(n % 10));
        let l2 = dec_digits(n / 10).len() as nat;
        assert(digit_val(digit_char(n % 10)) == n % 10);
        assert(pow10(l2 + 1) == 10 * pow10(l2));
        assert((acc * pow10(l2) + n / 10) * 10 + n % 10 == acc * (10 * pow10(l2)) + (10 * (n / 10)
            + n % 10)) by (nonlinear_arith);
        assert(dec_digits(n).len() == l2 + 1);
    }
}

proof fn lemma_parse_digit_string(s: Seq<char>, pos: int, ds: Seq<char>, acc: int, max: int)
    requires
        0 <= pos,
        0 <= acc,
        ds.len() >= 1,
        pos + ds.len() <= s.len(),
        forall|i: int| 0 <= i < ds.len() ==> is_digit(#[trigger] ds[i]),
        forall|i: int| 0 <= i < ds.len() ==> s[pos + i] == #[trigger] ds[i],
        digits_val_acc(acc, ds) <= max,
        pos + ds.len() == s.len() || !is_digit(s[pos + ds.len()]),
    ensures
        parse_digits(s, pos, acc, max) == Some((digits_val_acc(acc, ds), pos + ds.len())),
    decreases ds.len(),
{
    assert(s[pos] == ds[0]);
    let d0 = digit_val(ds[0]);
    let v = acc * 10 + d0;
    assert(acc * 10 + d0 >= 0) by (nonlinear_arith)
        requires
            acc >= 0,
            d0 >= 0,
    ;
    let rest = ds.drop_first();
    assert(forall|i: int| 0 <= i < rest.len() ==> #[trigger] rest[i] == ds[i + 1]);
    assert(digits_val_acc(acc, ds) == digits_val_acc(v, rest));
    lemma_digits_val_acc_mono(v, rest);
    assert(v <= max);
    if ds.len() == 1 {
        assert(digits_val_acc(acc, ds) == v);
    } else {
        assert(s[pos + 1] == ds[1]);
        assert(is_digit(s[pos + 1]));
        assert(forall|i: int| 0 <= i < rest.len() ==> s[pos + 1 + i] == #[trigger] rest[i]);
        lemma_parse_digit_string(s, pos + 1, rest, v, max);
    }
}

/// Parsing the canonical decimal rendering of n recovers exactly n.
pub proof fn lemma_parse_dec_digits(s: Seq<char>, pos: int, n: int, max: int)
    requires
        0 <= pos,
        0 <= n <= max,
        pos + dec_digits(n).len() <= s.len(),
        forall|i: int| 0 <= i < dec_digits(n).len() ==> s[pos + i] == #[trigger] dec_digits(n)[i],
        pos + dec_digits(n).len() == s.len() || !is_digit(s[pos + dec_digits(n).len()]),
    ensures
        parse_digits(s, pos, 0, max) == Some((n, pos + dec_digits(n).len())),
{
    lemma_dec_digits_all_digits(n);
    lemma_dec_digits_value(0, n);
    assert(0 * pow10(dec_digits(n).len() as nat) == 0) by (nonlinear_arith);
    lemma_parse_digit_string(s, pos, dec_digits(n), 0, max);
}

/// Parsing the canonical signed rendering of n recovers exactly n.
pub proof fn lemma_parse_int_digits(s: Seq<char>, pos: int, n: int)
    requires
        0 <= pos,
        -9223372036854775808 <= n <= 9223372036854775807,
        pos + int_digits(n).len() <= s.len(),
        forall|i: int| 0 <= i < int_digits(n).len() ==> s[pos + i] == #[trigger] int_digits(n)[i],
        pos + int_digits(n).len() == s.len() || !is_digit(s[pos + int_digits(n).len()]),
    ensures
        parse_int_at(s, pos) == Some((n, pos + int_digits(n).len())),
{
    if n < 0 {
        let mag = -n;
        let ds = dec_digits(mag);
        assert(int_digits(n)[0] == '-');
        assert(s[pos] == '-');
        assert(forall|i: int| 0 <= i < ds.len() ==> int_digits(n)[i + 1] == #[trigger] ds[i]);
        assert(forall|i: int| 0 <= i < ds.len() ==> s[pos + 1 + i] == #[trigger] ds[i]);
        lemma_parse_dec_digits(s, pos + 1, mag, 9223372036854775808);
    } else {
        lemma_dec_digits_all_digits(n);
        assert(s[pos] == dec_digits(n)[0]);
        assert(is_digit(s[pos]));
        assert(!is_digit('-'));
        lemma_parse_dec_digits(s, pos, n, 9223372036854775807);
    }
}

} // verus!
