//! Primitive productions of the wire format: decimal integers, fixed-point
//! numbers, names, booleans, and fixed literals.

use vstd::arithmetic::div_mod::lemma_fundamental_div_mod;
use vstd::prelude::*;

use crate::state::{coord_wf, name_wf};

verus! {

/// An ASCII decimal digit.
pub open spec fn is_digit(b: u8) -> bool {
    0x30 <= b <= 0x39
}

/// A byte allowed inside a name: printable ASCII, no quote, no backslash.
pub open spec fn is_name_byte(b: u8) -> bool {
    0x20 <= b <= 0x7e && b != 0x22 && b != 0x5c
}

/// The bytes from `pos` start with `lit`.
pub open spec fn starts_with(s: Seq<u8>, pos: int, lit: Seq<u8>) -> bool {
    &&& 0 <= pos
    &&& pos + lit.len() <= s.len()
    &&& s.subrange(pos, pos + lit.len()) == lit
}

/// Splitting the suffix of `s` at `pos` into `a + b` locates both parts.
pub proof fn lemma_split_suffix(s: Seq<u8>, pos: int, a: Seq<u8>, b: Seq<u8>)
    requires
        0 <= pos <= s.len(),
        s.subrange(pos, s.len() as int) == a + b,
    ensures
        pos + a.len() + b.len() == s.len(),
        s.subrange(pos, pos + a.len()) =~= a,
        s.subrange(pos + a.len(), s.len() as int) =~= b,
        forall|i: int| 0 <= i < a.len() ==> s[pos + i] == #[trigger] a[i],
        forall|i: int| 0 <= i < b.len() ==> s[pos + a.len() + i] == #[trigger] b[i],
{
    assert(s.subrange(pos, s.len() as int).len() == a.len() + b.len());
    assert forall|i: int| 0 <= i < a.len() implies s[pos + i] == #[trigger] a[i] by {
        assert(s.subrange(pos, s.len() as int)[i] == (a + b)[i]);
        assert(s.subrange(pos, s.len() as int)[i] == s[pos + i]);
        assert((a + b)[i] == a[i]);
    }
    assert forall|i: int| 0 <= i < b.len() implies s[pos + a.len() + i] == #[trigger] b[i] by {
        assert(s.subrange(pos, s.len() as int)[a.len() + i] == (a + b)[a.len() + i]);
        assert(s.subrange(pos, s.len() as int)[a.len() + i] == s[pos + a.len() + i]);
        assert((a + b)[a.len() + i] == b[i]);
    }
}

// ------------------------------------------------------------------
// Unsigned decimal integers
// ------------------------------------------------------------------
/// The decimal digits of `n`, most significant first.
pub open spec fn dec_u64(n: nat) -> Seq<u8>
    decreases n,
{
    if n < 10 {
        seq![(0x30 + n) as u8]
    } else {
        dec_u64(n / 10).push((0x30 + n % 10) as u8)
    }
}

/// The number a digit string denotes.
pub open spec fn val_digits(s: Seq<u8>) -> int
    decreases s.len(),
{
    if s.len() == 0 {
        0
    } else {
        val_digits(s.drop_last()) * 10 + (s.last() - 0x30)
    }
}

/// How many consecutive digits start at `pos`.
pub open spec fn run_len(s: Seq<u8>, pos: int) -> int
    decreases s.len() - pos,
{
    if pos < 0 || pos >= s.len() || !is_digit(s[pos]) {
        0
    } else {
        1 + run_len(s, pos + 1)
    }
}

/// A parsed decimal `u64`: the whole digit run, rejected on overflow.
pub open spec fn spec_parse_u64(s: Seq<u8>, pos: int) -> Option<(u64, int)> {
    let k = run_len(s, pos);
    if k == 0 {
        None
    } else {
        let v = val_digits(s.subrange(pos, pos + k));
        if v > 0xffff_ffff_ffff_ffff {
            None
        } else {
            Some((v as u64, pos + k))
        }
    }
}

/// A digit string denotes a nonnegative number.
pub proof fn lemma_val_digits_nonneg(s: Seq<u8>)
    requires
        forall|i: int| 0 <= i < s.len() ==> is_digit(#[trigger] s[i]),
    ensures
        val_digits(s) >= 0,
    decreases s.len(),
{
    if s.len() > 0 {
        lemma_val_digits_nonneg(s.drop_last());
    }
}

/// Dropping trailing digits cannot grow the denoted number.
pub proof fn lemma_val_digits_take_le(s: Seq<u8>, j: int)
    requires
        forall|i: int| 0 <= i < s.len() ==> is_digit(#[trigger] s[i]),
        0 <= j <= s.len(),
    ensures
        val_digits(s.take(j)) <= val_digits(s),
    decreases s.len() - j,
{
    if j == s.len() {
        assert(s.take(j) =~= s);
    } else {
        lemma_val_digits_take_le(s, j + 1);
        let t = s.take(j + 1);
        assert(t.drop_last() =~= s.take(j));
        lemma_val_digits_nonneg(s.take(j));
        assert(val_digits(t) == val_digits(s.take(j)) * 10 + (t.last() - 0x30));
        assert(is_digit(s[j]));
        assert(t.last() == s[j]);
        assert(val_digits(s.take(j)) * 10 >= val_digits(s.take(j)));
    }
}

/// Every byte of a rendered decimal is a digit.
pub proof fn lemma_dec_u64_digits(n: nat)
    ensures
        dec_u64(n).len() >= 1,
        forall|i: int| 0 <= i < dec_u64(n).len() ==> is_digit(#[trigger] dec_u64(n)[i]),
    decreases n,
{
    if n >= 10 {
        lemma_dec_u64_digits(n / 10);
        assert forall|i: int| 0 <= i < dec_u64(n).len() implies is_digit(
            #[trigger] dec_u64(n)[i],
        ) by {
            if i < dec_u64(n / 10).len() {
                assert(dec_u64(n)[i] == dec_u64(n / 10)[i]);
            } else {
                assert(dec_u64(n)[i] == (0x30 + n % 10) as u8);
            }
        }
    }
}

/// Rendering then reading a decimal gives the number back.
pub proof fn lemma_val_dec_u64(n: nat)
    ensures
        val_digits(dec_u64(n)) == n,
    decreases n,
{
    if n < 10 {
        let s = dec_u64(n);
        let e = Seq::<u8>::empty();
        assert(s.len() == 1);
        assert(s.last() == (0x30 + n) as u8);
        assert(s.drop_last() =~= e);
        assert(val_digits(e) == 0);
        assert(val_digits(s.drop_last()) == 0);
        assert(val_digits(s) == val_digits(s.drop_last()) * 10 + (s.last() - 0x30));
        assert((0x30 + n) as u8 - 0x30 == n);
    } else {
        lemma_val_dec_u64(n / 10);
        let s = dec_u64(n);
        assert(s.drop_last() =~= dec_u64(n / 10));
        assert(s.last() == (0x30 + n % 10) as u8);
        assert(val_digits(s) == (n / 10) * 10 + n % 10);
        lemma_fundamental_div_mod(n as int, 10);
    }
}

/// The digit run at `pos` is exactly `[pos, j)` when the digits stop at `j`.
pub proof fn lemma_run_len_exact(s: Seq<u8>, pos: int, j: int)
    requires
        0 <= pos <= j <= s.len(),
        forall|i: int| pos <= i < j ==> is_digit(#[trigger] s[i]),
        j == s.len() || !is_digit(s[j]),
    ensures
        run_len(s, pos) == j - pos,
    decreases j - pos,
{
    if pos < j {
        lemma_run_len_exact(s, pos + 1, j);
    }
}

/// A digit run covers at least every known all-digit region.
pub proof fn lemma_run_len_min(s: Seq<u8>, pos: int, j: int)
    requires
        0 <= pos <= j <= s.len(),
        forall|i: int| pos <= i < j ==> is_digit(#[trigger] s[i]),
    ensures
        run_len(s, pos) >= j - pos,
    decreases j - pos,
{
    if pos < j {
        lemma_run_len_min(s, pos + 1, j);
    } else {
        lemma_run_digits(s, pos);
    }
}

/// The whole digit run consists of digits.
pub proof fn lemma_run_digits(s: Seq<u8>, pos: int)
    requires
        0 <= pos,
    ensures
        pos + run_len(s, pos) <= s.len() || run_len(s, pos) == 0,
        run_len(s, pos) >= 0,
        forall|i: int| pos <= i < pos + run_len(s, pos) ==> is_digit(#[trigger] s[i]),
    decreases s.len() - pos,
{
    if !(pos >= s.len() || !is_digit(s[pos])) {
        lemma_run_digits(s, pos + 1);
    }
}

/// Reading a rendered decimal followed by a non-digit yields the number
/// and stops right after its digits.
pub proof fn lemma_parse_u64_dec(s: Seq<u8>, pos: int, n: u64, rest: Seq<u8>)
    requires
        0 <= pos <= s.len(),
        s.subrange(pos, s.len() as int) == dec_u64(n as nat) + rest,
        rest.len() == 0 || !is_digit(rest[0]),
    ensures
        spec_parse_u64(s, pos) == Some((n, pos + dec_u64(n as nat).len())),
{
    let d = dec_u64(n as nat);
    lemma_dec_u64_digits(n as nat);
    lemma_split_suffix(s, pos, d, rest);
    let j = pos + d.len();
    assert forall|i: int| pos <= i < j implies is_digit(#[trigger] s[i]) by {
        assert(s[pos + (i - pos)] == d[i - pos]);
    }
    if rest.len() > 0 {
        assert(s[j] == rest[0]);
    }
    lemma_run_len_exact(s, pos, j);
    assert(s.subrange(pos, pos + d.len()) =~= d);
    lemma_val_dec_u64(n as nat);
}

/// Reads a decimal `u64` at `pos`: the whole digit run, or nothing on
/// overflow or when no digit starts there.
pub fn parse_u64(s: &Vec<u8>, pos: usize) -> (r: Option<(u64, usize)>)
    requires
        pos <= s@.len(),
    ensures
        (match spec_parse_u64(s@, pos as int) {
            Option::None => r is None,
            Option::Some((v, p)) => r is Some && r.unwrap().0 == v && r.unwrap().1 as int == p,
        }),
{
    proof {
        lemma_run_digits(s@, pos as int);
    }
    if pos == s.len() || !(s[pos] >= 0x30 && s[pos] <= 0x39) {
        return None;
    }
    let mut i: usize = pos;
    let mut acc: u64 = 0;
    proof {
        assert(s@.subrange(pos as int, pos as int) =~= Seq::<u8>::empty());
    }
    while i < s.len() && s[i] >= 0x30 && s[i] <= 0x39
        invariant
            pos <= i <= s@.len(),
            forall|t: int| pos <= t < i ==> is_digit(#[trigger] s@[t]),
            acc as int == val_digits(s@.subrange(pos as int, i as int)),
        decreases s@.len() - i,
    {
        let d: u64 = (s[i] - 0x30) as u64;
        let ghost prefix = s@.subrange(pos as int, i as int);
        let ghost ext = s@.subrange(pos as int, i as int + 1);
        proof {
            assert(ext.drop_last() =~= prefix);
            assert(ext.last() == s@[i as int]);
        }
        if acc > (0xffff_ffff_ffff_ffffu64 - d) / 10 {
            proof {
                // The prefix up to and including this digit already
                // overflows, so the whole run does.
                let k = run_len(s@, pos as int);
                lemma_run_digits(s@, pos as int);
                lemma_run_len_min(s@, pos as int, i as int + 1);
                let run = s@.subrange(pos as int, pos as int + k);
                assert(ext =~= run.take(i + 1 - pos as int));
                assert forall|t: int| 0 <= t < run.len() implies is_digit(#[trigger] run[t]) by {
                    assert(run[t] == s@[pos + t]);
                }
                lemma_val_digits_take_le(run, i + 1 - pos as int);
                assert(val_digits(ext) == acc as int * 10 + d);
                assert(acc as int > (0xffff_ffff_ffff_ffff - d as int) / 10);
                lemma_fundamental_div_mod(0xffff_ffff_ffff_ffff - d as int, 10);
                assert(acc as int * 10 + d > 0xffff_ffff_ffff_ffff);
            }
            return None;
        }
        proof {
            lemma_fundamental_div_mod(0xffff_ffff_ffff_ffff - d as int, 10);
            assert(acc as int * 10 + d <= 0xffff_ffff_ffff_ffff);
        }
        acc = acc * 10 + d;
        i += 1;
    }
    proof {
        let k = run_len(s@, pos as int);
        lemma_run_len_exact(s@, pos as int, i as int);
        assert(k == i - pos);
        lemma_val_digits_nonneg(s@.subrange(pos as int, i as int));
    }
    Some((acc, i))
}

/// Appends the decimal digits of `n`.
pub fn write_u64(n: u64, out: &mut Vec<u8>)
    ensures
        final(out)@ == old(out)@ + dec_u64(n as nat),
    decreases n,
{
    if n < 10 {
        out.push(0x30 + n as u8);
        proof {
            assert(out@ =~= old(out)@ + dec_u64(n as nat));
        }
    } else {
        write_u64(n / 10, out);
        out.push(0x30 + (n % 10) as u8);
        proof {
            assert(out@ =~= old(out)@ + dec_u64(n as nat));
        }
    }
}

// ------------------------------------------------------------------
// Fixed-point numbers (thousandths of a unit)
// ------------------------------------------------------------------
/// Magnitude of a signed value.
pub open spec fn abs_int(v: int) -> int {
    if v < 0 {
        -v
    } else {
        v
    }
}

/// The canonical rendering of a fixed-point value: optional sign, the
/// whole units in decimal, a point, and exactly three fraction digits.
pub open spec fn dec_fx(v: i64) -> Seq<u8> {
    let a = abs_int(v as int);
    let m = a % 1000;
    let sign: Seq<u8> = if v < 0 {
        seq![0x2du8]
    } else {
        Seq::empty()
    };
    sign + dec_u64((a / 1000) as nat) + seq![
        0x2eu8,
        (0x30 + m / 100) as u8,
        (0x30 + (m % 100) / 10) as u8,
        (0x30 + (m % 100) % 10) as u8,
    ]
}

/// A parsed fraction: nothing (worth zero), or a point followed by one to
/// three digits, scaled to thousandths.
pub open spec fn spec_parse_frac(s: Seq<u8>, pos: int) -> Option<(int, int)> {
    if !(0 <= pos < s.len() && s[pos] == 0x2e) {
        Some((0, pos))
    } else {
        let k = run_len(s, pos + 1);
        if k < 1 || k > 3 {
            None
        } else {
            let v = val_digits(s.subrange(pos + 1, pos + 1 + k));
            let scaled = if k == 1 {
                v * 100
            } else if k == 2 {
                v * 10
            } else {
                v
            };
            Some((scaled, pos + 1 + k))
        }
    }
}

/// A parsed fixed-point value, rejected outside the world's range.
pub open spec fn spec_parse_fx(s: Seq<u8>, pos: int) -> Option<(i64, int)> {
    let neg = 0 <= pos < s.len() && s[pos] == 0x2d;
    let p0 = if neg {
        pos + 1
    } else {
        pos
    };
    match spec_parse_u64(s, p0) {
        Option::None => None,
        Option::Some((ip, p1)) => {
            if ip > 2_000_000 {
                None
            } else {
                match spec_parse_frac(s, p1) {
                    Option::None => None,
                    Option::Some((fr, p2)) => {
                        let m = ip * 1000 + fr;
                        if m > 2_000_000_000 {
                            None
                        } else if neg {
                            Some(((-m) as i64, p2))
                        } else {
                            Some((m as i64, p2))
                        }
                    },
                }
            }
        },
    }
}

/// A short digit string denotes a small number.
pub proof fn lemma_val_digits_small(s: Seq<u8>)
    requires
        forall|i: int| 0 <= i < s.len() ==> is_digit(#[trigger] s[i]),
    ensures
        s.len() <= 1 ==> val_digits(s) < 10,
        s.len() <= 2 ==> val_digits(s) < 100,
        s.len() <= 3 ==> val_digits(s) < 1000,
        val_digits(s) >= 0,
    decreases s.len(),
{
    if s.len() > 0 {
        lemma_val_digits_small(s.drop_last());
    }
}

/// Appends the canonical rendering of a fixed-point value.
pub fn write_fx(v: i64, out: &mut Vec<u8>)
    requires
        coord_wf(v),
    ensures
        final(out)@ == old(out)@ + dec_fx(v),
{
    let a: u64 = if v < 0 {
        (-v) as u64
    } else {
        v as u64
    };
    if v < 0 {
        out.push(0x2d);
    }
    let ghost mid = out@;
    write_u64(a / 1000, out);
    let m = a % 1000;
    out.push(0x2e);
    out.push(0x30 + (m / 100) as u8);
    out.push(0x30 + ((m % 100) / 10) as u8);
    out.push(0x30 + ((m % 100) % 10) as u8);
    proof {
        assert(out@ =~= old(out)@ + dec_fx(v));
    }
}

/// Reads a fixed-point value at `pos`.
pub fn parse_fx(s: &Vec<u8>, pos: usize) -> (r: Option<(i64, usize)>)
    requires
        pos <= s@.len(),
    ensures
        (match spec_parse_fx(s@, pos as int) {
            Option::None => r is None,
            Option::Some((v, p)) => r is Some && r.unwrap().0 == v && r.unwrap().1 as int == p,
        }),
{
    let neg = pos < s.len() && s[pos] == 0x2d;
    let p0 = if neg {
        pos + 1
    } else {
        pos
    };
    let (ip, p1) = match parse_u64(s, p0) {
        Option::None => {
            return None;
        },
        Option::Some(x) => x,
    };
    if ip > 2_000_000 {
        return None;
    }
    let (fr, p2): (u64, usize) = if p1 < s.len() && s[p1] == 0x2e {
        match parse_u64(s, p1 + 1) {
            Option::None => {
                return None;
            },
            Option::Some((fv, pf)) => {
                proof {
                    lemma_run_digits(s@, p1 as int + 1);
                    assert(run_len(s@, p1 as int + 1) >= 1);
                }
                let k = pf - (p1 + 1);
                if k < 1 || k > 3 {
                    return None;
                }
                proof {
                    let run = s@.subrange(
                        p1 as int + 1,
                        p1 as int + 1 + run_len(s@, p1 as int + 1),
                    );
                    lemma_val_digits_small(run);
                }
                let scaled = if k == 1 {
                    fv * 100
                } else if k == 2 {
                    fv * 10
                } else {
                    fv
                };
                (scaled, pf)
            },
        }
    } else {
        (0, p1)
    };
    let m = ip * 1000 + fr;
    if m > 2_000_000_000 {
        return None;
    }
    if neg {
        Some((-(m as i64), p2))
    } else {
        Some((m as i64, p2))
    }
}

/// Reading a rendered fixed-point value followed by a non-digit yields
/// the value back.
pub proof fn lemma_parse_fx_dec(s: Seq<u8>, pos: int, v: i64, rest: Seq<u8>)
    requires
        0 <= pos <= s.len(),
        coord_wf(v),
        s.subrange(pos, s.len() as int) == dec_fx(v) + rest,
        rest.len() == 0 || !is_digit(rest[0]),
    ensures
        spec_parse_fx(s, pos) == Some((v, pos + dec_fx(v).len())),
{
    let a = abs_int(v as int);
    let m0 = a % 1000;
    let dd = dec_u64((a / 1000) as nat);
    let ftail = seq![
        0x2eu8,
        (0x30 + m0 / 100) as u8,
        (0x30 + (m0 % 100) / 10) as u8,
        (0x30 + (m0 % 100) % 10) as u8,
    ];
    lemma_fundamental_div_mod(a, 1000);
    lemma_fundamental_div_mod(m0, 100);
    lemma_fundamental_div_mod(m0 % 100, 10);
    let p0 = if v < 0 {
        pos + 1
    } else {
        pos
    };
    if v < 0 {
        assert(dec_fx(v) + rest =~= seq![0x2du8] + (dd + (ftail + rest)));
        lemma_split_suffix(s, pos, seq![0x2du8], dd + (ftail + rest));
        assert(seq![0x2du8][0] == 0x2du8);
        assert(s[pos + 0] == seq![0x2du8][0]);
        assert(s[pos] == 0x2d);
    } else {
        assert(dec_fx(v) + rest =~= dd + (ftail + rest));
        lemma_dec_u64_digits((a / 1000) as nat);
        lemma_split_suffix(s, pos, dd, ftail + rest);
        assert(s[pos + 0] == dd[0]);
        assert(s[pos] == dd[0]);
        assert(is_digit(s[pos]));
        assert(s[pos] != 0x2d);
    }
    assert(s.subrange(p0, s.len() as int) =~= dd + (ftail + rest));
    lemma_parse_u64_dec(s, p0, (a / 1000) as u64, ftail + rest);
    let p1 = p0 + dd.len();
    lemma_split_suffix(s, p0, dd, ftail + rest);
    assert(s.subrange(p1, s.len() as int) =~= ftail + rest);
    lemma_split_suffix(s, p1, ftail, rest);
    assert(s[p1 + 0] == ftail[0]);
    assert(s[p1 + 1] == ftail[1]);
    assert(s[p1 + 2] == ftail[2]);
    assert(s[p1 + 3] == ftail[3]);
    assert(s[p1] == 0x2e);
    assert(0 <= m0 < 1000);
    assert(0 <= m0 % 100 < 100);
    assert(0 <= m0 / 100 <= 9 && 0 <= (m0 % 100) / 10 <= 9 && 0 <= (m0 % 100) % 10 <= 9);
    assert(s[p1 + 1] == (0x30 + m0 / 100) as u8);
    assert(s[p1 + 2] == (0x30 + (m0 % 100) / 10) as u8);
    assert(s[p1 + 3] == (0x30 + (m0 % 100) % 10) as u8);
    assert(is_digit(s[p1 + 1]) && is_digit(s[p1 + 2]) && is_digit(s[p1 + 3]));
    if rest.len() > 0 {
        assert(s[p1 + 4 + 0] == rest[0]);
        assert(s[p1 + 4] == rest[0]);
    }
    lemma_run_len_exact(s, p1 + 1, p1 + 4);
    let f1 = s.subrange(p1 + 1, p1 + 2);
    let f2 = s.subrange(p1 + 1, p1 + 3);
    let fd = s.subrange(p1 + 1, p1 + 4);
    assert(fd.len() == 3);
    assert(val_digits(fd) == m0) by {
        assert(fd.drop_last() =~= f2);
        assert(f2.drop_last() =~= f1);
        assert(f1.drop_last() =~= Seq::<u8>::empty());
        assert(f1.last() == s[p1 + 1]);
        assert(f2.last() == s[p1 + 2]);
        assert(fd.last() == s[p1 + 3]);
        assert(val_digits(f1) == val_digits(Seq::<u8>::empty()) * 10 + (s[p1 + 1] - 0x30));
        assert(val_digits(f1) == m0 / 100);
        assert(val_digits(f2) == (m0 / 100) * 10 + (m0 % 100) / 10);
        assert(val_digits(fd) == ((m0 / 100) * 10 + (m0 % 100) / 10) * 10 + (m0 % 100) % 10);
    }
    assert(spec_parse_frac(s, p1) == Some((m0, p1 + 4)));
    assert(a / 1000 <= 2_000_000);
    assert((a / 1000) * 1000 + m0 == a);
    if v < 0 {
        assert(spec_parse_fx(s, pos) == Some((v, p1 + 4)));
    } else {
        assert(spec_parse_fx(s, pos) == Some((v, p1 + 4)));
    }
    assert(p1 + 4 == pos + dec_fx(v).len());
}

// ------------------------------------------------------------------
// Names
// ------------------------------------------------------------------
/// A name on the wire: the bytes between two quotes, unescaped.
pub open spec fn ser_name(name: Seq<u8>) -> Seq<u8> {
    seq![0x22u8] + name + seq![0x22u8]
}

/// Where the closing quote of a name that starts at `pos` stands, if the
/// bytes up to it are all valid name bytes.
pub open spec fn name_end(s: Seq<u8>, pos: int) -> Option<int>
    decreases s.len() - pos,
{
    if pos < 0 || pos >= s.len() {
        None
    } else if s[pos] == 0x22 {
        Some(pos)
    } else if is_name_byte(s[pos]) {
        name_end(s, pos + 1)
    } else {
        None
    }
}

/// A parsed name: the bytes between the quotes.
pub open spec fn spec_parse_name(s: Seq<u8>, pos: int) -> Option<(Seq<u8>, int)> {
    if !(0 <= pos < s.len() && s[pos] == 0x22) {
        None
    } else {
        match name_end(s, pos + 1) {
            Option::None => None,
            Option::Some(e) => Some((s.subrange(pos + 1, e), e + 1)),
        }
    }
}

/// The scan for the closing quote stops exactly at a known quote.
pub proof fn lemma_name_end_exact(s: Seq<u8>, pos: int, e: int)
    requires
        0 <= pos <= e < s.len(),
        forall|i: int| pos <= i < e ==> is_name_byte(#[trigger] s[i]),
        s[e] == 0x22,
    ensures
        name_end(s, pos) == Some(e),
    decreases e - pos,
{
    if pos < e {
        assert(s[pos] != 0x22);
        lemma_name_end_exact(s, pos + 1, e);
    }
}

/// Appends a quoted name.
pub fn write_name(name: &Vec<u8>, out: &mut Vec<u8>)
    requires
        name_wf(name@),
    ensures
        final(out)@ == old(out)@ + ser_name(name@),
{
    out.push(0x22);
    let mut i: usize = 0;
    while i < name.len()
        invariant
            0 <= i <= name@.len(),
            out@ == old(out)@.push(0x22u8) + name@.take(i as int),
        decreases name@.len() - i,
    {
        out.push(name[i]);
        proof {
            assert(old(out)@.push(0x22u8) + name@.take(i as int + 1) =~= (old(out)@.push(0x22u8)
                + name@.take(i as int)).push(name@[i as int]));
        }
        i += 1;
    }
    out.push(0x22);
    proof {
        assert(name@.take(name@.len() as int) =~= name@);
        assert(out@ =~= old(out)@ + ser_name(name@));
    }
}

/// Reads a quoted name at `pos`.
pub fn parse_name(s: &Vec<u8>, pos: usize) -> (r: Option<(Vec<u8>, usize)>)
    requires
        pos <= s@.len(),
    ensures
        (match spec_parse_name(s@, pos as int) {
            Option::None => r is None,
            Option::Some((nm, p)) => r is Some && r.unwrap().0@ == nm && r.unwrap().1 as int == p,
        }),
{
    if pos == s.len() || s[pos] != 0x22 {
        return None;
    }
    let mut i: usize = pos + 1;
    let mut out: Vec<u8> = Vec::new();
    proof {
        assert(s@.subrange(pos as int + 1, pos as int + 1) =~= Seq::<u8>::empty());
    }
    while i < s.len() && s[i] != 0x22 && s[i] >= 0x20 && s[i] <= 0x7e && s[i] != 0x5c
        invariant
            pos + 1 <= i <= s@.len(),
            forall|t: int| pos + 1 <= t < i ==> is_name_byte(#[trigger] s@[t]),
            out@ == s@.subrange(pos as int + 1, i as int),
        decreases s@.len() - i,
    {
        out.push(s[i]);
        proof {
            assert(s@.subrange(pos as int + 1, i as int + 1) =~= s@.subrange(
                pos as int + 1,
                i as int,
            ).push(s@[i as int]));
        }
        i += 1;
    }
    if i < s.len() && s[i] == 0x22 {
        proof {
            lemma_name_end_exact(s@, pos as int + 1, i as int);
        }
        Some((out, i + 1))
    } else {
        proof {
            lemma_name_end_stuck(s@, pos as int + 1, i as int);
        }
        None
    }
}

/// The scan for the closing quote fails when it runs into an invalid byte
/// or the end of the input.
pub proof fn lemma_name_end_stuck(s: Seq<u8>, pos: int, e: int)
    requires
        0 <= pos <= e <= s.len(),
        forall|i: int| pos <= i < e ==> is_name_byte(#[trigger] s[i]),
        e == s.len() || (s[e] != 0x22 && !is_name_byte(s[e])),
    ensures
        name_end(s, pos) is None,
    decreases e - pos,
{
    if pos < e {
        assert(s[pos] != 0x22);
        lemma_name_end_stuck(s, pos + 1, e);
    }
}

/// Reading a rendered name yields the name back.
pub proof fn lemma_parse_name_ser(s: Seq<u8>, pos: int, name: Seq<u8>, rest: Seq<u8>)
    requires
        0 <= pos <= s.len(),
        name_wf(name),
        s.subrange(pos, s.len() as int) == ser_name(name) + rest,
    ensures
        spec_parse_name(s, pos) == Some((name, pos + name.len() + 2)),
{
    assert(ser_name(name) + rest =~= seq![0x22u8] + (name + (seq![0x22u8] + rest)));
    lemma_split_suffix(s, pos, seq![0x22u8], name + (seq![0x22u8] + rest));
    assert(s[pos + 0] == seq![0x22u8][0]);
    assert(s[pos] == 0x22);
    assert(s.subrange(pos + 1, s.len() as int) =~= name + (seq![0x22u8] + rest));
    lemma_split_suffix(s, pos + 1, name, seq![0x22u8] + rest);
    let e = pos + 1 + name.len();
    assert(s[pos + 1 + name.len() + 0] == (seq![0x22u8] + rest)[0]);
    assert((seq![0x22u8] + rest)[0] == 0x22u8);
    assert(s[e] == 0x22);
    assert forall|i: int| pos + 1 <= i < e implies is_name_byte(#[trigger] s[i]) by {
        assert(s[pos + 1 + (i - pos - 1)] == name[i - pos - 1]);
    }
    lemma_name_end_exact(s, pos + 1, e);
    assert(s.subrange(pos + 1, e) =~= name);
}

// ------------------------------------------------------------------
// Booleans
// ------------------------------------------------------------------
/// The bytes of `true`.
pub open spec fn lit_true() -> Seq<u8> {
    seq![0x74u8, 0x72u8, 0x75u8, 0x65u8]
}

/// The bytes of `false`.
pub open spec fn lit_false() -> Seq<u8> {
    seq![0x66u8, 0x61u8, 0x6cu8, 0x73u8, 0x65u8]
}

/// A boolean on the wire.
pub open spec fn ser_bool(b: bool) -> Seq<u8> {
    if b {
        lit_true()
    } else {
        lit_false()
    }
}

/// A parsed boolean.
pub open spec fn spec_parse_bool(s: Seq<u8>, pos: int) -> Option<(bool, int)> {
    if starts_with(s, pos, lit_true()) {
        Some((true, pos + 4))
    } else if starts_with(s, pos, lit_false()) {
        Some((false, pos + 5))
    } else {
        None
    }
}

/// Appends `true` or `false`.
pub fn write_bool(b: bool, out: &mut Vec<u8>)
    ensures
        final(out)@ == old(out)@ + ser_bool(b),
{
    if b {
        out.push(0x74);
        out.push(0x72);
        out.push(0x75);
        out.push(0x65);
    } else {
        out.push(0x66);
        out.push(0x61);
        out.push(0x6c);
        out.push(0x73);
        out.push(0x65);
    }
    proof {
        assert(out@ =~= old(out)@ + ser_bool(b));
    }
}

/// Reads `true` or `false` at `pos`.
pub fn parse_bool(s: &Vec<u8>, pos: usize) -> (r: Option<(bool, usize)>)
    requires
        pos <= s@.len(),
    ensures
        (match spec_parse_bool(s@, pos as int) {
            Option::None => r is None,
            Option::Some((b, p)) => r is Some && r.unwrap().0 == b && r.unwrap().1 as int == p,
        }),
{
    if s.len() - pos >= 4 && s[pos] == 0x74 && s[pos + 1] == 0x72 && s[pos + 2] == 0x75 && s[pos
        + 3] == 0x65 {
        proof {
            assert(s@.subrange(pos as int, pos as int + 4) =~= lit_true());
        }
        Some((true, pos + 4))
    } else if s.len() - pos >= 5 && s[pos] == 0x66 && s[pos + 1] == 0x61 && s[pos + 2] == 0x6c
        && s[pos + 3] == 0x73 && s[pos + 4] == 0x65 {
        proof {
            assert(s@.subrange(pos as int, pos as int + 5) =~= lit_false());
            if starts_with(s@, pos as int, lit_true()) {
                assert(s@.subrange(pos as int, pos as int + 4)[0] == lit_true()[0]);
            }
        }
        Some((false, pos + 5))
    } else {
        proof {
            if starts_with(s@, pos as int, lit_true()) {
                assert(forall|i: int|
                    0 <= i < 4 ==> s@.subrange(pos as int, pos as int + 4)[i] == #[trigger] lit_true()[i]);
                assert(s@[pos as int] == 0x74 && s@[pos as int + 1] == 0x72 && s@[pos as int + 2]
                    == 0x75 && s@[pos as int + 3] == 0x65);
            }
            if starts_with(s@, pos as int, lit_false()) {
                assert(forall|i: int|
                    0 <= i < 5 ==> s@.subrange(pos as int, pos as int + 5)[i] == #[trigger] lit_false()[i]);
                assert(s@[pos as int] == 0x66 && s@[pos as int + 1] == 0x61 && s@[pos as int + 2]
                    == 0x6c && s@[pos as int + 3] == 0x73 && s@[pos as int + 4] == 0x65);
            }
        }
        None
    }
}

/// Reading a rendered boolean yields it back.
pub proof fn lemma_parse_bool_ser(s: Seq<u8>, pos: int, b: bool, rest: Seq<u8>)
    requires
        0 <= pos <= s.len(),
        s.subrange(pos, s.len() as int) == ser_bool(b) + rest,
    ensures
        spec_parse_bool(s, pos) == Some((b, pos + ser_bool(b).len())),
{
    lemma_split_suffix(s, pos, ser_bool(b), rest);
    if b {
        assert(starts_with(s, pos, lit_true()));
    } else {
        assert(starts_with(s, pos, lit_false()));
        if starts_with(s, pos, lit_true()) {
            assert(s.subrange(pos, pos + 4)[0] == lit_true()[0]);
            assert(s[pos] == 0x74);
            assert(s[pos] == lit_false()[0]);
        }
    }
}


// ------------------------------------------------------------------
// Bounds of the primitive parsers
// ------------------------------------------------------------------
/// A successful number parse moves forward and stays in bounds.
pub proof fn lemma_parse_u64_bounds(s: Seq<u8>, pos: int)
    requires
        0 <= pos <= s.len(),
    ensures
        (match spec_parse_u64(s, pos) {
            Option::None => true,
            Option::Some((v, p)) => pos < p <= s.len(),
        }),
{
    lemma_run_digits(s, pos);
}

/// A successful fraction parse stays in bounds.
pub proof fn lemma_parse_frac_bounds(s: Seq<u8>, pos: int)
    requires
        0 <= pos <= s.len(),
    ensures
        (match spec_parse_frac(s, pos) {
            Option::None => true,
            Option::Some((f, p)) => pos <= p <= s.len(),
        }),
{
    if 0 <= pos < s.len() && s[pos] == 0x2e {
        lemma_run_digits(s, pos + 1);
    }
}

/// A successful fixed-point parse moves forward and stays in bounds.
pub proof fn lemma_parse_fx_bounds(s: Seq<u8>, pos: int)
    requires
        0 <= pos <= s.len(),
    ensures
        (match spec_parse_fx(s, pos) {
            Option::None => true,
            Option::Some((v, p)) => pos < p <= s.len(),
        }),
{
    let neg = 0 <= pos < s.len() && s[pos] == 0x2d;
    let p0 = if neg {
        pos + 1
    } else {
        pos
    };
    lemma_parse_u64_bounds(s, p0);
    match spec_parse_u64(s, p0) {
        Option::None => {},
        Option::Some((ip, p1)) => {
            lemma_parse_frac_bounds(s, p1);
        },
    }
}

/// The closing quote, where the scan finds one, stands inside the input.
pub proof fn lemma_name_end_bounds(s: Seq<u8>, pos: int)
    ensures
        (match name_end(s, pos) {
            Option::None => true,
            Option::Some(e) => pos <= e < s.len() && s[e] == 0x22,
        }),
    decreases s.len() - pos,
{
    if 0 <= pos < s.len() && s[pos] != 0x22 && is_name_byte(s[pos]) {
        lemma_name_end_bounds(s, pos + 1);
    }
}

/// A successful name parse moves forward and stays in bounds.
pub proof fn lemma_parse_name_bounds(s: Seq<u8>, pos: int)
    requires
        0 <= pos <= s.len(),
    ensures
        (match spec_parse_name(s, pos) {
            Option::None => true,
            Option::Some((nm, p)) => pos < p <= s.len(),
        }),
{
    lemma_name_end_bounds(s, pos + 1);
}

/// A successful boolean parse moves forward and stays in bounds.
pub proof fn lemma_parse_bool_bounds(s: Seq<u8>, pos: int)
    requires
        0 <= pos <= s.len(),
    ensures
        (match spec_parse_bool(s, pos) {
            Option::None => true,
            Option::Some((b, p)) => pos < p <= s.len(),
        }),
{
}


/// Concatenation of byte strings is associative.
pub proof fn lemma_concat_assoc(a: Seq<u8>, b: Seq<u8>, c: Seq<u8>)
    ensures
        (a + b) + c == a + (b + c),
{
    assert((a + b) + c =~= a + (b + c));
}


// ------------------------------------------------------------------
// Trailing whitespace of a line
// ------------------------------------------------------------------
/// Only spaces, tabs and line ends stand from `from` to the end.
pub open spec fn ws_only(s: Seq<u8>, from: int) -> bool {
    forall|i: int|
        from <= i < s.len() ==> (#[trigger] s[i] == 0x20 || s[i] == 0x09 || s[i] == 0x0a || s[i]
            == 0x0d)
}

/// Whether only whitespace stands from `pos` to the end.
pub fn ws_from(s: &Vec<u8>, pos: usize) -> (r: bool)
    requires
        pos <= s@.len(),
    ensures
        r == ws_only(s@, pos as int),
{
    let mut i: usize = pos;
    while i < s.len()
        invariant
            pos <= i <= s@.len(),
            forall|t: int|
                pos <= t < i ==> (#[trigger] s@[t] == 0x20 || s@[t] == 0x09 || s@[t] == 0x0a
                    || s@[t] == 0x0d),
        decreases s@.len() - i,
    {
        let b = s[i];
        if !(b == 0x20 || b == 0x09 || b == 0x0a || b == 0x0d) {
            return false;
        }
        i += 1;
    }
    true
}


} // verus!
