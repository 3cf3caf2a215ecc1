//! The price and quantity fields: non-negative finite decimal numbers,
//! transmitted as decimal strings.
//!
//! A [`Decimal`] stores a number as an unscaled mantissa and a decimal scale,
//! so the value is `mantissa / 10^scale`. The representation is canonical:
//! a positive scale never ends in a mantissa divisible by ten, so every
//! value has exactly one representation and the string round trip is exact.

use vstd::prelude::*;
use vstd::string::StrSliceExecFns;
use vstd::string::StringExecFns;

use crate::errors::DecodeError;
use crate::text::push_char;

verus! {

/// A decimal digit, `'0'` through `'9'`.
pub open spec fn is_digit(c: char) -> bool {
    '0' <= c && c <= '9'
}

/// Numeric value of a digit character.
pub open spec fn digit_val(c: char) -> nat {
    (c as int - '0' as int) as nat
}

/// Every character of the sequence is a digit.
pub open spec fn all_digits(s: Seq<char>) -> bool {
    forall|i: int| 0 <= i < s.len() ==> is_digit(#[trigger] s[i])
}

/// The number a digit string denotes, most significant digit first.
pub open spec fn digits_value(s: Seq<char>) -> nat
    decreases s.len(),
{
    if s.len() == 0 {
        0
    } else {
        digits_value(s.drop_last()) * 10 + digit_val(s.last())
    }
}

/// Position `i` splits `s` into a digit string, one dot, and another digit
/// string.
pub open spec fn dot_split(s: Seq<char>, i: int) -> bool {
    &&& 0 <= i < s.len()
    &&& s[i] == '.'
    &&& all_digits(s.take(i))
    &&& all_digits(s.skip(i + 1))
}

/// The accepted number grammar: digits, optionally with one dot somewhere
/// among them; at least one digit overall; no sign, exponent or other
/// character. This is the plain-decimal core of the usual float grammar,
/// restricted to non-negative finite values.
pub open spec fn is_decimal_lit(s: Seq<char>) -> bool {
    if all_digits(s) {
        s.len() > 0
    } else {
        s.len() > 1 && exists|i: int| dot_split(s, i)
    }
}

/// The dot position of a literal that has one.
pub open spec fn dot_of(s: Seq<char>) -> int {
    choose|i: int| dot_split(s, i)
}

/// The digits before the dot, or the whole literal without one.
pub open spec fn int_digits(s: Seq<char>) -> Seq<char> {
    if all_digits(s) {
        s
    } else {
        s.take(dot_of(s))
    }
}

/// The digits after the dot, empty without one.
pub open spec fn frac_digits(s: Seq<char>) -> Seq<char> {
    if all_digits(s) {
        Seq::empty()
    } else {
        s.skip(dot_of(s) + 1)
    }
}

/// Drops trailing zero digits.
pub open spec fn strip_zeros(f: Seq<char>) -> Seq<char>
    decreases f.len(),
{
    if f.len() > 0 && f.last() == '0' {
        strip_zeros(f.drop_last())
    } else {
        f
    }
}

/// Canonical mantissa of a literal: the value of its digits after dropping
/// trailing fractional zeros.
pub open spec fn lit_mantissa(s: Seq<char>) -> nat {
    digits_value(int_digits(s) + strip_zeros(frac_digits(s)))
}

/// Canonical scale of a literal: fractional digits left after dropping
/// trailing zeros.
pub open spec fn lit_scale(s: Seq<char>) -> nat {
    strip_zeros(frac_digits(s)).len()
}

/// A literal the internal representation can hold exactly: well-formed, and
/// canonically within the mantissa and scale ranges.
pub open spec fn number_ok(s: Seq<char>) -> bool {
    &&& is_decimal_lit(s)
    &&& lit_mantissa(s) <= u64::MAX
    &&& lit_scale(s) <= u32::MAX
}

/// A non-negative decimal number, `mantissa / 10^scale`.
#[derive(Clone, Copy, Debug, PartialEq, Eq, Structural)]
pub struct Decimal {
    pub mantissa: u64,
    pub scale: u32,
}

impl Decimal {
    /// Canonical form: a fractional representation never ends in a zero
    /// digit, so each value is stored one way only.
    pub open spec fn wf(self) -> bool {
        self.scale > 0 ==> self.mantissa % 10 != 0
    }
}

/// The decimal a literal denotes.
pub open spec fn dec_of(s: Seq<char>) -> Decimal {
    Decimal { mantissa: lit_mantissa(s) as u64, scale: lit_scale(s) as u32 }
}

/// The digit character of a value below ten.
pub open spec fn digit_char(d: nat) -> char {
    if d == 0 {
        '0'
    } else if d == 1 {
        '1'
    } else if d == 2 {
        '2'
    } else if d == 3 {
        '3'
    } else if d == 4 {
        '4'
    } else if d == 5 {
        '5'
    } else if d == 6 {
        '6'
    } else if d == 7 {
        '7'
    } else if d == 8 {
        '8'
    } else {
        '9'
    }
}

/// The digit string of a number, most significant digit first, without
/// leading zeros (a sole `'0'` for zero).
pub open spec fn digits_of(n: nat) -> Seq<char>
    decreases n,
{
    if n < 10 {
        seq![digit_char(n)]
    } else {
        digits_of(n / 10).push(digit_char(n % 10))
    }
}

/// A run of zero digits.
pub open spec fn zero_run(n: nat) -> Seq<char> {
    Seq::new(n, |i: int| '0')
}

/// The canonical wire string of a decimal: its digits with the dot inserted
/// `scale` places from the right, zero-padded on the left to `0.xxx` form
/// when the digits are no longer than the scale.
pub open spec fn decimal_string(d: Decimal) -> Seq<char> {
    let ds = digits_of(d.mantissa as nat);
    if d.scale == 0 {
        ds
    } else if ds.len() > d.scale as nat {
        ds.take(ds.len() - d.scale as nat) + seq!['.'] + ds.skip(ds.len() - d.scale as nat)
    } else {
        seq!['0', '.'] + zero_run((d.scale as nat - ds.len()) as nat) + ds
    }
}

/// Extending a digit prefix by one position multiplies its value by ten and
/// adds the next digit.
pub proof fn lemma_take_step(t: Seq<char>, j: int)
    requires
        0 <= j < t.len(),
    ensures
        digits_value(t.take(j + 1)) == digits_value(t.take(j)) * 10 + digit_val(t[j]),
{
    assert(t.take(j + 1).drop_last() =~= t.take(j));
    assert(t.take(j + 1).last() == t[j]);
}

/// A digit prefix never denotes more than a longer prefix.
pub proof fn lemma_take_mono(t: Seq<char>, j1: int, j2: int)
    requires
        0 <= j1 <= j2 <= t.len(),
    ensures
        digits_value(t.take(j1)) <= digits_value(t.take(j2)),
    decreases j2 - j1,
{
    if j1 < j2 {
        lemma_take_mono(t, j1, j2 - 1);
        lemma_take_step(t, j2 - 1);
        assert(digits_value(t.take(j2 - 1)) * 10 >= digits_value(t.take(j2 - 1)));
    }
}

/// Stripping trailing zeros is exactly truncating at the last nonzero digit.
pub proof fn lemma_strip_take(f: Seq<char>, j: int)
    requires
        0 <= j <= f.len(),
        forall|i: int| j <= i < f.len() ==> #[trigger] f[i] == '0',
        j > 0 ==> f[j - 1] != '0',
    ensures
        strip_zeros(f) == f.take(j),
    decreases f.len(),
{
    if f.len() == j {
        if j > 0 {
            assert(f.last() == f[j - 1]);
        }
        assert(f.take(j) =~= f);
    } else {
        assert(f.last() == '0');
        assert(f.drop_last() =~= f.take(f.len() - 1));
        assert(forall|i: int| j <= i < f.drop_last().len() ==> #[trigger] f.drop_last()[i] == '0');
        lemma_strip_take(f.drop_last(), j);
        assert(f.drop_last().take(j) =~= f.take(j));
    }
}

/// A string of zero digits denotes zero, wherever it stands in front.
pub proof fn lemma_zero_prefix(z: nat, t: Seq<char>)
    ensures
        digits_value(zero_run(z) + t) == digits_value(t),
    decreases t.len(),
{
    if t.len() == 0 {
        assert(zero_run(z) + t =~= zero_run(z));
        lemma_zero_run_value(z);
    } else {
        assert((zero_run(z) + t).drop_last() =~= zero_run(z) + t.drop_last());
        assert((zero_run(z) + t).last() == t.last());
        lemma_zero_prefix(z, t.drop_last());
    }
}

/// A run of zeros denotes zero.
pub proof fn lemma_zero_run_value(z: nat)
    ensures
        digits_value(zero_run(z)) == 0,
    decreases z,
{
    if z > 0 {
        assert(zero_run(z).drop_last() =~= zero_run((z - 1) as nat));
        assert(zero_run(z).last() == '0');
        lemma_zero_run_value((z - 1) as nat);
    }
}

/// A digit character stands for its digit, and only zero for `'0'`.
pub proof fn lemma_digit_char_val(d: nat)
    requires
        d < 10,
    ensures
        is_digit(digit_char(d)),
        digit_val(digit_char(d)) == d,
        (digit_char(d) == '0') <==> (d == 0),
{
}

/// The digit string of a number consists of digits and denotes it back.
pub proof fn lemma_digits_of(n: nat)
    ensures
        digits_of(n).len() >= 1,
        all_digits(digits_of(n)),
        digits_value(digits_of(n)) == n,
        digits_of(n).last() == digit_char(n % 10),
    decreases n,
{
    if n < 10 {
        lemma_digit_char_val(n);
        assert(digits_of(n) =~= seq![digit_char(n)]);
        assert(digits_of(n).drop_last() =~= Seq::<char>::empty());
        assert(digits_value(Seq::<char>::empty()) == 0);
        assert(n % 10 == n);
    } else {
        lemma_digits_of(n / 10);
        lemma_digit_char_val(n % 10);
        let d = digits_of(n / 10).push(digit_char(n % 10));
        assert(d.drop_last() =~= digits_of(n / 10));
        assert(d.last() == digit_char(n % 10));
        assert(digits_value(d) == (n / 10) * 10 + (n % 10));
        vstd::arithmetic::div_mod::lemma_fundamental_div_mod(n as int, 10);
        assert forall|i: int| 0 <= i < d.len() implies is_digit(#[trigger] d[i]) by {
            if i < d.len() - 1 {
                assert(d[i] == digits_of(n / 10)[i]);
            }
        }
    }
}

/// Scans the literal once: the dot position when the shape is acceptable,
/// the error when any character (or a second dot) rules the literal out.
fn find_dot(s: &str) -> (r: Result<Option<usize>, DecodeError>)
    ensures
        match r {
            Ok(opt) => match opt {
                None => all_digits(s@),
                Some(k) => k < s@.len() && s@[k as int] == '.' && (forall|j: int|
                    0 <= j < s@.len() && j != k ==> is_digit(#[trigger] s@[j])),
            },
            Err(e) => e == DecodeError::InvalidNumber && !is_decimal_lit(s@),
        },
{
    let n = s.unicode_len();
    let mut dot: Option<usize> = None;
    let mut i: usize = 0;
    while i < n
        invariant
            n == s@.len(),
            i <= n,
            match dot {
                None => forall|j: int| 0 <= j < i ==> is_digit(#[trigger] s@[j]),
                Some(k) => k < i && s@[k as int] == '.' && (forall|j: int|
                    0 <= j < i && j != k ==> is_digit(#[trigger] s@[j])),
            },
        decreases n - i,
    {
        let c = s.get_char(i);
        if c == '.' {
            match dot {
                Some(k) => {
                    proof {
                        assert forall|i2: int| !dot_split(s@, i2) by {
                            if dot_split(s@, i2) {
                                if i2 < i && i2 != k {
                                    assert(is_digit(s@[i2]));
                                } else if i2 == k {
                                    assert(s@.skip(k as int + 1)[i - k - 1] == s@[i as int]);
                                } else {
                                    assert(s@.take(i2)[k as int] == s@[k as int]);
                                }
                            }
                        }
                        assert(!all_digits(s@)) by {
                            assert(s@[k as int] == '.');
                        }
                    }
                    return Err(DecodeError::InvalidNumber);
                },
                None => {
                    dot = Some(i);
                },
            }
        } else if '0' <= c && c <= '9' {
        } else {
            proof {
                assert(!is_digit(s@[i as int]));
                assert forall|i2: int| !dot_split(s@, i2) by {
                    if dot_split(s@, i2) {
                        if i2 < i {
                            assert(s@.skip(i2 + 1)[i - i2 - 1] == s@[i as int]);
                        } else if i2 > i {
                            assert(s@.take(i2)[i as int] == s@[i as int]);
                        }
                    }
                }
            }
            return Err(DecodeError::InvalidNumber);
        }
        i += 1;
    }
    Ok(dot)
}

/// Accumulates the digits of `s` between `from` and `to` onto `start`,
/// failing exactly when the full digit string `dg` denotes more than the
/// mantissa can hold. Ghost `dg` is that string; `off` says where this range
/// of `s` stands in it.
fn acc_range(s: &str, from: usize, to: usize, start: u64, dg: Ghost<Seq<char>>, off: Ghost<int>) -> (r:
    Option<u64>)
    requires
        from <= to <= s@.len(),
        forall|j: int| from <= j < to ==> is_digit(#[trigger] s@[j]),
        0 <= off@,
        off@ + (to - from) <= dg@.len(),
        forall|j: int| off@ <= j < off@ + (to - from) ==> #[trigger] dg@[j] == s@[j - off@ + from],
        start == digits_value(dg@.take(off@)),
    ensures
        match r {
            Some(m) => m == digits_value(dg@.take(off@ + (to - from))),
            None => digits_value(dg@) > u64::MAX,
        },
{
    let mut m = start;
    let mut i: usize = from;
    while i < to
        invariant
            from <= i <= to,
            to <= s@.len(),
            forall|j: int| from <= j < to ==> is_digit(#[trigger] s@[j]),
            0 <= off@,
            off@ + (to - from) <= dg@.len(),
            forall|j: int| off@ <= j < off@ + (to - from) ==> #[trigger] dg@[j] == s@[j - off@
                + from],
            m == digits_value(dg@.take(off@ + (i - from))),
        decreases to - i,
    {
        let c = s.get_char(i);
        proof {
            assert(is_digit(s@[i as int]));
        }
        let d: u64 = (c as u32 - 48) as u64;
        let ghost pos: int = off@ + (i - from);
        proof {
            assert(dg@[pos] == s@[i as int]);
            assert(digit_val(dg@[pos]) == d);
        }
        let m10 = match m.checked_mul(10) {
            Some(v) => v,
            None => {
                proof {
                    lemma_take_step(dg@, pos);
                    assert(digits_value(dg@.take(pos + 1)) > u64::MAX);
                    lemma_take_mono(dg@, pos + 1, dg@.len() as int);
                    assert(dg@.take(dg@.len() as int) =~= dg@);
                }
                return None;
            },
        };
        let m2 = match m10.checked_add(d) {
            Some(v) => v,
            None => {
                proof {
                    lemma_take_step(dg@, pos);
                    assert(digits_value(dg@.take(pos + 1)) > u64::MAX);
                    lemma_take_mono(dg@, pos + 1, dg@.len() as int);
                    assert(dg@.take(dg@.len() as int) =~= dg@);
                }
                return None;
            },
        };
        proof {
            lemma_take_step(dg@, pos);
        }
        m = m2;
        i += 1;
    }
    Some(m)
}

/// Parses a non-negative finite decimal string into its canonical
/// representation; anything else, and any value out of the representable
/// range, is an [`DecodeError::InvalidNumber`].
pub fn decode_number(s: &str) -> (r: Result<Decimal, DecodeError>)
    ensures
        number_ok(s@) ==> r == Ok::<Decimal, DecodeError>(dec_of(s@)),
        !number_ok(s@) ==> r == Err::<Decimal, DecodeError>(DecodeError::InvalidNumber),
        r matches Ok(d) ==> d.wf(),
{
    let n = s.unicode_len();
    let dot_found = match find_dot(s) {
        Err(e) => {
            return Err(e);
        },
        Ok(d) => d,
    };
    if n == 0 {
        return Err(DecodeError::InvalidNumber);
    }
    match dot_found {
        None => {
            proof {
                assert(is_decimal_lit(s@));
                assert(strip_zeros(Seq::<char>::empty()) == Seq::<char>::empty());
                assert(int_digits(s@) + strip_zeros(frac_digits(s@)) =~= s@);
                assert(s@.take(0) =~= Seq::<char>::empty());
                assert(digits_value(Seq::<char>::empty()) == 0);
            }
            match acc_range(s, 0, n, 0, Ghost(s@), Ghost(0int)) {
                None => {
                    return Err(DecodeError::InvalidNumber);
                },
                Some(m) => {
                    proof {
                        assert(s@.take(n as int) =~= s@);
                        if m % 10 == 0 {
                        }
                    }
                    return Ok(Decimal { mantissa: m, scale: 0 });
                },
            }
        },
        Some(k) => {
            if n == 1 {
                proof {
                    assert(!all_digits(s@)) by {
                        assert(s@[0] == '.');
                    }
                }
                return Err(DecodeError::InvalidNumber);
            }
            proof {
                assert(dot_split(s@, k as int)) by {
                    assert forall|j: int| 0 <= j < s@.take(k as int).len() implies is_digit(
                        #[trigger] s@.take(k as int)[j],
                    ) by {
                        assert(s@.take(k as int)[j] == s@[j]);
                    }
                    assert forall|j: int| 0 <= j < s@.skip(k as int + 1).len() implies is_digit(
                        #[trigger] s@.skip(k as int + 1)[j],
                    ) by {
                        assert(s@.skip(k as int + 1)[j] == s@[k + 1 + j]);
                    }
                }
                assert(!all_digits(s@)) by {
                    assert(s@[k as int] == '.');
                }
                assert(is_decimal_lit(s@));
                assert(dot_of(s@) == k) by {
                    let kk = dot_of(s@);
                    assert(dot_split(s@, kk));
                    if kk != k {
                        assert(is_digit(s@[kk]));
                    }
                }
            }
            // strip trailing fractional zeros
            let mut e = n;
            while e > k + 1 && s.get_char(e - 1) == '0'
                invariant
                    k < n == s@.len(),
                    k + 1 <= e <= n,
                    forall|j: int| e <= j < n ==> #[trigger] s@[j] == '0',
                decreases e,
            {
                e -= 1;
            }
            let ghost frac = s@.skip(k as int + 1);
            let ghost jrel: int = e - (k + 1);
            proof {
                assert forall|i2: int| jrel <= i2 < frac.len() implies #[trigger] frac[i2]
                    == '0' by {
                    assert(frac[i2] == s@[k + 1 + i2]);
                }
                if jrel > 0 {
                    assert(frac[jrel - 1] == s@[e - 1]);
                }
                lemma_strip_take(frac, jrel);
            }
            if e - (k + 1) > u32::MAX as usize {
                proof {
                    assert(lit_scale(s@) == jrel);
                }
                return Err(DecodeError::InvalidNumber);
            }
            let ghost dg = s@.take(k as int) + frac.take(jrel);
            proof {
                assert(int_digits(s@) + strip_zeros(frac_digits(s@)) == dg);
                assert(dg.take(0) =~= Seq::<char>::empty());
                assert(digits_value(Seq::<char>::empty()) == 0);
                assert forall|j: int| 0 <= j < k implies #[trigger] dg[j] == s@[j] by {
                    assert(dg[j] == s@.take(k as int)[j]);
                }
            }
            let m1 = match acc_range(s, 0, k, 0, Ghost(dg), Ghost(0int)) {
                None => {
                    return Err(DecodeError::InvalidNumber);
                },
                Some(v) => v,
            };
            proof {
                assert(dg.take(k as int) =~= s@.take(k as int));
                assert forall|j: int| k <= j < k + (e - (k + 1)) implies #[trigger] dg[j]
                    == s@[j + 1] by {
                    assert(dg[j] == frac.take(jrel)[j - k]);
                    assert(frac.take(jrel)[j - k] == frac[j - k]);
                    assert(frac[j - k] == s@[k + 1 + (j - k)]);
                }
            }
            let m = match acc_range(s, k + 1, e, m1, Ghost(dg), Ghost(k as int)) {
                None => {
                    return Err(DecodeError::InvalidNumber);
                },
                Some(v) => v,
            };
            let sc: u32 = (e - (k + 1)) as u32;
            proof {
                assert(dg.take(k + (e - (k + 1))) =~= dg);
                assert(m == lit_mantissa(s@));
                assert(sc == lit_scale(s@));
                if sc > 0 {
                    assert(dg.len() > 0);
                    assert(dg.last() == frac.take(jrel)[jrel - 1]);
                    assert(dg.last() == s@[e - 1]);
                    assert(is_digit(s@[e - 1]));
                    assert(s@[e - 1] != '0');
                    assert(digit_val(dg.last()) != 0);
                    assert(digit_val(dg.last()) < 10);
                    assert(digits_value(dg) == digits_value(dg.drop_last()) * 10 + digit_val(
                        dg.last(),
                    ));
                    vstd::arithmetic::div_mod::lemma_mod_multiples_vanish(
                        digits_value(dg.drop_last()) as int,
                        digit_val(dg.last()) as int,
                        10,
                    );
                    assert(m % 10 != 0);
                }
            }
            return Ok(Decimal { mantissa: m, scale: sc });
        },
    }
}

/// Renders one digit.
fn digit_char_of(d: u64) -> (c: char)
    requires
        d < 10,
    ensures
        c == digit_char(d as nat),
{
    if d == 0 {
        '0'
    } else if d == 1 {
        '1'
    } else if d == 2 {
        '2'
    } else if d == 3 {
        '3'
    } else if d == 4 {
        '4'
    } else if d == 5 {
        '5'
    } else if d == 6 {
        '6'
    } else if d == 7 {
        '7'
    } else if d == 8 {
        '8'
    } else {
        '9'
    }
}

/// Appends the digit string of `n`, most significant digit first.
fn push_digits(out: &mut String, n: u64)
    ensures
        final(out)@ == old(out)@ + digits_of(n as nat),
    decreases n,
{
    if n < 10 {
        let c = digit_char_of(n);
        push_char(out, c);
        proof {
            assert(old(out)@.push(c) =~= old(out)@ + digits_of(n as nat));
        }
    } else {
        push_digits(out, n / 10);
        let c = digit_char_of(n % 10);
        push_char(out, c);
        proof {
            assert((n / 10) as nat == (n as nat) / 10);
            assert((n % 10) as nat == (n as nat) % 10);
            assert((old(out)@ + digits_of((n as nat) / 10)).push(c) =~= old(out)@ + digits_of(
                n as nat,
            ));
        }
    }
}

/// Renders a decimal in its canonical wire form.
pub fn encode_number(d: &Decimal) -> (r: String)
    ensures
        r@ == decimal_string(*d),
{
    let mut digs = String::new();
    push_digits(&mut digs, d.mantissa);
    proof {
        assert(digs@ =~= digits_of(d.mantissa as nat));
    }
    if d.scale == 0 {
        return digs;
    }
    let dlen = digs.unicode_len();
    let scale = d.scale as usize;
    if dlen > scale {
        let cut = dlen - scale;
        let mut out = String::from_str(digs.substring_char(0, cut));
        out.append(".");
        let tail = digs.substring_char(cut, dlen);
        out.append(tail);
        proof {
            assert("."@ =~= seq!['.']) by {
                reveal_strlit(".");
            }
            assert(out@ =~= decimal_string(*d));
        }
        out
    } else {
        let mut out = String::from_str("0.");
        proof {
            assert("0."@ =~= seq!['0', '.']) by {
                reveal_strlit("0.");
            }
            assert(out@ =~= seq!['0', '.'] + zero_run(0));
        }
        let mut z = scale - dlen;
        while z > 0
            invariant
                z <= scale - dlen,
                dlen <= scale,
                out@ == seq!['0', '.'] + zero_run((scale - dlen - z) as nat),
            decreases z,
        {
            out.append("0");
            proof {
                assert("0"@ =~= seq!['0']) by {
                    reveal_strlit("0");
                }
                assert((seq!['0', '.'] + zero_run((scale - dlen - z) as nat)) + seq!['0'] =~= seq![
                    '0',
                    '.',
                ] + zero_run((scale - dlen - (z - 1)) as nat));
            }
            z -= 1;
        }
        out.append(digs.as_str());
        proof {
            assert(out@ =~= decimal_string(*d));
        }
        out
    }
}

/// Law: the canonical wire string of a well-formed decimal is an acceptable
/// literal, and parsing it returns the decimal exactly.
pub proof fn lemma_decimal_round_trip(d: Decimal)
    requires
        d.wf(),
    ensures
        number_ok(decimal_string(d)),
        dec_of(decimal_string(d)) == d,
{
    let m = d.mantissa as nat;
    let c = d.scale as nat;
    let ds = digits_of(m);
    let el: int = ds.len() as int;
    lemma_digits_of(m);
    let s = decimal_string(d);
    if c == 0 {
        assert(s == ds);
        assert(int_digits(s) == s);
        assert(strip_zeros(Seq::<char>::empty()) == Seq::<char>::empty());
        assert(s + strip_zeros(Seq::<char>::empty()) =~= s);
        assert(lit_mantissa(s) == m);
        assert(lit_scale(s) == 0);
    } else {
        lemma_digit_char_val(m % 10);
        assert(ds.last() != '0');
        if el > c {
            let cut: int = el - c as int;
            assert(s == ds.take(cut) + seq!['.'] + ds.skip(cut));
            assert(s.len() == el + 1);
            assert(s[cut] == '.') by {
                assert((ds.take(cut) + seq!['.'])[cut] == seq!['.'][0]);
                assert(s[cut] == (ds.take(cut) + seq!['.'])[cut]);
            }
            assert forall|j: int| 0 <= j < s.len() && j != cut implies is_digit(
                #[trigger] s[j],
            ) by {
                if j < cut {
                    assert(s[j] == ds.take(cut)[j]);
                    assert(ds.take(cut)[j] == ds[j]);
                } else {
                    assert(s[j] == ds.skip(cut)[j - cut - 1]);
                    assert(ds.skip(cut)[j - cut - 1] == ds[j - 1]);
                }
            }
            assert(!all_digits(s)) by {
                assert(s[cut] == '.');
            }
            assert(s.take(cut) =~= ds.take(cut));
            assert(s.skip(cut + 1) =~= ds.skip(cut));
            assert(dot_split(s, cut)) by {
                assert forall|j: int| 0 <= j < ds.take(cut).len() implies is_digit(
                    #[trigger] ds.take(cut)[j],
                ) by {
                    assert(ds.take(cut)[j] == ds[j]);
                }
                assert forall|j: int| 0 <= j < ds.skip(cut).len() implies is_digit(
                    #[trigger] ds.skip(cut)[j],
                ) by {
                    assert(ds.skip(cut)[j] == ds[j + cut]);
                }
            }
            assert(is_decimal_lit(s));
            assert(dot_of(s) == cut) by {
                let kk = dot_of(s);
                assert(dot_split(s, kk));
                if kk != cut {
                    assert(is_digit(s[kk]));
                }
            }
            assert(frac_digits(s) == s.skip(cut + 1));
            assert(s.skip(cut + 1).len() == c);
            assert(s.skip(cut + 1).last() == ds.last());
            assert(strip_zeros(frac_digits(s)) == frac_digits(s));
            assert(lit_scale(s) == c);
            assert(int_digits(s) + strip_zeros(frac_digits(s)) =~= ds);
            assert(lit_mantissa(s) == m);
        } else {
            let z: nat = (c - el) as nat;
            assert(s == seq!['0', '.'] + zero_run(z) + ds);
            assert(s.len() == c + 2);
            assert(s[1] == '.') by {
                assert((seq!['0', '.'] + zero_run(z))[1] == seq!['0', '.'][1]);
                assert(s[1] == (seq!['0', '.'] + zero_run(z))[1]);
            }
            assert(s[0] == '0') by {
                assert((seq!['0', '.'] + zero_run(z))[0] == seq!['0', '.'][0]);
                assert(s[0] == (seq!['0', '.'] + zero_run(z))[0]);
            }
            assert forall|j: int| 0 <= j < s.len() && j != 1 implies is_digit(
                #[trigger] s[j],
            ) by {
                if j == 0 {
                } else if j < 2 + z {
                    assert(s[j] == (seq!['0', '.'] + zero_run(z))[j]);
                    assert((seq!['0', '.'] + zero_run(z))[j] == zero_run(z)[j - 2]);
                } else {
                    assert(s[j] == ds[j - 2 - z]);
                }
            }
            assert(!all_digits(s)) by {
                assert(s[1] == '.');
            }
            assert(s.take(1) =~= seq!['0']);
            assert(s.skip(2) =~= zero_run(z) + ds);
            assert(dot_split(s, 1)) by {
                assert forall|j: int| 0 <= j < s.take(1).len() implies is_digit(
                    #[trigger] s.take(1)[j],
                ) by {
                    assert(s.take(1)[j] == s[j]);
                }
                assert forall|j: int| 0 <= j < s.skip(2).len() implies is_digit(
                    #[trigger] s.skip(2)[j],
                ) by {
                    assert(s.skip(2)[j] == s[j + 2]);
                }
            }
            assert(is_decimal_lit(s));
            assert(dot_of(s) == 1) by {
                let kk = dot_of(s);
                assert(dot_split(s, kk));
                if kk != 1 {
                    assert(is_digit(s[kk]));
                }
            }
            assert(frac_digits(s) == s.skip(2));
            assert(s.skip(2).len() == c);
            assert(s.skip(2).last() == ds.last()) by {
                assert((zero_run(z) + ds).last() == ds.last());
            }
            assert(strip_zeros(frac_digits(s)) == frac_digits(s));
            assert(lit_scale(s) == c);
            assert(int_digits(s) + strip_zeros(frac_digits(s)) =~= seq!['0'] + (zero_run(z) + ds));
            assert(seq!['0'] + (zero_run(z) + ds) =~= zero_run(z + 1) + ds);
            lemma_zero_prefix(z + 1, ds);
            assert(lit_mantissa(s) == m);
        }
    }
}

} // verus!
