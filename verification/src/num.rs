//! Decimal rendering and parsing of object sizes, and the two variable-length
//! integer dialects of the pack format: entry headers keep four value bits in
//! the first byte (the kind takes three), delta size headers keep seven.
use vstd::prelude::*;

verus! {

/// True when `b` is an ASCII decimal digit.
pub open spec fn is_digit(b: u8) -> bool {
    48 <= b <= 57
}

/// True when every byte of `s` is an ASCII decimal digit.
pub open spec fn all_digits(s: Seq<u8>) -> bool {
    forall|i: int| 0 <= i < s.len() ==> is_digit(#[trigger] s[i])
}

/// Numeric value of a digit string, most significant digit first.
pub open spec fn dec_val(s: Seq<u8>) -> int
    decreases s.len(),
{
    if s.len() == 0 {
        0
    } else {
        dec_val(s.drop_last()) * 10 + (s.last() - 48)
    }
}

/// Canonical decimal rendering of `n`: no sign, no leading zero except for 0.
pub open spec fn spec_dec(n: nat) -> Seq<u8>
    decreases n,
{
    if n < 10 {
        seq![(48 + n) as u8]
    } else {
        spec_dec(n / 10).push((48 + n % 10) as u8)
    }
}

pub proof fn lemma_spec_dec_digits(n: nat)
    ensures
        spec_dec(n).len() >= 1,
        all_digits(spec_dec(n)),
    decreases n,
{
    if n >= 10 {
        lemma_spec_dec_digits(n / 10);
    }
}

/// Digit strings denote non-negative values.
pub proof fn lemma_dec_val_nonneg(s: Seq<u8>)
    requires
        all_digits(s),
    ensures
        dec_val(s) >= 0,
    decreases s.len(),
{
    if s.len() > 0 {
        assert(all_digits(s.drop_last()));
        lemma_dec_val_nonneg(s.drop_last());
    }
}

/// The decimal rendering reads back to the number it was made from.
pub proof fn lemma_dec_val_spec_dec(n: nat)
    ensures
        dec_val(spec_dec(n)) == n,
    decreases n,
{
    if n < 10 {
        let s = spec_dec(n);
        assert(s.len() == 1);
        assert(s.drop_last() =~= Seq::<u8>::empty());
        assert(dec_val(s.drop_last()) == 0);
        assert(s.last() == (48 + n) as u8);
        assert(dec_val(s) == (48 + n) as u8 - 48);
    } else {
        lemma_dec_val_spec_dec(n / 10);
        let s = spec_dec(n);
        assert(s.drop_last() =~= spec_dec(n / 10));
        assert(s.last() == (48 + n % 10) as u8);
        assert(dec_val(s) == dec_val(spec_dec(n / 10)) * 10 + ((48 + n % 10) as u8 - 48));
    }
}

/// Render `n` in decimal.
pub fn format_dec(n: u64) -> (r: Vec<u8>)
    ensures
        r@ == spec_dec(n as nat),
    decreases n,
{
    if n < 10 {
        let mut v: Vec<u8> = Vec::new();
        v.push(48 + (n as u8));
        assert(v@ =~= spec_dec(n as nat));
        v
    } else {
        let mut v = format_dec(n / 10);
        v.push(48 + ((n % 10) as u8));
        v
    }
}

proof fn lemma_dec_val_take_step(s: Seq<u8>, i: int)
    requires
        0 <= i < s.len(),
    ensures
        dec_val(s.take(i + 1)) == dec_val(s.take(i)) * 10 + (s[i] - 48),
{
    assert(s.take(i + 1).drop_last() =~= s.take(i));
    assert(s.take(i + 1).last() == s[i]);
}

proof fn lemma_dec_val_grows(s: Seq<u8>, i: int)
    requires
        0 <= i <= s.len(),
        all_digits(s),
    ensures
        dec_val(s.take(i)) <= dec_val(s),
    decreases s.len() - i,
{
    if i < s.len() {
        lemma_dec_val_take_step(s, i);
        assert(all_digits(s.take(i)));
        lemma_dec_val_nonneg(s.take(i));
        assert(dec_val(s.take(i)) <= dec_val(s.take(i + 1)));
        lemma_dec_val_grows(s, i + 1);
    } else {
        assert(s.take(i) =~= s);
    }
}

/// Check that every byte is a decimal digit.
pub fn all_digits_check(s: &[u8]) -> (r: bool)
    ensures
        r == all_digits(s@),
{
    let mut i: usize = 0;
    while i < s.len()
        invariant
            i <= s@.len(),
            forall|j: int| 0 <= j < i ==> is_digit(#[trigger] s@[j]),
        decreases s@.len() - i,
    {
        if s[i] < 48 || s[i] > 57 {
            return false;
        }
        i += 1;
    }
    true
}

/// Parse a decimal digit string. `None` when the string is empty, holds a
/// non-digit, or names a value above `u64::MAX`.
pub fn parse_dec(s: &[u8]) -> (r: Option<u64>)
    ensures
        match r {
            Some(v) => s@.len() >= 1 && all_digits(s@) && dec_val(s@) == v,
            None => s@.len() == 0 || !all_digits(s@) || dec_val(s@) > u64::MAX,
        },
{
    if s.len() == 0 {
        return None;
    }
    let mut acc: u64 = 0;
    let mut i: usize = 0;
    while i < s.len()
        invariant
            0 <= i <= s@.len(),
            forall|j: int| 0 <= j < i ==> is_digit(#[trigger] s@[j]),
            acc == dec_val(s@.take(i as int)),
        decreases s@.len() - i,
    {
        let b = s[i];
        if b < 48 || b > 57 {
            return None;
        }
        let d = b - 48;
        proof {
            lemma_dec_val_take_step(s@, i as int);
        }
        if acc > (u64::MAX - (d as u64)) / 10 {
            // acc * 10 + d overflows, so the full value is above u64::MAX.
            proof {
                assert(acc * 10 + d > u64::MAX) by (nonlinear_arith)
                    requires
                        acc > (u64::MAX - (d as u64)) / 10,
                        0 <= d <= 9,
                        acc >= 0,
                {}
                assert(dec_val(s@.take(i + 1)) > u64::MAX);
                assert(forall|j: int| 0 <= j < s@.len() && !is_digit(#[trigger] s@[j])
                    ==> !all_digits(s@));
                if all_digits(s@) {
                    lemma_dec_val_grows(s@, i + 1);
                }
            }
            return None;
        }
        proof {
            assert(acc * 10 + d <= u64::MAX) by (nonlinear_arith)
                requires
                    acc <= (u64::MAX - (d as u64)) / 10,
                    0 <= d <= 9,
                    acc >= 0,
            {}
        }
        acc = acc * 10 + (d as u64);
        i += 1;
    }
    assert(s@.take(i as int) =~= s@);
    Some(acc)
}

/// Value of the continuation groups of a variable-length integer, starting at
/// byte `i` with the group weight `mul`. Each byte contributes its low seven
/// bits; the high bit continues the run.
pub open spec fn varint_groups(buf: Seq<u8>, i: int, mul: nat) -> Option<(nat, int)>
    decreases buf.len() - i,
{
    if i < 0 || i >= buf.len() {
        None
    } else {
        let p = (buf[i] % 128) as nat;
        if buf[i] >= 128 {
            match varint_groups(buf, i + 1, mul * 128) {
                None => None,
                Some((v, j)) => Some(((p * mul + v) as nat, j)),
            }
        } else {
            Some(((p * mul) as nat, i + 1))
        }
    }
}

/// A whole variable-length integer at `buf[i]`. With `offset_mode` the first
/// byte holds seven value bits (delta size dialect); without it, four (pack
/// entry header dialect, whose bits 4-6 carry the entry kind).
pub open spec fn spec_decode_size(buf: Seq<u8>, i: int, offset_mode: bool) -> Option<(nat, int)> {
    if i < 0 || i >= buf.len() {
        None
    } else {
        let b = buf[i];
        let low: nat = if offset_mode {
            (b % 128) as nat
        } else {
            (b % 16) as nat
        };
        if b < 128 {
            Some((low, i + 1))
        } else {
            match varint_groups(buf, i + 1, if offset_mode { 128nat } else { 16nat }) {
                None => None,
                Some((v, j)) => Some(((low + v) as nat, j)),
            }
        }
    }
}

pub proof fn lemma_varint_groups_bounds(buf: Seq<u8>, i: int, mul: nat)
    requires
        varint_groups(buf, i, mul) is Some,
    ensures
        i < varint_groups(buf, i, mul)->Some_0.1 <= buf.len(),
    decreases buf.len() - i,
{
    if buf[i] >= 128 {
        lemma_varint_groups_bounds(buf, i + 1, mul * 128);
    }
}

proof fn lemma_mul_div_order(a: nat, b: nat, c: nat)
    by (nonlinear_arith)
    requires
        b > 0,
    ensures
        (a > c / b) <==> (a * b > c),
{
}

/// Continuation groups, executable form. `mul` is the current group weight,
/// or 0 once the weight itself has left `u64` range.
fn decode_groups(buf: &[u8], i: &mut usize, mul: u64, Ghost(mul_g): Ghost<nat>) -> (r: Option<u64>)
    requires
        mul_g >= 1,
        (mul as nat == mul_g) || (mul == 0 && mul_g > u64::MAX),
    ensures
        match r {
            Some(v) => varint_groups(buf@, *old(i) as int, mul_g)
                == Some(((v as nat), *final(i) as int)) && *old(i) < *final(i) <= buf@.len(),
            None => varint_groups(buf@, *old(i) as int, mul_g) is None
                || varint_groups(buf@, *old(i) as int, mul_g)->Some_0.0 > u64::MAX,
        },
    decreases buf@.len() - *old(i),
{
    if *i >= buf.len() {
        return None;
    }
    let b = buf[*i];
    let p = b % 128;
    let piece: u64;
    if p == 0 {
        piece = 0;
        assert(piece as nat == (p as nat) * mul_g);
    } else {
        if mul == 0 {
            proof {
                assert((p as nat) * mul_g >= mul_g) by (nonlinear_arith)
                    requires
                        p >= 1,
                        mul_g >= 1,
                {}
            }
            return None;
        }
        if (p as u64) > u64::MAX / mul {
            proof {
                lemma_mul_div_order(p as nat, mul as nat, u64::MAX as nat);
            }
            return None;
        }
        proof {
            lemma_mul_div_order(p as nat, mul as nat, u64::MAX as nat);
        }
        piece = (p as u64) * mul;
        assert(piece as nat == (p as nat) * mul_g);
    }
    if b >= 128 {
        *i += 1;
        let ghost mg2: nat = mul_g * 128;
        proof {
            assert(mg2 >= mul_g && mg2 >= 1);
        }
        let new_mul: u64;
        if mul == 0 {
            new_mul = 0;
            assert(new_mul == 0 && mg2 > u64::MAX);
        } else if mul > u64::MAX / 128 {
            proof {
                lemma_mul_div_order(mul as nat, 128, u64::MAX as nat);
            }
            new_mul = 0;
            assert(new_mul == 0 && mg2 > u64::MAX);
        } else {
            proof {
                lemma_mul_div_order(mul as nat, 128, u64::MAX as nat);
            }
            new_mul = mul * 128;
            assert(new_mul as nat == mg2);
        }
        match decode_groups(buf, i, new_mul, Ghost(mg2)) {
            None => None,
            Some(v) => {
                if v > u64::MAX - piece {
                    None
                } else {
                    Some(v + piece)
                }
            },
        }
    } else {
        *i += 1;
        Some(piece)
    }
}

/// Decode one variable-length size at `buf[*i]`, advancing `*i` past it.
/// `offset_mode` selects the seven-bit first byte of the delta dialect; the
/// entry-header dialect keeps only the low four bits of the first byte.
/// `None` when the run leaves the buffer or the value does not fit in `u64`.
pub fn decode_size(buf: &[u8], i: &mut usize, offset_mode: bool) -> (r: Option<u64>)
    ensures
        match r {
            Some(v) => spec_decode_size(buf@, *old(i) as int, offset_mode)
                == Some(((v as nat), *final(i) as int)) && *old(i) < *final(i) <= buf@.len(),
            None => spec_decode_size(buf@, *old(i) as int, offset_mode) is None
                || spec_decode_size(buf@, *old(i) as int, offset_mode)->Some_0.0 > u64::MAX,
        },
{
    if *i >= buf.len() {
        return None;
    }
    let b = buf[*i];
    let low: u64 = if offset_mode {
        (b % 128) as u64
    } else {
        (b % 16) as u64
    };
    if b < 128 {
        *i += 1;
        Some(low)
    } else {
        *i += 1;
        let r = decode_groups(buf, i, if offset_mode { 128 } else { 16 },
            Ghost(if offset_mode { 128nat } else { 16nat }));
        match r {
            None => None,
            Some(v) => {
                if v > u64::MAX - low {
                    None
                } else {
                    Some(low + v)
                }
            },
        }
    }
}

} // verus!
