//! The wire codec: the JSON texts this client exchanges with the control API
//! and stores in its options file.
//!
//! Both texts are fixed-shape JSON objects. The encoder produces one canonical
//! byte sequence per value (`cfg_json`, `options_json`); the parser accepts
//! exactly the canonical sequences and rejects everything else, so parsing
//! inverts encoding. Temperatures travel as decimal numbers with one
//! fractional digit (`210` tenths of a degree encodes as `21.0`).

use vstd::prelude::*;
use crate::config::{Options, ThermostatConfig};

verus! {

/// ASCII decimal digit.
pub open spec fn is_digit(b: u8) -> bool {
    48 <= b <= 57
}

/// The decimal digits of `n`, most significant first, no leading zeros
/// (`0` encodes as the single digit `0`).
pub open spec fn dec_digits(n: nat) -> Seq<u8>
    decreases n,
{
    if n < 10 {
        seq![(48 + n) as u8]
    } else {
        dec_digits(n / 10).push((48 + n % 10) as u8)
    }
}

/// The number a digit sequence denotes.
pub open spec fn digits_val(d: Seq<u8>) -> int
    decreases d.len(),
{
    if d.len() == 0 {
        0
    } else {
        digits_val(d.drop_last()) * 10 + (d.last() - 48)
    }
}

/// The decimal text of an integer: a minus sign for negative values, then the
/// digits of the magnitude.
pub open spec fn int_text(i: int) -> Seq<u8> {
    if i < 0 {
        seq![45u8] + dec_digits((-i) as nat)
    } else {
        dec_digits(i as nat)
    }
}

/// The decimal text of a count of tenths: sign, integer part, a dot, and one
/// fractional digit, so `210` tenths reads `21.0` and `-5` tenths reads `-0.5`.
pub open spec fn decis_text(t: int) -> Seq<u8> {
    let m = if t < 0 { -t } else { t };
    let sign: Seq<u8> = if t < 0 { seq![45u8] } else { Seq::empty() };
    sign + dec_digits((m / 10) as nat) + seq![46u8, (48 + m % 10) as u8]
}

/// `true` or `false`.
pub open spec fn bool_text(b: bool) -> Seq<u8> {
    if b { text_true() } else { text_false() }
}

/// An optional integer: its decimal text, or `null`.
pub open spec fn opt_int_text(o: Option<i32>) -> Seq<u8> {
    match o {
        Some(v) => int_text(v as int),
        None => text_null(),
    }
}

/// The canonical JSON text of a configuration, the body of a patch request:
/// `{"master_switch":B,"force":B,"target_temp":D,"co2_target":N}`.
pub open spec fn cfg_json(c: ThermostatConfig) -> Seq<u8> {
    key_master() + bool_text(c.master_switch) + key_force() + bool_text(c.force) + key_temp()
        + decis_text(c.target_temp as int) + key_co2() + opt_int_text(c.co2_target) + obj_close()
}

/// The canonical JSON text of the persisted options:
/// `{"window_pos":{"x":I,"y":I},"app_options":{"on_top":B}}`.
pub open spec fn options_json(o: Options) -> Seq<u8> {
    key_window() + int_text(o.window_pos.x as int) + key_y() + int_text(o.window_pos.y as int)
        + key_app() + bool_text(o.app_options.on_top) + opts_close()
}

/// The bytes of `{"master_switch":`.
pub open spec fn key_master() -> Seq<u8> {
    seq![123u8, 34u8, 109u8, 97u8, 115u8, 116u8, 101u8, 114u8, 95u8, 115u8, 119u8, 105u8, 116u8, 99u8, 104u8, 34u8, 58u8]
}

fn key_master_bytes() -> (r: [u8; 17])
    ensures
        r@ == key_master(),
{
    let r: [u8; 17] = [123u8, 34u8, 109u8, 97u8, 115u8, 116u8, 101u8, 114u8, 95u8, 115u8, 119u8, 105u8, 116u8, 99u8, 104u8, 34u8, 58u8];
    proof {
        assert(r@ =~= key_master());
    }
    r
}

/// The bytes of `,"force":`.
pub open spec fn key_force() -> Seq<u8> {
    seq![44u8, 34u8, 102u8, 111u8, 114u8, 99u8, 101u8, 34u8, 58u8]
}

fn key_force_bytes() -> (r: [u8; 9])
    ensures
        r@ == key_force(),
{
    let r: [u8; 9] = [44u8, 34u8, 102u8, 111u8, 114u8, 99u8, 101u8, 34u8, 58u8];
    proof {
        assert(r@ =~= key_force());
    }
    r
}

/// The bytes of `,"target_temp":`.
pub open spec fn key_temp() -> Seq<u8> {
    seq![44u8, 34u8, 116u8, 97u8, 114u8, 103u8, 101u8, 116u8, 95u8, 116u8, 101u8, 109u8, 112u8, 34u8, 58u8]
}

fn key_temp_bytes() -> (r: [u8; 15])
    ensures
        r@ == key_temp(),
{
    let r: [u8; 15] = [44u8, 34u8, 116u8, 97u8, 114u8, 103u8, 101u8, 116u8, 95u8, 116u8, 101u8, 109u8, 112u8, 34u8, 58u8];
    proof {
        assert(r@ =~= key_temp());
    }
    r
}

/// The bytes of `,"co2_target":`.
pub open spec fn key_co2() -> Seq<u8> {
    seq![44u8, 34u8, 99u8, 111u8, 50u8, 95u8, 116u8, 97u8, 114u8, 103u8, 101u8, 116u8, 34u8, 58u8]
}

fn key_co2_bytes() -> (r: [u8; 14])
    ensures
        r@ == key_co2(),
{
    let r: [u8; 14] = [44u8, 34u8, 99u8, 111u8, 50u8, 95u8, 116u8, 97u8, 114u8, 103u8, 101u8, 116u8, 34u8, 58u8];
    proof {
        assert(r@ =~= key_co2());
    }
    r
}

/// The bytes of `true`.
pub open spec fn text_true() -> Seq<u8> {
    seq![116u8, 114u8, 117u8, 101u8]
}

fn text_true_bytes() -> (r: [u8; 4])
    ensures
        r@ == text_true(),
{
    let r: [u8; 4] = [116u8, 114u8, 117u8, 101u8];
    proof {
        assert(r@ =~= text_true());
    }
    r
}

/// The bytes of `false`.
pub open spec fn text_false() -> Seq<u8> {
    seq![102u8, 97u8, 108u8, 115u8, 101u8]
}

fn text_false_bytes() -> (r: [u8; 5])
    ensures
        r@ == text_false(),
{
    let r: [u8; 5] = [102u8, 97u8, 108u8, 115u8, 101u8];
    proof {
        assert(r@ =~= text_false());
    }
    r
}

/// The bytes of `null`.
pub open spec fn text_null() -> Seq<u8> {
    seq![110u8, 117u8, 108u8, 108u8]
}

fn text_null_bytes() -> (r: [u8; 4])
    ensures
        r@ == text_null(),
{
    let r: [u8; 4] = [110u8, 117u8, 108u8, 108u8];
    proof {
        assert(r@ =~= text_null());
    }
    r
}

/// The bytes of `}`.
pub open spec fn obj_close() -> Seq<u8> {
    seq![125u8]
}

fn obj_close_bytes() -> (r: [u8; 1])
    ensures
        r@ == obj_close(),
{
    let r: [u8; 1] = [125u8];
    proof {
        assert(r@ =~= obj_close());
    }
    r
}

/// The bytes of `{"window_pos":{"x":`.
pub open spec fn key_window() -> Seq<u8> {
    seq![123u8, 34u8, 119u8, 105u8, 110u8, 100u8, 111u8, 119u8, 95u8, 112u8, 111u8, 115u8, 34u8, 58u8, 123u8, 34u8, 120u8, 34u8, 58u8]
}

fn key_window_bytes() -> (r: [u8; 19])
    ensures
        r@ == key_window(),
{
    let r: [u8; 19] = [123u8, 34u8, 119u8, 105u8, 110u8, 100u8, 111u8, 119u8, 95u8, 112u8, 111u8, 115u8, 34u8, 58u8, 123u8, 34u8, 120u8, 34u8, 58u8];
    proof {
        assert(r@ =~= key_window());
    }
    r
}

/// The bytes of `,"y":`.
pub open spec fn key_y() -> Seq<u8> {
    seq![44u8, 34u8, 121u8, 34u8, 58u8]
}

fn key_y_bytes() -> (r: [u8; 5])
    ensures
        r@ == key_y(),
{
    let r: [u8; 5] = [44u8, 34u8, 121u8, 34u8, 58u8];
    proof {
        assert(r@ =~= key_y());
    }
    r
}

/// The bytes of `},"app_options":{"on_top":`.
pub open spec fn key_app() -> Seq<u8> {
    seq![125u8, 44u8, 34u8, 97u8, 112u8, 112u8, 95u8, 111u8, 112u8, 116u8, 105u8, 111u8, 110u8, 115u8, 34u8, 58u8, 123u8, 34u8, 111u8, 110u8, 95u8, 116u8, 111u8, 112u8, 34u8, 58u8]
}

fn key_app_bytes() -> (r: [u8; 26])
    ensures
        r@ == key_app(),
{
    let r: [u8; 26] = [125u8, 44u8, 34u8, 97u8, 112u8, 112u8, 95u8, 111u8, 112u8, 116u8, 105u8, 111u8, 110u8, 115u8, 34u8, 58u8, 123u8, 34u8, 111u8, 110u8, 95u8, 116u8, 111u8, 112u8, 34u8, 58u8];
    proof {
        assert(r@ =~= key_app());
    }
    r
}

/// The bytes of `}}`.
pub open spec fn opts_close() -> Seq<u8> {
    seq![125u8, 125u8]
}

fn opts_close_bytes() -> (r: [u8; 2])
    ensures
        r@ == opts_close(),
{
    let r: [u8; 2] = [125u8, 125u8];
    proof {
        assert(r@ =~= opts_close());
    }
    r
}

fn push_lit(v: &mut Vec<u8>, s: &[u8])
    ensures
        final(v)@ == old(v)@ + s@,
{
    let mut i: usize = 0;
    while i < s.len()
        invariant
            i <= s.len(),
            v@ == old(v)@ + s@.subrange(0, i as int),
        decreases s.len() - i,
    {
        v.push(s[i]);
        proof {
            assert(v@ =~= old(v)@ + s@.subrange(0, i + 1));
        }
        i = i + 1;
    }
    proof {
        assert(s@.subrange(0, s@.len() as int) == s@);
    }
}

/// Append the decimal digits of `n`.
fn push_u32_digits(v: &mut Vec<u8>, n: u32)
    ensures
        final(v)@ == old(v)@ + dec_digits(n as nat),
    decreases n,
{
    if n >= 10 {
        push_u32_digits(v, n / 10);
    }
    v.push(48 + (n % 10) as u8);
    proof {
        assert(v@ =~= old(v)@ + dec_digits(n as nat));
    }
}

/// The magnitude of `i` as a `u32` (the full `i32` range fits).
fn i32_magnitude(i: i32) -> (r: u32)
    ensures
        r as int == (if i < 0 { -(i as int) } else { i as int }),
{
    if i < 0 {
        (-(i as i64)) as u32
    } else {
        i as u32
    }
}

/// Append the decimal text of `i`.
fn push_i32_int(v: &mut Vec<u8>, i: i32)
    ensures
        final(v)@ == old(v)@ + int_text(i as int),
{
    if i < 0 {
        v.push(45);
    }
    let m = i32_magnitude(i);
    push_u32_digits(v, m);
    proof {
        if i < 0 {
            assert(v@ =~= old(v)@ + int_text(i as int));
        }
    }
}

/// Append the decimal text of `t` tenths.
fn push_decis(v: &mut Vec<u8>, t: i32)
    ensures
        final(v)@ == old(v)@ + decis_text(t as int),
{
    if t < 0 {
        v.push(45);
    }
    let m = i32_magnitude(t);
    push_u32_digits(v, m / 10);
    v.push(46);
    v.push(48 + (m % 10) as u8);
    proof {
        assert(v@ =~= old(v)@ + decis_text(t as int));
    }
}

/// Append `true` or `false`.
fn push_bool(v: &mut Vec<u8>, b: bool)
    ensures
        final(v)@ == old(v)@ + bool_text(b),
{
    if b {
        let lit = text_true_bytes();
        push_lit(v, lit.as_slice());
    } else {
        let lit = text_false_bytes();
        push_lit(v, lit.as_slice());
    }
}

/// Encode a configuration as its canonical JSON text.
pub fn encode_config(c: &ThermostatConfig) -> (r: Vec<u8>)
    ensures
        r@ == cfg_json(*c),
{
    let mut v: Vec<u8> = Vec::new();
    let k1 = key_master_bytes();
    push_lit(&mut v, k1.as_slice());
    push_bool(&mut v, c.master_switch);
    let k2 = key_force_bytes();
    push_lit(&mut v, k2.as_slice());
    push_bool(&mut v, c.force);
    let k3 = key_temp_bytes();
    push_lit(&mut v, k3.as_slice());
    push_decis(&mut v, c.target_temp);
    let k4 = key_co2_bytes();
    push_lit(&mut v, k4.as_slice());
    match c.co2_target {
        Some(co2) => push_i32_int(&mut v, co2),
        None => {
            let lit = text_null_bytes();
            push_lit(&mut v, lit.as_slice());
        },
    }
    v.push(125);
    proof {
        assert(v@ =~= cfg_json(*c));
    }
    v
}

/// Encode the persisted options as their canonical JSON text.
pub fn encode_options(o: &Options) -> (r: Vec<u8>)
    ensures
        r@ == options_json(*o),
{
    let mut v: Vec<u8> = Vec::new();
    let k1 = key_window_bytes();
    push_lit(&mut v, k1.as_slice());
    push_i32_int(&mut v, o.window_pos.x);
    let k2 = key_y_bytes();
    push_lit(&mut v, k2.as_slice());
    push_i32_int(&mut v, o.window_pos.y);
    let k3 = key_app_bytes();
    push_lit(&mut v, k3.as_slice());
    push_bool(&mut v, o.app_options.on_top);
    let k4 = opts_close_bytes();
    push_lit(&mut v, k4.as_slice());
    proof {
        assert(v@ =~= options_json(*o));
    }
    v
}


/// A decimal representation is never empty and holds digits only.
proof fn lemma_dec_digits_are_digits(n: nat)
    ensures
        dec_digits(n).len() >= 1,
        forall|k: int| 0 <= k < dec_digits(n).len() ==> is_digit(#[trigger] dec_digits(n)[k]),
    decreases n,
{
    if n >= 10 {
        lemma_dec_digits_are_digits(n / 10);
    }
}

/// A decimal representation denotes its number.
proof fn lemma_digits_val_of_dec(n: nat)
    ensures
        digits_val(dec_digits(n)) == n,
    decreases n,
{
    if n < 10 {
        assert(dec_digits(n).drop_last() =~= Seq::<u8>::empty());
        assert(digits_val(Seq::<u8>::empty()) == 0);
        assert(((48 + n) as u8) as int == 48 + n);
    } else {
        lemma_digits_val_of_dec(n / 10);
        assert(dec_digits(n).drop_last() =~= dec_digits(n / 10));
        assert(dec_digits(n).last() == (48 + n % 10) as u8);
        assert(((48 + n % 10) as u8) as int == 48 + n % 10);
        vstd::arithmetic::div_mod::lemma_fundamental_div_mod(n as int, 10);
    }
}

/// A digit sequence denotes a number, never something negative.
proof fn lemma_digits_val_nonneg(d: Seq<u8>)
    requires
        forall|k: int| 0 <= k < d.len() ==> is_digit(#[trigger] d[k]),
    ensures
        digits_val(d) >= 0,
    decreases d.len(),
{
    if d.len() > 0 {
        lemma_digits_val_nonneg(d.drop_last());
    }
}

/// Reading one more digit multiplies the value so far by ten and adds it.
proof fn lemma_val_take_succ(d: Seq<u8>, k: int)
    requires
        0 <= k < d.len(),
    ensures
        digits_val(d.take(k + 1)) == digits_val(d.take(k)) * 10 + (d[k] - 48),
{
    assert(d.take(k + 1).drop_last() =~= d.take(k));
    assert(d.take(k + 1).last() == d[k]);
}

/// No prefix of a decimal representation denotes more than the number itself.
proof fn lemma_dec_prefix_bounded(n: nat, k: int)
    requires
        0 <= k <= dec_digits(n).len(),
    ensures
        0 <= digits_val(dec_digits(n).take(k)) <= n,
    decreases dec_digits(n).len() - k,
{
    let d = dec_digits(n);
    lemma_dec_digits_are_digits(n);
    if k == d.len() {
        assert(d.take(k) =~= d);
        lemma_digits_val_of_dec(n);
    } else {
        lemma_dec_prefix_bounded(n, k + 1);
        lemma_val_take_succ(d, k);
        assert(forall|j: int| 0 <= j < d.take(k).len() ==> is_digit(#[trigger] d.take(k)[j]));
        lemma_digits_val_nonneg(d.take(k));
    }
}

/// `lit` stands at `pos` in `s`.
pub open spec fn lit_at(s: Seq<u8>, pos: int, lit: Seq<u8>) -> bool {
    &&& 0 <= pos
    &&& pos + lit.len() <= s.len()
    &&& s.subrange(pos, pos + lit.len()) == lit
}

/// Match `lit` at `pos`: the position after it on a match, `None` otherwise.
fn expect_lit(s: &[u8], pos: usize, lit: &[u8]) -> (r: Option<usize>)
    requires
        pos <= s@.len(),
    ensures
        (r is Some) == lit_at(s@, pos as int, lit@),
        r matches Some(p) ==> p == pos + lit@.len(),
{
    if s.len() - pos < lit.len() {
        return None;
    }
    let mut j: usize = 0;
    while j < lit.len()
        invariant
            pos + lit@.len() <= s@.len(),
            j <= lit@.len(),
            s@.subrange(pos as int, pos + j) == lit@.subrange(0, j as int),
        decreases lit@.len() - j,
    {
        proof {
            assert(s@.len() == vstd::slice::spec_slice_len(s));
            assert(pos + j < s@.len());
        }
        if s[pos + j] != lit[j] {
            proof {
                if lit_at(s@, pos as int, lit@) {
                    assert(s@.subrange(pos as int, pos + lit@.len())[j as int] == lit@[j as int]);
                }
            }
            return None;
        }
        proof {
            assert(s@.subrange(pos as int, pos + (j + 1)) =~= lit@.subrange(0, (j + 1) as int));
        }
        j = j + 1;
    }
    proof {
        assert(lit@.subrange(0, lit@.len() as int) =~= lit@);
        assert(s@.subrange(pos as int, pos + lit@.len()) == lit@);
    }
    Some(pos + lit.len())
}

/// The decimal digits of `n` stand at `pos` and nothing extends them: the
/// following byte, if any, is not a digit.
pub open spec fn digits_at(s: Seq<u8>, pos: int, n: u32) -> bool {
    &&& lit_at(s, pos, dec_digits(n as nat))
    &&& (pos + dec_digits(n as nat).len() == s.len() || !is_digit(s[pos + dec_digits(
        n as nat,
    ).len()]))
}

/// Read a maximal run of decimal digits at `pos`. Wherever some `n`'s
/// canonical digits stand at `pos`, this returns exactly that `n` and the
/// position after its digits.
fn parse_u32(s: &[u8], pos: usize) -> (r: Option<(usize, u32)>)
    requires
        pos <= s@.len(),
    ensures
        forall|n: u32| digits_at(s@, pos as int, n) ==> (r matches Some(p) && p.0 == pos
            + dec_digits(n as nat).len() && p.1 == n),
        r matches Some(p) ==> pos < p.0 <= s@.len(),
{
    let len = s.len();
    if pos == len || s[pos] < 48 || s[pos] > 57 {
        proof {
            assert forall|n: u32| !digits_at(s@, pos as int, n) by {
                if digits_at(s@, pos as int, n) {
                    lemma_dec_digits_are_digits(n as nat);
                    assert(s@.subrange(pos as int, pos + dec_digits(n as nat).len())[0] == dec_digits(n as nat)[0]);
                }
            }
        }
        return None;
    }
    let mut i: usize = pos;
    let mut acc: u32 = 0;
    while i < len && 48 <= s[i] && s[i] <= 57
        invariant
            pos <= i <= len,
            len == s@.len(),
            pos < len,
            is_digit(s@[pos as int]),
            forall|n: u32| #[trigger] digits_at(s@, pos as int, n) ==> i - pos <= dec_digits(
                n as nat,
            ).len() && acc == digits_val(dec_digits(n as nat).take(i - pos)),
        decreases len - i,
    {
        let b = s[i];
        let d = (b - 48) as u32;
        proof {
            assert forall|n: u32| #[trigger] digits_at(s@, pos as int, n) implies i - pos
                < dec_digits(n as nat).len() && acc * 10 + d == digits_val(
                dec_digits(n as nat).take(i - pos + 1),
            ) && acc * 10 + d <= u32::MAX by {
                let dd = dec_digits(n as nat);
                lemma_dec_digits_are_digits(n as nat);
                if i - pos == dd.len() {
                    assert(!is_digit(s@[i as int]));
                }
                assert(s@.subrange(pos as int, pos + dd.len())[i - pos] == dd[i - pos]);
                lemma_val_take_succ(dd, i - pos);
                lemma_dec_prefix_bounded(n as nat, i - pos + 1);
            }
        }
        if acc > (u32::MAX - d) / 10 {
            proof {
                assert forall|n: u32| !digits_at(s@, pos as int, n) by {
                    if digits_at(s@, pos as int, n) {
                        vstd::arithmetic::div_mod::lemma_fundamental_div_mod(
                            (u32::MAX - d) as int,
                            10,
                        );
                    }
                }
            }
            return None;
        }
        acc = acc * 10 + d;
        i = i + 1;
    }
    proof {
        assert forall|n: u32| #[trigger] digits_at(s@, pos as int, n) implies i - pos
            == dec_digits(n as nat).len() && acc == n by {
            let dd = dec_digits(n as nat);
            lemma_dec_digits_are_digits(n as nat);
            if i - pos < dd.len() {
                assert(s@.subrange(pos as int, pos + dd.len())[i - pos] == dd[i - pos]);
                assert(is_digit(s@[i as int]));
            }
            assert(dd.take(dd.len() as int) =~= dd);
            lemma_digits_val_of_dec(n as nat);
        }
        assert(i > pos) by {
            if i == pos {
                assert(is_digit(s@[pos as int]));
            }
        }
    }
    Some((i, acc))
}


/// Read `true` or `false` at `pos`.
fn parse_bool(s: &[u8], pos: usize) -> (r: Option<(usize, bool)>)
    requires
        pos <= s@.len(),
    ensures
        forall|b: bool| lit_at(s@, pos as int, bool_text(b)) ==> (r matches Some(p) && p.0 == pos
            + bool_text(b).len() && p.1 == b),
        r matches Some(p) ==> pos < p.0 <= s@.len(),
{
    let t = text_true_bytes();
    let rt = expect_lit(s, pos, t.as_slice());
    match rt {
        Some(p) => {
            proof {
                if lit_at(s@, pos as int, bool_text(false)) {
                    assert(s@.subrange(pos as int, pos + text_false().len())[0] == text_false()[0]);
                    assert(s@.subrange(pos as int, pos + text_true().len())[0] == text_true()[0]);
                }
            }
            Some((p, true))
        },
        None => {
            let f = text_false_bytes();
            match expect_lit(s, pos, f.as_slice()) {
                Some(p) => Some((p, false)),
                None => None,
            }
        },
    }
}

/// The decimal text of `v` stands at `pos` and no digit follows it.
pub open spec fn int_at(s: Seq<u8>, pos: int, v: i32) -> bool {
    &&& lit_at(s, pos, int_text(v as int))
    &&& (pos + int_text(v as int).len() == s.len() || !is_digit(s[pos + int_text(v as int).len()]))
}

/// Read a signed decimal integer at `pos`. Wherever some `v`'s canonical text
/// stands at `pos`, this returns exactly that `v` and the position after it.
fn parse_i32(s: &[u8], pos: usize) -> (r: Option<(usize, i32)>)
    requires
        pos <= s@.len(),
    ensures
        forall|v: i32| int_at(s@, pos as int, v) ==> (r matches Some(p) && p.0 == pos
            + int_text(v as int).len() && p.1 == v),
        r matches Some(p) ==> pos < p.0 <= s@.len(),
{
    let len = s.len();
    let neg = pos < len && s[pos] == 45;
    let p0 = if neg { pos + 1 } else { pos };
    proof {
        assert forall|v: i32| int_at(s@, pos as int, v) implies (if v < 0 {
            neg && digits_at(s@, pos + 1, (-(v as int)) as u32)
        } else {
            !neg && digits_at(s@, pos as int, v as u32)
        }) by {
            let it = int_text(v as int);
            if v < 0 {
                let m = (-(v as int)) as u32;
                let dd = dec_digits(m as nat);
                assert(it == seq![45u8] + dd);
                assert(s@.subrange(pos as int, pos + it.len())[0] == it[0]);
                assert(s@[pos as int] == 45);
                assert(s@.subrange(pos + 1, pos + 1 + dd.len()) =~= dd) by {
                    assert forall|k: int| 0 <= k < dd.len() implies s@.subrange(
                        pos + 1,
                        pos + 1 + dd.len(),
                    )[k] == dd[k] by {
                        assert(s@.subrange(pos as int, pos + it.len())[k + 1] == it[k + 1]);
                    }
                }
            } else {
                let dd = dec_digits(v as nat);
                assert(it == dd);
                lemma_dec_digits_are_digits(v as nat);
                assert(s@.subrange(pos as int, pos + it.len())[0] == it[0]);
                assert(is_digit(s@[pos as int]));
            }
        }
    }
    let parsed = parse_u32(s, p0);
    match parsed {
        Some((p1, mag)) => {
            if neg {
                if mag > 2147483648u32 {
                    proof {
                        assert forall|v: i32| !int_at(s@, pos as int, v) by {
                            if int_at(s@, pos as int, v) {
                                if v < 0 {
                                    assert(digits_at(s@, pos + 1, (-(v as int)) as u32));
                                }
                            }
                        }
                    }
                    return None;
                }
                let val = (-(mag as i64)) as i32;
                proof {
                    assert forall|v: i32| int_at(s@, pos as int, v) implies p1 == pos + int_text(
                        v as int,
                    ).len() && val == v by {
                        assert(v < 0);
                        assert(digits_at(s@, pos + 1, (-(v as int)) as u32));
                        assert(mag == (-(v as int)) as u32);
                        assert(val as int == v as int);
                        assert(int_text(v as int).len() == 1 + dec_digits(mag as nat).len());
                    }
                }
                Some((p1, val))
            } else {
                if mag > 2147483647u32 {
                    proof {
                        assert forall|v: i32| !int_at(s@, pos as int, v) by {
                            if int_at(s@, pos as int, v) {
                                assert(v >= 0);
                                assert(digits_at(s@, pos as int, v as u32));
                            }
                        }
                    }
                    return None;
                }
                Some((p1, mag as i32))
            }
        },
        None => {
            proof {
                assert forall|v: i32| !int_at(s@, pos as int, v) by {
                    if int_at(s@, pos as int, v) {
                        if v < 0 {
                            assert(digits_at(s@, pos + 1, (-(v as int)) as u32));
                        } else {
                            assert(digits_at(s@, pos as int, v as u32));
                        }
                    }
                }
            }
            None
        },
    }
}

/// The tenths text of `t` stands at `pos`.
pub open spec fn decis_at(s: Seq<u8>, pos: int, t: i32) -> bool {
    lit_at(s, pos, decis_text(t as int))
}

/// Read a decimal number with exactly one fractional digit at `pos`, as a
/// count of tenths. Wherever some `t`'s canonical tenths text stands at `pos`,
/// this returns exactly that `t` and the position after it.
fn parse_decis(s: &[u8], pos: usize) -> (r: Option<(usize, i32)>)
    requires
        pos <= s@.len(),
    ensures
        forall|t: i32| decis_at(s@, pos as int, t) ==> (r matches Some(p) && p.0 == pos
            + decis_text(t as int).len() && p.1 == t),
        r matches Some(p) ==> pos < p.0 <= s@.len(),
{
    let len = s.len();
    let neg = pos < len && s[pos] == 45;
    let p0 = if neg { pos + 1 } else { pos };
    proof {
        assert forall|t: i32| decis_at(s@, pos as int, t) implies ({
            let m = if t < 0 { -(t as int) } else { t as int };
            let ip = (m / 10) as u32;
            let dd = dec_digits(ip as nat);
            let sign: int = if t < 0 { 1 } else { 0 };
            &&& (t < 0) == neg
            &&& digits_at(s@, pos + sign, ip)
            &&& pos + sign + dd.len() + 2 <= s@.len()
            &&& s@[pos + sign + dd.len()] == 46
            &&& s@[pos + sign + dd.len() + 1] == (48 + m % 10) as u8
        }) by {
            let dt = decis_text(t as int);
            let m = if t < 0 { -(t as int) } else { t as int };
            let ip = (m / 10) as u32;
            let dd = dec_digits(ip as nat);
            let sign: int = if t < 0 { 1 } else { 0 };
            assert forall|k: int| 0 <= k < dt.len() implies s@[pos + k] == dt[k] by {
                assert(s@.subrange(pos as int, pos + dt.len())[k] == dt[k]);
            }
            if t < 0 {
                assert(dt[0] == 45);
                assert(s@[pos as int] == 45);
            } else {
                lemma_dec_digits_are_digits(ip as nat);
                assert(dt[0] == dd[0]);
                assert(is_digit(s@[pos as int]));
            }
            assert(s@.subrange(pos + sign, pos + sign + dd.len()) =~= dd) by {
                assert forall|k: int| 0 <= k < dd.len() implies s@.subrange(
                    pos + sign,
                    pos + sign + dd.len(),
                )[k] == dd[k] by {
                    assert(s@[pos + (k + sign)] == dt[k + sign]);
                }
            }
            assert(dt[sign + dd.len()] == 46);
            assert(dt[sign + dd.len() + 1] == (48 + m % 10) as u8);
        }
    }
    let parsed = parse_u32(s, p0);
    let (p1, ip) = match parsed {
        Some(x) => x,
        None => {
            return None;
        },
    };
    if p1 >= len || s[p1] != 46 {
        proof {
            assert forall|t: i32| !decis_at(s@, pos as int, t) by {
                if decis_at(s@, pos as int, t) {
                    let m = if t < 0 { -(t as int) } else { t as int };
                    assert(digits_at(s@, p0 as int, (m / 10) as u32));
                }
            }
        }
        return None;
    }
    if p1 + 1 >= len || s[p1 + 1] < 48 || s[p1 + 1] > 57 {
        proof {
            assert forall|t: i32| !decis_at(s@, pos as int, t) by {
                if decis_at(s@, pos as int, t) {
                    let m = if t < 0 { -(t as int) } else { t as int };
                    assert(digits_at(s@, p0 as int, (m / 10) as u32));
                }
            }
        }
        return None;
    }
    let frac = (s[p1 + 1] - 48) as u32;
    if ip > (u32::MAX - frac) / 10 {
        proof {
            assert forall|t: i32| !decis_at(s@, pos as int, t) by {
                if decis_at(s@, pos as int, t) {
                    let m = if t < 0 { -(t as int) } else { t as int };
                    assert(digits_at(s@, p0 as int, (m / 10) as u32));
                    assert(ip == (m / 10) as u32);
                    assert(frac == m % 10);
                    vstd::arithmetic::div_mod::lemma_fundamental_div_mod(m, 10);
                    assert(ip * 10 + frac == m);
                    vstd::arithmetic::div_mod::lemma_fundamental_div_mod(
                        (u32::MAX - frac) as int,
                        10,
                    );
                }
            }
        }
        return None;
    }
    let mag = ip * 10 + frac;
    proof {
        assert forall|t: i32| decis_at(s@, pos as int, t) implies ({
            let m = if t < 0 { -(t as int) } else { t as int };
            mag == m && p1 + 2 == pos + decis_text(t as int).len()
        }) by {
            let m = if t < 0 { -(t as int) } else { t as int };
            assert(digits_at(s@, p0 as int, (m / 10) as u32));
            vstd::arithmetic::div_mod::lemma_fundamental_div_mod(m, 10);
        }
    }
    if neg {
        if mag > 2147483648u32 {
            proof {
                assert forall|t: i32| !decis_at(s@, pos as int, t) by {
                    if decis_at(s@, pos as int, t) {
                        assert(t < 0);
                    }
                }
            }
            return None;
        }
        let val = (-(mag as i64)) as i32;
        Some((p1 + 2, val))
    } else {
        if mag > 2147483647u32 {
            proof {
                assert forall|t: i32| !decis_at(s@, pos as int, t) by {
                    if decis_at(s@, pos as int, t) {
                        assert(t >= 0);
                    }
                }
            }
            return None;
        }
        Some((p1 + 2, mag as i32))
    }
}

/// `null` or the decimal text of `v` stands at `pos`, with no digit after a
/// number.
pub open spec fn opt_int_at(s: Seq<u8>, pos: int, o: Option<i32>) -> bool {
    match o {
        None => lit_at(s, pos, text_null()),
        Some(v) => int_at(s, pos, v),
    }
}

/// Read `null` or a signed decimal integer at `pos`.
fn parse_opt_int(s: &[u8], pos: usize) -> (r: Option<(usize, Option<i32>)>)
    requires
        pos <= s@.len(),
    ensures
        forall|o: Option<i32>| opt_int_at(s@, pos as int, o) ==> (r matches Some(p) && p.0 == pos
            + opt_int_text(o).len() && p.1 == o),
        r matches Some(p) ==> pos < p.0 <= s@.len(),
{
    let nl = text_null_bytes();
    match expect_lit(s, pos, nl.as_slice()) {
        Some(p) => {
            proof {
                assert forall|o: Option<i32>| opt_int_at(s@, pos as int, o) implies o is None by {
                    if o is Some {
                        let v = o->0;
                        let it = int_text(v as int);
                        assert(s@.subrange(pos as int, pos + it.len())[0] == it[0]);
                        assert(s@.subrange(pos as int, pos + text_null().len())[0] == 110);
                        if v >= 0 {
                            lemma_dec_digits_are_digits(v as nat);
                        }
                    }
                }
            }
            Some((p, None))
        },
        None => {
            match parse_i32(s, pos) {
                Some((p, v)) => {
                    proof {
                        assert forall|o: Option<i32>| opt_int_at(s@, pos as int, o) implies o
                            matches Some(_) by {}
                    }
                    Some((p, Some(v)))
                },
                None => None,
            }
        },
    }
}

/// Byte-for-byte equality of a slice and an encoded text.
fn eq_bytes(a: &[u8], b: &[u8]) -> (r: bool)
    ensures
        r == (a@ == b@),
{
    if a.len() != b.len() {
        return false;
    }
    let mut i: usize = 0;
    while i < a.len()
        invariant
            a@.len() == b@.len(),
            i <= a@.len(),
            forall|k: int| 0 <= k < i ==> a@[k] == b@[k],
        decreases a@.len() - i,
    {
        if a[i] != b[i] {
            return false;
        }
        i = i + 1;
    }
    proof {
        assert(a@ =~= b@);
    }
    true
}


/// A literal composed of two pieces stands at `pos` exactly when the pieces
/// stand one after the other.
proof fn lemma_lit_split(s: Seq<u8>, pos: int, a: Seq<u8>, b: Seq<u8>)
    requires
        lit_at(s, pos, a + b),
    ensures
        lit_at(s, pos, a),
        lit_at(s, pos + a.len(), b),
{
    assert forall|k: int| 0 <= k < a.len() implies s.subrange(pos, pos + a.len())[k] == a[k] by {
        assert(s.subrange(pos, pos + (a + b).len())[k] == (a + b)[k]);
    }
    assert(s.subrange(pos, pos + a.len()) =~= a);
    assert forall|k: int| 0 <= k < b.len() implies s.subrange(
        pos + a.len(),
        pos + a.len() + b.len(),
    )[k] == b[k] by {
        assert(s.subrange(pos, pos + (a + b).len())[a.len() + k] == (a + b)[a.len() + k]);
    }
    assert(s.subrange(pos + a.len(), pos + a.len() + b.len()) =~= b);
}

/// Each token of a configuration's canonical text stands at its own offset
/// in `s`, the whole text ends with the closing brace, and nothing follows.
pub open spec fn cfg_tokens_at(s: Seq<u8>, c: ThermostatConfig) -> bool {
    let o1 = key_master().len() as int;
    let o2 = o1 + bool_text(c.master_switch).len();
    let o3 = o2 + key_force().len();
    let o4 = o3 + bool_text(c.force).len();
    let o5 = o4 + key_temp().len();
    let o6 = o5 + decis_text(c.target_temp as int).len();
    let o7 = o6 + key_co2().len();
    let o8 = o7 + opt_int_text(c.co2_target).len();
    &&& lit_at(s, 0, key_master())
    &&& lit_at(s, o1, bool_text(c.master_switch))
    &&& lit_at(s, o2, key_force())
    &&& lit_at(s, o3, bool_text(c.force))
    &&& lit_at(s, o4, key_temp())
    &&& lit_at(s, o5, decis_text(c.target_temp as int))
    &&& lit_at(s, o6, key_co2())
    &&& lit_at(s, o7, opt_int_text(c.co2_target))
    &&& lit_at(s, o8, obj_close())
    &&& s.len() == o8 + 1
    &&& decis_at(s, o5, c.target_temp)
    &&& opt_int_at(s, o7, c.co2_target)
}

/// Where a configuration's canonical text stands, each of its tokens stands at
/// its own offset.
proof fn lemma_cfg_tokens(s: Seq<u8>, c: ThermostatConfig)
    requires
        s == cfg_json(c),
    ensures
        cfg_tokens_at(s, c),
{
    let t1 = key_master();
    let t2 = t1 + bool_text(c.master_switch);
    let t3 = t2 + key_force();
    let t4 = t3 + bool_text(c.force);
    let t5 = t4 + key_temp();
    let t6 = t5 + decis_text(c.target_temp as int);
    let t7 = t6 + key_co2();
    let t8 = t7 + opt_int_text(c.co2_target);
    let t9 = t8 + obj_close();
    assert(s == t9);
    assert(lit_at(s, 0, t9)) by {
        assert(s.subrange(0, t9.len() as int) =~= s);
    }
    lemma_lit_split(s, 0, t8, obj_close());
    lemma_lit_split(s, 0, t7, opt_int_text(c.co2_target));
    lemma_lit_split(s, 0, t6, key_co2());
    lemma_lit_split(s, 0, t5, decis_text(c.target_temp as int));
    lemma_lit_split(s, 0, t4, key_temp());
    lemma_lit_split(s, 0, t3, bool_text(c.force));
    lemma_lit_split(s, 0, t2, key_force());
    lemma_lit_split(s, 0, t1, bool_text(c.master_switch));
    assert(s[t8.len() as int] == 125) by {
        assert(s.subrange(t8.len() as int, t9.len() as int)[0] == obj_close()[0]);
    }
}

/// Read the tokens of a configuration text in order. Wherever `s` is the
/// canonical text of some configuration, this recovers exactly that
/// configuration; on other inputs it may fail or return a candidate whose
/// re-encoding the caller still has to compare.
#[verifier::rlimit(100)]
fn loose_parse_config(s: &[u8]) -> (r: Option<ThermostatConfig>)
    ensures
        forall|c: ThermostatConfig| s@ == cfg_json(c) ==> r == Some(c),
{
    proof {
        assert forall|c: ThermostatConfig| s@ == cfg_json(c) implies cfg_tokens_at(s@, c) by {
            lemma_cfg_tokens(s@, c);
        }
    }
    let k1 = key_master_bytes();
    let p1 = match expect_lit(s, 0, k1.as_slice()) {
        Some(p) => p,
        None => {
            proof {
                assert forall|c: ThermostatConfig| s@ != cfg_json(c) by {
                    if s@ == cfg_json(c) {
                        assert(cfg_tokens_at(s@, c));
                    }
                }
            }
            return None;
        },
    };
    let (p2, master_switch) = match parse_bool(s, p1) {
        Some(x) => x,
        None => {
            proof {
                assert forall|c: ThermostatConfig| s@ != cfg_json(c) by {
                    if s@ == cfg_json(c) {
                        assert(cfg_tokens_at(s@, c));
                    }
                }
            }
            return None;
        },
    };
    let k2 = key_force_bytes();
    let p3 = match expect_lit(s, p2, k2.as_slice()) {
        Some(p) => p,
        None => {
            proof {
                assert forall|c: ThermostatConfig| s@ != cfg_json(c) by {
                    if s@ == cfg_json(c) {
                        assert(cfg_tokens_at(s@, c));
                    }
                }
            }
            return None;
        },
    };
    let (p4, force) = match parse_bool(s, p3) {
        Some(x) => x,
        None => {
            proof {
                assert forall|c: ThermostatConfig| s@ != cfg_json(c) by {
                    if s@ == cfg_json(c) {
                        assert(cfg_tokens_at(s@, c));
                    }
                }
            }
            return None;
        },
    };
    let k3 = key_temp_bytes();
    let p5 = match expect_lit(s, p4, k3.as_slice()) {
        Some(p) => p,
        None => {
            proof {
                assert forall|c: ThermostatConfig| s@ != cfg_json(c) by {
                    if s@ == cfg_json(c) {
                        assert(cfg_tokens_at(s@, c));
                    }
                }
            }
            return None;
        },
    };
    let (p6, target_temp) = match parse_decis(s, p5) {
        Some(x) => x,
        None => {
            proof {
                assert forall|c: ThermostatConfig| s@ != cfg_json(c) by {
                    if s@ == cfg_json(c) {
                        assert(cfg_tokens_at(s@, c));
                    }
                }
            }
            return None;
        },
    };
    let k4 = key_co2_bytes();
    let p7 = match expect_lit(s, p6, k4.as_slice()) {
        Some(p) => p,
        None => {
            proof {
                assert forall|c: ThermostatConfig| s@ != cfg_json(c) by {
                    if s@ == cfg_json(c) {
                        assert(cfg_tokens_at(s@, c));
                    }
                }
            }
            return None;
        },
    };
    let (p8, co2_target) = match parse_opt_int(s, p7) {
        Some(x) => x,
        None => {
            proof {
                assert forall|c: ThermostatConfig| s@ != cfg_json(c) by {
                    if s@ == cfg_json(c) {
                        assert(cfg_tokens_at(s@, c));
                    }
                }
            }
            return None;
        },
    };
    let cl = obj_close_bytes();
    let p9 = match expect_lit(s, p8, cl.as_slice()) {
        Some(p) => p,
        None => {
            proof {
                assert forall|c: ThermostatConfig| s@ != cfg_json(c) by {
                    if s@ == cfg_json(c) {
                        assert(cfg_tokens_at(s@, c));
                    }
                }
            }
            return None;
        },
    };
    if p9 != s.len() {
        proof {
            assert forall|c: ThermostatConfig| s@ != cfg_json(c) by {
                if s@ == cfg_json(c) {
                    assert(cfg_tokens_at(s@, c));
                }
            }
        }
        return None;
    }
    let r = ThermostatConfig { master_switch, force, target_temp, co2_target };
    proof {
        assert forall|c: ThermostatConfig| s@ == cfg_json(c) implies Some(r) == Some::<
            ThermostatConfig,
        >(c) by {
            assert(cfg_tokens_at(s@, c));
        }
    }
    Some(r)
}

/// Parse the canonical JSON text of a configuration. Exactly the canonical
/// texts are accepted: a `Some` is the configuration whose encoding `s` is,
/// and a `None` means `s` encodes no configuration at all.
pub fn parse_config(s: &[u8]) -> (r: Option<ThermostatConfig>)
    ensures
        r matches Some(c) ==> s@ == cfg_json(c),
        r is None ==> forall|c: ThermostatConfig| s@ != cfg_json(c),
{
    let c0 = match loose_parse_config(s) {
        Some(c) => c,
        None => {
            proof {
                assert forall|c: ThermostatConfig| s@ != cfg_json(c) by {
                    if s@ == cfg_json(c) {
                    }
                }
            }
            return None;
        },
    };
    let enc = encode_config(&c0);
    if eq_bytes(s, enc.as_slice()) {
        Some(c0)
    } else {
        proof {
            assert forall|c: ThermostatConfig| s@ != cfg_json(c) by {
                if s@ == cfg_json(c) {
                }
            }
        }
        None
    }
}


/// Each token of the options' canonical text stands at its own offset in `s`,
/// and nothing follows the closing braces.
pub open spec fn options_tokens_at(s: Seq<u8>, o: Options) -> bool {
    let o1 = key_window().len() as int;
    let o2 = o1 + int_text(o.window_pos.x as int).len();
    let o3 = o2 + key_y().len();
    let o4 = o3 + int_text(o.window_pos.y as int).len();
    let o5 = o4 + key_app().len();
    let o6 = o5 + bool_text(o.app_options.on_top).len();
    &&& lit_at(s, 0, key_window())
    &&& int_at(s, o1, o.window_pos.x)
    &&& lit_at(s, o2, key_y())
    &&& int_at(s, o3, o.window_pos.y)
    &&& lit_at(s, o4, key_app())
    &&& lit_at(s, o5, bool_text(o.app_options.on_top))
    &&& lit_at(s, o6, opts_close())
    &&& s.len() == o6 + 2
}

/// Where the options' canonical text stands, each of its tokens stands at its
/// own offset.
proof fn lemma_options_tokens(s: Seq<u8>, o: Options)
    requires
        s == options_json(o),
    ensures
        options_tokens_at(s, o),
{
    let t1 = key_window();
    let t2 = t1 + int_text(o.window_pos.x as int);
    let t3 = t2 + key_y();
    let t4 = t3 + int_text(o.window_pos.y as int);
    let t5 = t4 + key_app();
    let t6 = t5 + bool_text(o.app_options.on_top);
    let t7 = t6 + opts_close();
    assert(s == t7);
    assert(lit_at(s, 0, t7)) by {
        assert(s.subrange(0, t7.len() as int) =~= s);
    }
    lemma_lit_split(s, 0, t6, opts_close());
    lemma_lit_split(s, 0, t5, bool_text(o.app_options.on_top));
    lemma_lit_split(s, 0, t4, key_app());
    lemma_lit_split(s, 0, t3, int_text(o.window_pos.y as int));
    lemma_lit_split(s, 0, t2, key_y());
    lemma_lit_split(s, 0, t1, int_text(o.window_pos.x as int));
    assert(s[t2.len() as int] == 44) by {
        assert(s.subrange(t2.len() as int, t3.len() as int)[0] == key_y()[0]);
    }
    assert(s[t4.len() as int] == 125) by {
        assert(s.subrange(t4.len() as int, t5.len() as int)[0] == key_app()[0]);
    }
}

/// Read the tokens of an options text in order. Wherever `s` is the canonical
/// text of some options, this recovers exactly those options.
#[verifier::rlimit(100)]
fn loose_parse_options(s: &[u8]) -> (r: Option<Options>)
    ensures
        forall|o: Options| s@ == options_json(o) ==> r == Some(o),
{
    proof {
        assert forall|o: Options| s@ == options_json(o) implies options_tokens_at(s@, o) by {
            lemma_options_tokens(s@, o);
        }
    }
    let k1 = key_window_bytes();
    let p1 = match expect_lit(s, 0, k1.as_slice()) {
        Some(p) => p,
        None => {
            proof {
                assert forall|o: Options| s@ != options_json(o) by {
                    if s@ == options_json(o) {
                        assert(options_tokens_at(s@, o));
                    }
                }
            }
            return None;
        },
    };
    let (p2, x) = match parse_i32(s, p1) {
        Some(v) => v,
        None => {
            proof {
                assert forall|o: Options| s@ != options_json(o) by {
                    if s@ == options_json(o) {
                        assert(options_tokens_at(s@, o));
                    }
                }
            }
            return None;
        },
    };
    let k2 = key_y_bytes();
    let p3 = match expect_lit(s, p2, k2.as_slice()) {
        Some(p) => p,
        None => {
            proof {
                assert forall|o: Options| s@ != options_json(o) by {
                    if s@ == options_json(o) {
                        assert(options_tokens_at(s@, o));
                    }
                }
            }
            return None;
        },
    };
    let (p4, y) = match parse_i32(s, p3) {
        Some(v) => v,
        None => {
            proof {
                assert forall|o: Options| s@ != options_json(o) by {
                    if s@ == options_json(o) {
                        assert(options_tokens_at(s@, o));
                    }
                }
            }
            return None;
        },
    };
    let k3 = key_app_bytes();
    let p5 = match expect_lit(s, p4, k3.as_slice()) {
        Some(p) => p,
        None => {
            proof {
                assert forall|o: Options| s@ != options_json(o) by {
                    if s@ == options_json(o) {
                        assert(options_tokens_at(s@, o));
                    }
                }
            }
            return None;
        },
    };
    let (p6, on_top) = match parse_bool(s, p5) {
        Some(v) => v,
        None => {
            proof {
                assert forall|o: Options| s@ != options_json(o) by {
                    if s@ == options_json(o) {
                        assert(options_tokens_at(s@, o));
                    }
                }
            }
            return None;
        },
    };
    let cl = opts_close_bytes();
    let p7 = match expect_lit(s, p6, cl.as_slice()) {
        Some(p) => p,
        None => {
            proof {
                assert forall|o: Options| s@ != options_json(o) by {
                    if s@ == options_json(o) {
                        assert(options_tokens_at(s@, o));
                    }
                }
            }
            return None;
        },
    };
    if p7 != s.len() {
        proof {
            assert forall|o: Options| s@ != options_json(o) by {
                if s@ == options_json(o) {
                    assert(options_tokens_at(s@, o));
                }
            }
        }
        return None;
    }
    let r = Options {
        window_pos: crate::config::WindowPos { x, y },
        app_options: crate::config::AppOptions { on_top },
    };
    proof {
        assert forall|o: Options| s@ == options_json(o) implies Some(r) == Some::<Options>(o) by {
            assert(options_tokens_at(s@, o));
        }
    }
    Some(r)
}

/// Parse the canonical JSON text of the persisted options. Exactly the
/// canonical texts are accepted: a `Some` is the options whose encoding `s`
/// is, and a `None` means `s` encodes no options at all (the caller then falls
/// back to `Options::default`).
pub fn parse_options(s: &[u8]) -> (r: Option<Options>)
    ensures
        r matches Some(o) ==> s@ == options_json(o),
        r is None ==> forall|o: Options| s@ != options_json(o),
{
    let o0 = match loose_parse_options(s) {
        Some(o) => o,
        None => {
            proof {
                assert forall|o: Options| s@ != options_json(o) by {
                    if s@ == options_json(o) {
                    }
                }
            }
            return None;
        },
    };
    let enc = encode_options(&o0);
    if eq_bytes(s, enc.as_slice()) {
        Some(o0)
    } else {
        proof {
            assert forall|o: Options| s@ != options_json(o) by {
                if s@ == options_json(o) {
                }
            }
        }
        None
    }
}


/// Two numbers whose canonical digits stand at the same place, neither
/// extended by a further digit, are the same number.
proof fn lemma_digits_at_unique(s: Seq<u8>, pos: int, n1: u32, n2: u32)
    requires
        digits_at(s, pos, n1),
        digits_at(s, pos, n2),
    ensures
        n1 == n2,
{
    let d1 = dec_digits(n1 as nat);
    let d2 = dec_digits(n2 as nat);
    lemma_dec_digits_are_digits(n1 as nat);
    lemma_dec_digits_are_digits(n2 as nat);
    if d1.len() < d2.len() {
        assert(s.subrange(pos, pos + d2.len())[d1.len() as int] == d2[d1.len() as int]);
        assert(is_digit(s[pos + d1.len()]));
        assert(false);
    }
    if d2.len() < d1.len() {
        assert(s.subrange(pos, pos + d1.len())[d2.len() as int] == d1[d2.len() as int]);
        assert(is_digit(s[pos + d2.len()]));
        assert(false);
    }
    assert(d1 =~= d2) by {
        assert forall|k: int| 0 <= k < d1.len() implies d1[k] == d2[k] by {
            assert(s.subrange(pos, pos + d1.len())[k] == d1[k]);
            assert(s.subrange(pos, pos + d2.len())[k] == d2[k]);
        }
    }
    lemma_digits_val_of_dec(n1 as nat);
    lemma_digits_val_of_dec(n2 as nat);
}

/// Two integers whose canonical texts stand at the same place, neither
/// extended by a further digit, are the same integer.
proof fn lemma_int_at_unique(s: Seq<u8>, pos: int, v1: i32, v2: i32)
    requires
        int_at(s, pos, v1),
        int_at(s, pos, v2),
    ensures
        v1 == v2,
{
    let sign1: bool = v1 < 0;
    let sign2: bool = v2 < 0;
    assert(s[pos] == int_text(v1 as int)[0]) by {
        assert(s.subrange(pos, pos + int_text(v1 as int).len())[0] == int_text(v1 as int)[0]);
    }
    assert(s[pos] == int_text(v2 as int)[0]) by {
        assert(s.subrange(pos, pos + int_text(v2 as int).len())[0] == int_text(v2 as int)[0]);
    }
    if v1 < 0 {
        lemma_dec_digits_are_digits((-(v1 as int)) as nat);
    } else {
        lemma_dec_digits_are_digits(v1 as nat);
    }
    if v2 < 0 {
        lemma_dec_digits_are_digits((-(v2 as int)) as nat);
    } else {
        lemma_dec_digits_are_digits(v2 as nat);
    }
    assert(sign1 == sign2);
    if sign1 {
        lemma_lit_split(s, pos, seq![45u8], dec_digits((-(v1 as int)) as nat));
        lemma_lit_split(s, pos, seq![45u8], dec_digits((-(v2 as int)) as nat));
        lemma_digits_at_unique(s, pos + 1, (-(v1 as int)) as u32, (-(v2 as int)) as u32);
    } else {
        lemma_digits_at_unique(s, pos, v1 as u32, v2 as u32);
    }
}

/// Two counts of tenths whose canonical texts stand at the same place are the
/// same count.
proof fn lemma_decis_at_unique(s: Seq<u8>, pos: int, t1: i32, t2: i32)
    requires
        decis_at(s, pos, t1),
        decis_at(s, pos, t2),
    ensures
        t1 == t2,
{
    let m1 = if t1 < 0 { -(t1 as int) } else { t1 as int };
    let m2 = if t2 < 0 { -(t2 as int) } else { t2 as int };
    lemma_dec_digits_are_digits((m1 / 10) as nat);
    lemma_dec_digits_are_digits((m2 / 10) as nat);
    assert(s[pos] == decis_text(t1 as int)[0]) by {
        assert(s.subrange(pos, pos + decis_text(t1 as int).len())[0] == decis_text(t1 as int)[0]);
    }
    assert(s[pos] == decis_text(t2 as int)[0]) by {
        assert(s.subrange(pos, pos + decis_text(t2 as int).len())[0] == decis_text(t2 as int)[0]);
    }
    assert((t1 < 0) == (t2 < 0));
    let sign: int = if t1 < 0 { 1 } else { 0 };
    let sgn1: Seq<u8> = if t1 < 0 { seq![45u8] } else { Seq::empty() };
    let sgn2: Seq<u8> = if t2 < 0 { seq![45u8] } else { Seq::empty() };
    let tail1: Seq<u8> = seq![46u8, (48 + m1 % 10) as u8];
    let tail2: Seq<u8> = seq![46u8, (48 + m2 % 10) as u8];
    lemma_lit_split(s, pos, sgn1 + dec_digits((m1 / 10) as nat), tail1);
    lemma_lit_split(s, pos, sgn1, dec_digits((m1 / 10) as nat));
    lemma_lit_split(s, pos, sgn2 + dec_digits((m2 / 10) as nat), tail2);
    lemma_lit_split(s, pos, sgn2, dec_digits((m2 / 10) as nat));
    assert(digits_at(s, pos + sign, (m1 / 10) as u32)) by {
        assert(s.subrange(
            pos + sign + dec_digits((m1 / 10) as nat).len(),
            pos + sign + dec_digits((m1 / 10) as nat).len() + 2,
        )[0] == 46);
    }
    assert(digits_at(s, pos + sign, (m2 / 10) as u32)) by {
        assert(s.subrange(
            pos + sign + dec_digits((m2 / 10) as nat).len(),
            pos + sign + dec_digits((m2 / 10) as nat).len() + 2,
        )[0] == 46);
    }
    lemma_digits_at_unique(s, pos + sign, (m1 / 10) as u32, (m2 / 10) as u32);
    assert(m1 / 10 == m2 / 10);
    let frac_pos = pos + sign + dec_digits((m1 / 10) as nat).len() + 1;
    assert(s[frac_pos] == (48 + m1 % 10) as u8) by {
        assert(s.subrange(frac_pos - 1, frac_pos + 1)[1] == tail1[1]);
    }
    assert(s[frac_pos] == (48 + m2 % 10) as u8) by {
        assert(s.subrange(frac_pos - 1, frac_pos + 1)[1] == tail2[1]);
    }
    assert(m1 % 10 == m2 % 10);
    vstd::arithmetic::div_mod::lemma_fundamental_div_mod(m1, 10);
    vstd::arithmetic::div_mod::lemma_fundamental_div_mod(m2, 10);
}

/// Two booleans whose texts stand at the same place are the same boolean.
proof fn lemma_bool_at_unique(s: Seq<u8>, pos: int, b1: bool, b2: bool)
    requires
        lit_at(s, pos, bool_text(b1)),
        lit_at(s, pos, bool_text(b2)),
    ensures
        b1 == b2,
{
    assert(s[pos] == bool_text(b1)[0]) by {
        assert(s.subrange(pos, pos + bool_text(b1).len())[0] == bool_text(b1)[0]);
    }
    assert(s[pos] == bool_text(b2)[0]) by {
        assert(s.subrange(pos, pos + bool_text(b2).len())[0] == bool_text(b2)[0]);
    }
}

/// Two optional integers whose texts stand at the same place, no number
/// extended by a further digit, are the same value.
proof fn lemma_opt_int_at_unique(s: Seq<u8>, pos: int, o1: Option<i32>, o2: Option<i32>)
    requires
        opt_int_at(s, pos, o1),
        opt_int_at(s, pos, o2),
    ensures
        o1 == o2,
{
    if o1 is Some {
        let v = o1->0;
        assert(s[pos] == int_text(v as int)[0]) by {
            assert(s.subrange(pos, pos + int_text(v as int).len())[0] == int_text(v as int)[0]);
        }
        if v >= 0 {
            lemma_dec_digits_are_digits(v as nat);
        }
    } else {
        assert(s[pos] == 110) by {
            assert(s.subrange(pos, pos + text_null().len())[0] == text_null()[0]);
        }
    }
    if o2 is Some {
        let v = o2->0;
        assert(s[pos] == int_text(v as int)[0]) by {
            assert(s.subrange(pos, pos + int_text(v as int).len())[0] == int_text(v as int)[0]);
        }
        if v >= 0 {
            lemma_dec_digits_are_digits(v as nat);
        }
    } else {
        assert(s[pos] == 110) by {
            assert(s.subrange(pos, pos + text_null().len())[0] == text_null()[0]);
        }
    }
    assert(o1 is Some == o2 is Some);
    if o1 is Some && o2 is Some {
        lemma_int_at_unique(s, pos, o1->0, o2->0);
    }
}

/// The wire text determines the configuration: no two configurations share a
/// canonical JSON text, so parsing it back can only ever recover the value
/// that was encoded.
pub proof fn lemma_cfg_json_injective(c1: ThermostatConfig, c2: ThermostatConfig)
    requires
        cfg_json(c1) == cfg_json(c2),
    ensures
        c1 == c2,
{
    let s = cfg_json(c1);
    lemma_cfg_tokens(s, c1);
    lemma_cfg_tokens(s, c2);
    let o1 = key_master().len() as int;
    lemma_bool_at_unique(s, o1, c1.master_switch, c2.master_switch);
    let o3 = o1 + bool_text(c1.master_switch).len() + key_force().len();
    lemma_bool_at_unique(s, o3, c1.force, c2.force);
    let o5 = o3 + bool_text(c1.force).len() + key_temp().len();
    lemma_decis_at_unique(s, o5, c1.target_temp, c2.target_temp);
    let o7 = o5 + decis_text(c1.target_temp as int).len() + key_co2().len();
    lemma_opt_int_at_unique(s, o7, c1.co2_target, c2.co2_target);
}

/// The wire text determines the options as well.
pub proof fn lemma_options_json_injective(o1: Options, o2: Options)
    requires
        options_json(o1) == options_json(o2),
    ensures
        o1 == o2,
{
    let s = options_json(o1);
    lemma_options_tokens(s, o1);
    lemma_options_tokens(s, o2);
    let p1 = key_window().len() as int;
    lemma_int_at_unique(s, p1, o1.window_pos.x, o2.window_pos.x);
    let p3 = p1 + int_text(o1.window_pos.x as int).len() + key_y().len();
    lemma_int_at_unique(s, p3, o1.window_pos.y, o2.window_pos.y);
    let p5 = p3 + int_text(o1.window_pos.y as int).len() + key_app().len();
    lemma_bool_at_unique(s, p5, o1.app_options.on_top, o2.app_options.on_top);
}


/// The bytes of `?include_config=`.
pub open spec fn query_prefix() -> Seq<u8> {
    seq![63u8, 105u8, 110u8, 99u8, 108u8, 117u8, 100u8, 101u8, 95u8, 99u8, 111u8, 110u8, 102u8, 105u8, 103u8, 61u8]
}

/// The query string of a state fetch: `?include_config=` followed by the flag.
pub open spec fn query_text(include_config: bool) -> Seq<u8> {
    query_prefix() + bool_text(include_config)
}

/// Encode the query string of a state fetch.
pub fn encode_query(include_config: bool) -> (r: Vec<u8>)
    ensures
        r@ == query_text(include_config),
{
    let mut v: Vec<u8> = Vec::new();
    let lit: [u8; 16] = [63u8, 105u8, 110u8, 99u8, 108u8, 117u8, 100u8, 101u8, 95u8, 99u8, 111u8, 110u8, 102u8, 105u8, 103u8, 61u8];
    proof {
        assert(lit@ =~= query_prefix());
    }
    push_lit(&mut v, lit.as_slice());
    push_bool(&mut v, include_config);
    v
}

} // verus!
