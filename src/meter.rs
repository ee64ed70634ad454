//! Reading the grid power from decoded meter messages and registers.

use vstd::prelude::*;
use crate::sml::{
    AnyValue, EntryModel, EnvelopeModel, SmlMessageEnvelope, SmlMessages, ValueModel, entries_view,
    envelopes_view, opt_i64_view,
};

verus! {

/// `10^n`.
pub open spec fn pow10(n: nat) -> int
    decreases n,
{
    if n == 0 {
        1
    } else {
        10 * pow10((n - 1) as nat)
    }
}

/// `raw × 10^scaler`, with a negative exponent dividing and truncating toward zero.
pub open spec fn scaled(raw: int, scaler: int) -> int {
    if scaler >= 0 {
        raw * pow10(scaler as nat)
    } else if raw >= 0 {
        raw / pow10((-scaler) as nat)
    } else {
        -((-raw) / pow10((-scaler) as nat))
    }
}

/// `x` narrowed to the range of `i32`, saturating.
pub open spec fn saturate_i32(x: int) -> int {
    if x > i32::MAX {
        i32::MAX as int
    } else if x < i32::MIN {
        i32::MIN as int
    } else {
        x
    }
}

/// The watts that a numeric value gives under a scaler (0 when absent); none
/// for a string.
pub open spec fn value_watts(v: ValueModel, scaler: Option<int>) -> Option<int> {
    let e = match scaler {
        Some(e) => e,
        None => 0,
    };
    match v {
        ValueModel::Bytes(_) => None,
        ValueModel::Signed(x) => Some(saturate_i32(scaled(x, e))),
        ValueModel::Unsigned(x) => Some(saturate_i32(scaled(x, e))),
    }
}

proof fn lemma_pow10_pos(n: nat)
    ensures
        pow10(n) >= 1,
    decreases n,
{
    if n > 0 {
        lemma_pow10_pos((n - 1) as nat);
    }
}

proof fn lemma_pow10_mono(a: nat, b: nat)
    requires
        a <= b,
    ensures
        pow10(a) <= pow10(b),
    decreases b,
{
    if a < b {
        lemma_pow10_mono(a, (b - 1) as nat);
        lemma_pow10_pos((b - 1) as nat);
    }
}

/// `mag × 10^e`, or a number above `2^31` when that product is above `2^31`.
fn scale_up(mag: u128, e: u64) -> (r: u128)
    requires
        mag <= u64::MAX,
    ensures
        (mag * pow10(e as nat) <= 0x8000_0000 && r == mag * pow10(e as nat)) || (mag * pow10(
            e as nat,
        ) > 0x8000_0000 && r > 0x8000_0000),
{
    let mut m: u128 = mag;
    let mut k: u64 = 0;
    while k < e && m <= 0x8000_0000
        invariant
            k <= e,
            m == mag * pow10(k as nat),
            m <= u64::MAX,
        decreases e - k,
    {
        m = m * 10;
        k = k + 1;
        proof {
            assert(mag * pow10(k as nat) == mag * (10 * pow10((k - 1) as nat)));
            assert(mag * (10 * pow10((k - 1) as nat)) == (mag * pow10((k - 1) as nat)) * 10)
                by (nonlinear_arith);
        }
    }
    proof {
        if k < e {
            lemma_pow10_mono(k as nat, e as nat);
            assert(mag * pow10(k as nat) <= mag * pow10(e as nat)) by (nonlinear_arith)
                requires
                    pow10(k as nat) <= pow10(e as nat),
                    mag >= 0,
            ;
        }
    }
    m
}

/// `mag / 10^e`.
fn scale_down(mag: u128, e: u128) -> (r: u128)
    ensures
        r == mag as int / pow10(e as nat),
{
    let mut m: u128 = mag;
    let mut k: u128 = 0;
    while k < e && m > 0
        invariant
            k <= e,
            m == mag as int / pow10(k as nat),
        decreases e - k,
    {
        proof {
            lemma_pow10_pos(k as nat);
            vstd::arithmetic::div_mod::lemma_div_denominator(mag as int, pow10(k as nat), 10);
            assert(pow10((k + 1) as nat) == pow10(k as nat) * 10);
        }
        m = m / 10;
        k = k + 1;
    }
    proof {
        if k < e {
            lemma_pow10_pos(k as nat);
            lemma_pow10_mono(k as nat, e as nat);
            vstd::arithmetic::div_mod::lemma_div_is_ordered_by_denominator(
                mag as int,
                pow10(k as nat),
                pow10(e as nat),
            );
        }
    }
    m
}

/// `mag` with the sign given by `neg`, scaled and narrowed to `i32`.
fn scale_magnitude(neg: bool, mag: u128, scaler: i64) -> (r: i32)
    requires
        mag <= u64::MAX,
    ensures
        r == saturate_i32(
            scaled(
                if neg {
                    -mag
                } else {
                    mag as int
                },
                scaler as int,
            ),
        ),
{
    let m = if scaler >= 0 {
        scale_up(mag, scaler as u64)
    } else {
        scale_down(mag, (0 - scaler as i128) as u128)
    };
    proof {
        let raw: int = if neg {
            -mag
        } else {
            mag as int
        };
        if scaler >= 0 {
            let p = pow10(scaler as nat);
            assert(-mag * p == -(mag * p)) by (nonlinear_arith);
            assert(scaled(raw, scaler as int) == raw * p);
        } else {
            let p = pow10((-scaler) as nat);
            assert((-scaler) as nat == ((0 - scaler as i128) as u128) as nat);
            assert(m == mag as int / p);
            lemma_pow10_pos((-scaler) as nat);
            if mag == 0 {
                assert(0int / p == 0);
            }
            assert(scaled(raw, scaler as int) == if neg { -(m as int) } else { m as int });
        }
    }
    if neg {
        if m >= 0x8000_0000 {
            i32::MIN
        } else {
            0 - (m as i32)
        }
    } else {
        if m >= 0x7fff_ffff {
            i32::MAX
        } else {
            m as i32
        }
    }
}

/// The watts that a value gives under a scaler (0 when absent), saturated to
/// `i32`; `None` for a string.
pub fn scale_to_watts(value: &AnyValue, scaler: Option<i64>) -> (r: Option<i32>)
    ensures
        match r {
            Some(w) => value_watts(value@, opt_i64_view(scaler)) == Some(w as int),
            None => value_watts(value@, opt_i64_view(scaler)) is None,
        },
{
    let e: i64 = match scaler {
        Some(e) => e,
        None => 0,
    };
    match value {
        AnyValue::String(_) => None,
        AnyValue::Signed(v) => {
            let neg = *v < 0;
            let mag: u128 = if neg {
                (0 - *v as i128) as u128
            } else {
                *v as u128
            };
            Some(scale_magnitude(neg, mag, e))
        },
        AnyValue::Unsigned(v) => Some(scale_magnitude(false, *v as u128, e)),
    }
}

/// The first entry of `es` named `obis`.
pub open spec fn entry_named(es: Seq<EntryModel>, obis: Seq<u8>) -> Option<EntryModel>
    decreases es.len(),
{
    if es.len() == 0 {
        None
    } else if es[0].object_name == obis {
        Some(es[0])
    } else {
        entry_named(es.drop_first(), obis)
    }
}

/// What one message gives for `obis`: the watts of the first entry so named,
/// where the message is a list response and the entry is numeric.
pub open spec fn message_watts(m: EnvelopeModel, obis: Seq<u8>) -> Option<int> {
    match m {
        EnvelopeModel::List(l) => match entry_named(l.value_list, obis) {
            Some(e) => value_watts(e.value, e.scaler),
            None => None,
        },
        _ => None,
    }
}

/// The watts of the first message that gives some for `obis`.
pub open spec fn spec_find_value(ms: Seq<EnvelopeModel>, obis: Seq<u8>) -> Option<int>
    decreases ms.len(),
{
    if ms.len() == 0 {
        None
    } else if message_watts(ms[0], obis) is Some {
        message_watts(ms[0], obis)
    } else {
        spec_find_value(ms.drop_first(), obis)
    }
}

fn bytes_equal(a: &[u8], b: &[u8]) -> (r: bool)
    ensures
        r == (a@ == b@),
{
    if a.len() != b.len() {
        return false;
    }
    let mut i: usize = 0;
    while i < a.len()
        invariant
            a@.len() == b@.len(),
            i <= a@.len(),
            a@.subrange(0, i as int) == b@.subrange(0, i as int),
        decreases a@.len() - i,
    {
        if a[i] != b[i] {
            assert(a@[i as int] != b@[i as int]);
            return false;
        }
        assert(a@.subrange(0, i + 1) =~= a@.subrange(0, i as int).push(a@[i as int]));
        assert(b@.subrange(0, i + 1) =~= b@.subrange(0, i as int).push(b@[i as int]));
        i = i + 1;
    }
    assert(a@ =~= a@.subrange(0, i as int));
    assert(b@ =~= b@.subrange(0, i as int));
    true
}

fn find_entry(es: &Vec<crate::sml::SmlListEntry>, obis: &[u8]) -> (r: Option<usize>)
    ensures
        match r {
            Some(i) => i < es@.len() && entry_named(entries_view(es@), obis@) == Some(es@[i as int]@),
            None => entry_named(entries_view(es@), obis@) is None,
        },
{
    let ghost all = entries_view(es@);
    assert(all.subrange(0, all.len() as int) =~= all);
    let mut i: usize = 0;
    while i < es.len()
        invariant
            i <= es@.len(),
            all == entries_view(es@),
            entry_named(all, obis@) == entry_named(all.subrange(i as int, all.len() as int), obis@),
        decreases es@.len() - i,
    {
        assert(all.subrange(i as int, all.len() as int).drop_first() =~= all.subrange(
            i + 1,
            all.len() as int,
        ));
        if bytes_equal(es[i].object_name.as_slice(), obis) {
            return Some(i);
        }
        i = i + 1;
    }
    None
}

/// The watts that `messages` give for the quantity `obis`: from the first
/// list response whose first entry named `obis` holds a number, scaled and
/// saturated to `i32`.
pub fn find_value(messages: &SmlMessages, obis: &[u8]) -> (r: Option<i32>)
    ensures
        match r {
            Some(w) => spec_find_value(messages@, obis@) == Some(w as int),
            None => spec_find_value(messages@, obis@) is None,
        },
{
    let ghost all = messages@;
    assert(all.subrange(0, all.len() as int) =~= all);
    let mut i: usize = 0;
    while i < messages.messages.len()
        invariant
            i <= messages.messages@.len(),
            all == envelopes_view(messages.messages@),
            spec_find_value(all, obis@) == spec_find_value(all.subrange(i as int, all.len() as int), obis@),
        decreases messages.messages@.len() - i,
    {
        let ghost rest = all.subrange(i as int, all.len() as int);
        assert(rest.drop_first() =~= all.subrange(i + 1, all.len() as int));
        assert(rest[0] == messages.messages@[i as int]@);
        match &messages.messages[i] {
            SmlMessageEnvelope::GetListResponse(body) => {
                match find_entry(&body.value_list, obis) {
                    Some(k) => {
                        let e = &body.value_list[k];
                        match scale_to_watts(&e.value, e.scaler) {
                            Some(w) => {
                                return Some(w);
                            },
                            None => {},
                        }
                    },
                    None => {},
                }
            },
            _ => {},
        }
        i = i + 1;
    }
    None
}

/// The signed watts that a 16-bit holding register holds.
pub open spec fn register_watts(reg: u16) -> int {
    if reg >= 0x8000 {
        reg - 0x1_0000
    } else {
        reg as int
    }
}

/// Reads a 16-bit holding register as a signed watt value.
pub fn register_to_watts(reg: u16) -> (r: i32)
    ensures
        r == register_watts(reg),
{
    if reg >= 0x8000 {
        reg as i32 - 0x1_0000
    } else {
        reg as i32
    }
}

} // verus!
