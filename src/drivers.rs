//! What each device driver sends for a power setting.

use vstd::prelude::*;

verus! {

/// The control request of an Ahoy DTU: command 11, transmit request 81, and
/// the limit in watts.
pub struct Payload {
    pub inverter: usize,
    pub cmd: usize,
    pub tx_request: usize,
    pub payload: Vec<usize>,
}

impl Payload {
    pub fn for_watts(inverter: usize, watts: usize) -> (r: Payload)
        ensures
            r.inverter == inverter,
            r.cmd == 11,
            r.tx_request == 81,
            r.payload@ == seq![watts, 0usize],
    {
        let payload = vec![watts, 0];
        assert(payload@ =~= seq![watts, 0usize]);
        Payload { inverter, cmd: 11, tx_request: 81, payload }
    }
}

/// A regulator's new setting after a change of `delta` watts from `current`,
/// kept within `[0, upper_limit]`.
pub open spec fn clamped_target(current: int, delta: int, upper_limit: int) -> int {
    if current + delta < 0 {
        0
    } else if current + delta > upper_limit {
        upper_limit
    } else {
        current + delta
    }
}

/// The setting a regulator moves to when asked to change by `delta` watts.
pub fn change_power_target(current: u32, delta: i64, upper_limit: u32) -> (r: u32)
    ensures
        r == clamped_target(current as int, delta as int, upper_limit as int),
{
    let t: i128 = current as i128 + delta as i128;
    if t < 0 {
        0
    } else if t > upper_limit as i128 {
        upper_limit
    } else {
        t as u32
    }
}

/// The relative limit that OpenDTU takes: `watts * 100 / max_power` percent,
/// rounded down.
pub fn relative_limit(watts: u32, max_power: u32) -> (r: u64)
    requires
        max_power > 0,
    ensures
        r == (watts as int * 100) / (max_power as int),
{
    (watts as u64 * 100) / (max_power as u64)
}

/// What an EZ1M inverter is sent for a setting.
#[derive(Clone, Copy, Debug, PartialEq, Eq, Structural)]
pub enum Ez1mRequest {
    /// Switch the inverter off.
    TurnOff,
    /// Switch it on and set its maximum power parameter to this value.
    TurnOnWithMaxPower(u64),
}

/// Below this setting, in watts, an EZ1M inverter is switched off.
pub const EZ1M_MIN_WATTS: u32 = 30;

/// An EZ1M inverter is switched off below 30 W; otherwise switched on with
/// its power parameter at twice the watts.
pub fn ez1m_request(target: u32) -> (r: Ez1mRequest)
    ensures
        r == if target < EZ1M_MIN_WATTS {
            Ez1mRequest::TurnOff
        } else {
            Ez1mRequest::TurnOnWithMaxPower((2 * target) as u64)
        },
{
    if target < EZ1M_MIN_WATTS {
        Ez1mRequest::TurnOff
    } else {
        Ez1mRequest::TurnOnWithMaxPower(2 * target as u64)
    }
}

/// Marstek battery registers.
pub const MARSTEK_STATE: u16 = 0xa41a;
pub const MARSTEK_FORCIBLE_CHARGE_WATTS: u16 = 0xa424;
pub const MARSTEK_FORCIBLE_DISCHARGE_WATTS: u16 = 0xa425;
pub const MARSTEK_STATE_CHARGE: u16 = 1;
pub const MARSTEK_STATE_DISCHARGE: u16 = 2;

/// `x` narrowed to `u16`, saturating.
pub open spec fn saturate_u16(x: int) -> int {
    if x > u16::MAX {
        u16::MAX as int
    } else {
        x
    }
}

/// The register writes, in order, that set a Marstek battery to charge
/// (`charge`) or discharge at `target` watts: the state register, then the
/// watts register of that direction, saturated to 16 bits.
pub fn marstek_writes(charge: bool, target: u32) -> (r: Vec<(u16, u16)>)
    ensures
        r@ == if charge {
            seq![
                (MARSTEK_STATE, MARSTEK_STATE_CHARGE),
                (MARSTEK_FORCIBLE_CHARGE_WATTS, saturate_u16(target as int) as u16),
            ]
        } else {
            seq![
                (MARSTEK_STATE, MARSTEK_STATE_DISCHARGE),
                (MARSTEK_FORCIBLE_DISCHARGE_WATTS, saturate_u16(target as int) as u16),
            ]
        },
{
    let w: u16 = if target > 0xffff {
        0xffff
    } else {
        target as u16
    };
    let r = if charge {
        vec![(MARSTEK_STATE, MARSTEK_STATE_CHARGE), (MARSTEK_FORCIBLE_CHARGE_WATTS, w)]
    } else {
        vec![(MARSTEK_STATE, MARSTEK_STATE_DISCHARGE), (MARSTEK_FORCIBLE_DISCHARGE_WATTS, w)]
    };
    assert(r@ =~= if charge {
        seq![
            (MARSTEK_STATE, MARSTEK_STATE_CHARGE),
            (MARSTEK_FORCIBLE_CHARGE_WATTS, saturate_u16(target as int) as u16),
        ]
    } else {
        seq![
            (MARSTEK_STATE, MARSTEK_STATE_DISCHARGE),
            (MARSTEK_FORCIBLE_DISCHARGE_WATTS, saturate_u16(target as int) as u16),
        ]
    });
    r
}

/// RD6006 power supply registers.
pub const RD6006_SET_CURRENT: u16 = 0x09;
pub const RD6006_SET_OUTPUT_STATE: u16 = 0x12;
pub const RD6006_SET_CONSTANT_CURRENT_MODE: u16 = 0x12;
pub const RD6006_SET_VOLTAGE_PROTECTION: u16 = 0x52;

/// The current setting of an RD6006 supply for `watts` at its final voltage,
/// given in hundredths of a volt: `watts * 1000 / (voltage * 10)`.
pub open spec fn rd6006_current(watts: int, final_voltage_hundredth_volts: int) -> int {
    (watts * 1000) / (final_voltage_hundredth_volts * 10)
}

/// The register writes, in order, that set an RD6006 supply to `target` watts:
/// its output off for 0 W; otherwise the constant current (the current
/// setting times 1000, saturated to 16 bits), constant-current mode, the
/// voltage protection at the final voltage (saturated), and its output on.
pub fn rd6006_writes(target: u32, final_voltage_hundredth_volts: u32) -> (r: Vec<(u16, u16)>)
    requires
        final_voltage_hundredth_volts > 0,
    ensures
        r@ == if target == 0 {
            seq![(RD6006_SET_OUTPUT_STATE, 0u16)]
        } else {
            seq![
                (RD6006_SET_CURRENT, saturate_u16(rd6006_current(target as int, final_voltage_hundredth_volts as int) * 1000) as u16),
                (RD6006_SET_CONSTANT_CURRENT_MODE, 1u16),
                (RD6006_SET_VOLTAGE_PROTECTION, saturate_u16(final_voltage_hundredth_volts as int) as u16),
                (RD6006_SET_OUTPUT_STATE, 1u16),
            ]
        },
{
    if target == 0 {
        let r = vec![(RD6006_SET_OUTPUT_STATE, 0u16)];
        assert(r@ =~= seq![(RD6006_SET_OUTPUT_STATE, 0u16)]);
        return r;
    }
    let current: u64 = (target as u64 * 1000) / (final_voltage_hundredth_volts as u64 * 10);
    let micro: u64 = current * 1000;
    let c: u16 = if micro > 0xffff {
        0xffff
    } else {
        micro as u16
    };
    let v: u16 = if final_voltage_hundredth_volts > 0xffff {
        0xffff
    } else {
        final_voltage_hundredth_volts as u16
    };
    let r = vec![
        (RD6006_SET_CURRENT, c),
        (RD6006_SET_CONSTANT_CURRENT_MODE, 1u16),
        (RD6006_SET_VOLTAGE_PROTECTION, v),
        (RD6006_SET_OUTPUT_STATE, 1u16),
    ];
    assert(r@ =~= seq![
        (RD6006_SET_CURRENT, saturate_u16(rd6006_current(target as int, final_voltage_hundredth_volts as int) * 1000) as u16),
        (RD6006_SET_CONSTANT_CURRENT_MODE, 1u16),
        (RD6006_SET_VOLTAGE_PROTECTION, saturate_u16(final_voltage_hundredth_volts as int) as u16),
        (RD6006_SET_OUTPUT_STATE, 1u16),
    ]);
    r
}

} // verus!
