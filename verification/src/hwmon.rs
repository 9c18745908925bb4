//! The fans and the power sensors of the hardware monitor.

use vstd::prelude::*;

use crate::number;
use crate::text;

verus! {

/// What was read of a device: its name, and the texts of its fan and power
/// inputs, the first one being number 1. Inputs with a number above
/// [`INPUTS`] do not count.
pub struct HwmonDevice {
    pub name: Option<String>,
    pub fans: Vec<Option<String>>,
    pub powers: Vec<Option<String>>,
}

/// How many fan inputs and how many power inputs a device can have.
pub const INPUTS: usize = 10;

/// A value that a sensor tells.
#[derive(Debug)]
pub enum SensorValue {
    /// The speed of a fan, with its unit.
    Fan(String),
    /// A power in microwatts.
    Power(u64),
}

/// What a [`SensorValue`] says.
pub enum Value {
    Fan(Seq<char>),
    Power(u64),
}

impl View for SensorValue {
    type V = Value;

    open spec fn view(&self) -> Value {
        match *self {
            SensorValue::Fan(speed) => Value::Fan(speed@),
            SensorValue::Power(microwatts) => Value::Power(microwatts),
        }
    }
}

/// What a list of sensors holds.
pub open spec fn sensors_of(v: Seq<(String, SensorValue)>) -> Seq<(Seq<char>, Value)> {
    v.map_values(|sensor: (String, SensorValue)| (sensor.0@, sensor.1@))
}

/// The name of a device; `unknown` if it tells none.
pub open spec fn device_name(name: Option<String>) -> Seq<char> {
    match name {
        Some(told) => text::trimmed(told@),
        None => "unknown"@,
    }
}

/// The label of a sensor: the device, the kind of sensor and its number.
pub open spec fn sensor_label(device: Seq<char>, kind: Seq<char>, n: nat) -> Seq<char> {
    device + " "@ + kind + number::decimal(n)
}

/// The number in an input of a sensor.
pub open spec fn input_value(input: Option<String>, max: nat) -> Option<nat> {
    match input {
        Some(told) => number::spelled_up_to(text::trimmed(told@), max),
        None => None,
    }
}

/// The first `n` fans of a device, those without a number left out.
pub open spec fn fans_of(device: HwmonDevice, n: nat) -> Seq<(Seq<char>, Value)>
    decreases n,
{
    if n == 0 {
        seq![]
    } else {
        let before = fans_of(device, (n - 1) as nat);
        match input_value(device.fans@[n - 1], u32::MAX as nat) {
            Some(rpm) => before.push(
                (
                    sensor_label(device_name(device.name), "Fan"@, n),
                    Value::Fan(number::decimal(rpm) + " RPM"@),
                ),
            ),
            None => before,
        }
    }
}

/// The first `n` power sensors of a device, those without a number left out.
pub open spec fn powers_of(device: HwmonDevice, n: nat) -> Seq<(Seq<char>, Value)>
    decreases n,
{
    if n == 0 {
        seq![]
    } else {
        let before = powers_of(device, (n - 1) as nat);
        match input_value(device.powers@[n - 1], u64::MAX as nat) {
            Some(microwatts) => before.push(
                (
                    sensor_label(device_name(device.name), "Power"@, n),
                    Value::Power(microwatts as u64),
                ),
            ),
            None => before,
        }
    }
}

/// How many of `n` inputs count.
pub open spec fn counted(n: nat) -> nat {
    if n <= INPUTS {
        n
    } else {
        INPUTS as nat
    }
}

/// The sensors of a device: its fans, then its power sensors.
pub open spec fn device_sensors(device: HwmonDevice) -> Seq<(Seq<char>, Value)> {
    fans_of(device, counted(device.fans@.len())) + powers_of(device, counted(device.powers@.len()))
}

/// The sensors of the first `n` devices.
pub open spec fn sensors_up_to(devices: Seq<HwmonDevice>, n: nat) -> Seq<(Seq<char>, Value)>
    decreases n,
{
    if n == 0 {
        seq![]
    } else {
        sensors_up_to(devices, (n - 1) as nat) + device_sensors(devices[n - 1])
    }
}

/// The file of an input, such as `fan1_input`.
pub fn input_file(kind: &str, n: u64) -> (res: String)
    ensures
        res@ == kind@ + number::decimal(n as nat) + "_input"@,
{
    let mut digits = String::new();
    number::push_decimal(&mut digits, n);
    assert(digits@ =~= number::decimal(n as nat));
    text::concat3(kind, digits.as_str(), "_input")
}

/// The label of a sensor.
fn label(device: &str, kind: &str, n: u64) -> (res: String)
    ensures
        res@ == sensor_label(device@, kind@, n as nat),
{
    let mut digits = String::new();
    number::push_decimal(&mut digits, n);
    assert(digits@ =~= number::decimal(n as nat));
    let prefix = text::concat3(device, " ", kind);
    text::concat(prefix.as_str(), digits.as_str())
}

/// Appends the sensors of a device.
fn push_device_sensors(out: &mut Vec<(String, SensorValue)>, device: &HwmonDevice)
    ensures
        sensors_of(final(out)@) == sensors_of(old(out)@) + device_sensors(*device),
{
    let ghost start = sensors_of(out@);
    let name = match &device.name {
        Some(told) => text::trim(told.as_str()),
        None => "unknown".to_string(),
    };
    let mut i: usize = 0;
    assert(start + fans_of(*device, 0) =~= start);
    while i < device.fans.len() && i < INPUTS
        invariant
            i <= counted(device.fans@.len()),
            name@ == device_name(device.name),
            sensors_of(out@) == start + fans_of(*device, i as nat),
        decreases device.fans@.len() - i,
    {
        if let Some(told) = &device.fans[i] {
            if let Some(rpm) = number::parse_u32(text::trim(told.as_str()).as_str()) {
                let mut speed = String::new();
                number::push_decimal(&mut speed, rpm as u64);
                assert(speed@ =~= number::decimal(rpm as nat));
                let speed = text::concat(speed.as_str(), " RPM");
                let label = label(name.as_str(), "Fan", i as u64 + 1);
                let ghost before = out@;
                let ghost entry = (label@, Value::Fan(speed@));
                out.push((label, SensorValue::Fan(speed)));
                assert(sensors_of(out@) =~= sensors_of(before).push(entry));
                assert(sensors_of(out@) =~= start + fans_of(*device, i as nat + 1));
            }
        }
        i += 1;
    }
    let ghost with_fans = sensors_of(out@);
    let mut k: usize = 0;
    assert(with_fans + powers_of(*device, 0) =~= with_fans);
    while k < device.powers.len() && k < INPUTS
        invariant
            k <= counted(device.powers@.len()),
            name@ == device_name(device.name),
            sensors_of(out@) == with_fans + powers_of(*device, k as nat),
        decreases device.powers@.len() - k,
    {
        if let Some(told) = &device.powers[k] {
            if let Some(microwatts) = number::parse_u64(text::trim(told.as_str()).as_str()) {
                let label = label(name.as_str(), "Power", k as u64 + 1);
                let ghost before = out@;
                let ghost entry = (label@, Value::Power(microwatts));
                out.push((label, SensorValue::Power(microwatts)));
                assert(sensors_of(out@) =~= sensors_of(before).push(entry));
                assert(sensors_of(out@) =~= with_fans + powers_of(*device, k as nat + 1));
            }
        }
        k += 1;
    }
    assert(sensors_of(out@) =~= start + device_sensors(*device));
}

/// The fans and the power sensors of the devices, from what was read of them.
pub fn get_hwmon_sensors(devices: &Vec<HwmonDevice>) -> (res: Vec<(String, SensorValue)>)
    ensures
        sensors_of(res@) == sensors_up_to(devices@, devices@.len()),
{
    let mut res: Vec<(String, SensorValue)> = Vec::new();
    let mut i: usize = 0;
    assert(sensors_of(res@) =~= sensors_up_to(devices@, 0));
    while i < devices.len()
        invariant
            i <= devices@.len(),
            sensors_of(res@) == sensors_up_to(devices@, i as nat),
        decreases devices@.len() - i,
    {
        push_device_sensors(&mut res, &devices[i]);
        i += 1;
    }
    res
}

/// The sensors of one kind of a device have different labels.
pub proof fn law_numbers_tell_sensors_apart(device: Seq<char>, kind: Seq<char>, n: nat, m: nat)
    requires
        sensor_label(device, kind, n) == sensor_label(device, kind, m),
    ensures
        n == m,
{
    let prefix = device + " "@ + kind;
    let k = prefix.len() as int;
    assert(number::decimal(n) =~= sensor_label(device, kind, n).skip(k));
    assert(number::decimal(m) =~= sensor_label(device, kind, m).skip(k));
    number::law_decimal_is_injective(n, m);
}

/// A fan and a power sensor of a device have different labels.
pub proof fn law_kinds_tell_sensors_apart(device: Seq<char>, n: nat, m: nat)
    ensures
        sensor_label(device, "Fan"@, n) != sensor_label(device, "Power"@, m),
{
    reveal_strlit(" ");
    reveal_strlit("Fan");
    reveal_strlit("Power");
    let k = device.len() as int + 1;
    assert(sensor_label(device, "Fan"@, n)[k] == 'F');
    assert(sensor_label(device, "Power"@, m)[k] == 'P');
}

/// A number that is written on a line of its own is read back from an input, if
/// it is no larger than the sensor can tell.
pub proof fn law_written_input_is_read(told: String, n: nat, max: nat)
    requires
        told@ == number::decimal(n) + "\n"@,
    ensures
        input_value(Some(told), max) == (if n <= max {
            Some(n)
        } else {
            None
        }),
{
    number::law_written_number_is_read(n, max);
}

/// An input tells the number that it spells, with or without white space around
/// it, if it is no larger than the sensor can tell; any other one tells nothing.
pub proof fn law_inputs_tell_what_they_spell(
    told: String,
    a: Seq<char>,
    s: Seq<char>,
    b: Seq<char>,
    max: nat,
)
    requires
        told@ == a + s + b,
        forall|i: int| 0 <= i < a.len() ==> text::is_whitespace(#[trigger] a[i]),
        forall|i: int| 0 <= i < b.len() ==> text::is_whitespace(#[trigger] b[i]),
        s.len() > 0 ==> !text::is_whitespace(s[0]) && !text::is_whitespace(s[s.len() - 1]),
    ensures
        match number::spelled_nat(s) {
            Some(n) if n <= max => input_value(Some(told), max) == Some(n),
            _ => input_value(Some(told), max) is None,
        },
        input_value(None, max) is None,
        device_name(Some(told)) == s,
        device_name(None) == "unknown"@,
{
    text::law_what_stands_between_space_is_left(a, s, b);
}

/// Each input with a number that the sensor can tell gives a sensor behind those
/// before it, under the name of the device and the number of the input; one
/// without gives none, whatever the others tell.
pub proof fn law_each_input_gives_its_sensor(device: HwmonDevice, n: nat)
    ensures
        fans_of(device, 0) == Seq::<(Seq<char>, Value)>::empty(),
        powers_of(device, 0) == Seq::<(Seq<char>, Value)>::empty(),
        n < device.fans@.len() ==> match input_value(device.fans@[n as int], 0xffff_ffff) {
            Some(rpm) => fans_of(device, n + 1) == fans_of(device, n).push(
                (
                    device_name(device.name) + " Fan"@ + number::decimal(n + 1),
                    Value::Fan(number::decimal(rpm) + " RPM"@),
                ),
            ),
            None => fans_of(device, n + 1) == fans_of(device, n),
        },
        n < device.powers@.len() ==> match input_value(
            device.powers@[n as int],
            0xffff_ffff_ffff_ffff,
        ) {
            Some(microwatts) => powers_of(device, n + 1) == powers_of(device, n).push(
                (
                    device_name(device.name) + " Power"@ + number::decimal(n + 1),
                    Value::Power(microwatts as u64),
                ),
            ),
            None => powers_of(device, n + 1) == powers_of(device, n),
        },
{
    let name = device_name(device.name);
    reveal_strlit(" ");
    reveal_strlit("Fan");
    reveal_strlit(" Fan");
    reveal_strlit("Power");
    reveal_strlit(" Power");
    assert(" "@ + "Fan"@ =~= " Fan"@);
    assert(" "@ + "Power"@ =~= " Power"@);
    assert(sensor_label(name, "Fan"@, n + 1) =~= name + " Fan"@ + number::decimal(n + 1));
    assert(sensor_label(name, "Power"@, n + 1) =~= name + " Power"@ + number::decimal(n + 1));
}

/// A device tells of its first ten fans and then of its first ten power sensors,
/// and the devices tell one behind the other.
pub proof fn law_devices_tell_one_behind_the_other(devices: Seq<HwmonDevice>, n: nat)
    requires
        n < devices.len(),
    ensures
        sensors_up_to(devices, 0) == Seq::<(Seq<char>, Value)>::empty(),
        ({
            let device = devices[n as int];
            let fans: nat = if device.fans@.len() < 10 {
                device.fans@.len()
            } else {
                10
            };
            let powers: nat = if device.powers@.len() < 10 {
                device.powers@.len()
            } else {
                10
            };
            sensors_up_to(devices, n + 1) == sensors_up_to(devices, n) + fans_of(device, fans)
                + powers_of(device, powers)
        }),
{
    let device = devices[n as int];
    assert(sensors_up_to(devices, n + 1) =~= sensors_up_to(devices, n) + fans_of(
        device,
        counted(device.fans@.len()),
    ) + powers_of(device, counted(device.powers@.len())));
}

/// What is told of a list of sensors is what its labels and values are.
pub proof fn law_sensors_hold_what_they_are_made_of(v: Seq<(String, SensorValue)>, i: int)
    ensures
        sensors_of(v).len() == v.len(),
        0 <= i < v.len() ==> sensors_of(v)[i].0 == v[i].0@,
        0 <= i < v.len() ==> match v[i].1 {
            SensorValue::Fan(speed) => sensors_of(v)[i].1 == Value::Fan(speed@),
            SensorValue::Power(microwatts) => sensors_of(v)[i].1 == Value::Power(microwatts),
        },
{
}

} // verus!
