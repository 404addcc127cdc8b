use vstd::prelude::*;

use crate::text::{chars_of, parse_unsigned, range_is, trim, trim_range, unsigned_value};

verus! {

/// The frequency governor of the processor.
#[derive(Clone, Copy, Debug, PartialEq, Eq, Structural)]
pub enum CPUFreq {
    Performance,
    Powersave,
    Userspace,
    Ondemand,
    Conservative,
    Schedutil,
    Unknown,
}

impl CPUFreq {
    /// The label shown for this governor.
    pub open spec fn spec_label(self) -> Seq<char> {
        match self {
            CPUFreq::Performance => "performance"@,
            CPUFreq::Powersave => "powersave"@,
            CPUFreq::Userspace => "userspace"@,
            CPUFreq::Ondemand => "Ondemand"@,
            CPUFreq::Conservative => "conservative"@,
            CPUFreq::Schedutil => "schedutil"@,
            CPUFreq::Unknown => "unknown"@,
        }
    }

    /// The governor the kernel calls `s`; `Unknown` for any other name.
    pub open spec fn spec_from_name(s: Seq<char>) -> CPUFreq {
        if s == "performance"@ {
            CPUFreq::Performance
        } else if s == "powersave"@ {
            CPUFreq::Powersave
        } else if s == "userspace"@ {
            CPUFreq::Userspace
        } else if s == "ondemand"@ {
            CPUFreq::Ondemand
        } else if s == "conservative"@ {
            CPUFreq::Conservative
        } else if s == "schedutil"@ {
            CPUFreq::Schedutil
        } else {
            CPUFreq::Unknown
        }
    }

    pub fn as_str(&self) -> (r: &'static str)
        ensures
            r@ == self.spec_label(),
    {
        match self {
            CPUFreq::Performance => "performance",
            CPUFreq::Powersave => "powersave",
            CPUFreq::Userspace => "userspace",
            CPUFreq::Ondemand => "Ondemand",
            CPUFreq::Conservative => "conservative",
            CPUFreq::Schedutil => "schedutil",
            CPUFreq::Unknown => "unknown",
        }
    }

    pub fn from_str(governor: &str) -> (r: CPUFreq)
        ensures
            r == CPUFreq::spec_from_name(governor@),
    {
        let v = chars_of(governor);
        assert(v@.subrange(0, v.len() as int) =~= v@);
        governor_in(&v, 0, v.len())
    }

    /// The governor that the kernel's governor file names, blanks at either end left out.
    pub fn from_file_text(text: &str) -> (r: CPUFreq)
        ensures
            r == CPUFreq::spec_from_name(trim(text@)),
    {
        let v = chars_of(text);
        let (a, b) = trim_range(&v);
        governor_in(&v, a, b)
    }
}

fn governor_in(s: &Vec<char>, a: usize, b: usize) -> (r: CPUFreq)
    requires
        a <= b <= s.len(),
    ensures
        r == CPUFreq::spec_from_name(s@.subrange(a as int, b as int)),
{
    if range_is(s, a, b, "performance") {
        CPUFreq::Performance
    } else if range_is(s, a, b, "powersave") {
        CPUFreq::Powersave
    } else if range_is(s, a, b, "userspace") {
        CPUFreq::Userspace
    } else if range_is(s, a, b, "ondemand") {
        CPUFreq::Ondemand
    } else if range_is(s, a, b, "conservative") {
        CPUFreq::Conservative
    } else if range_is(s, a, b, "schedutil") {
        CPUFreq::Schedutil
    } else {
        CPUFreq::Unknown
    }
}

/// The number that `s` spells once white space at either end is left out, when it fits
/// in a byte.
pub open spec fn byte_number(s: Seq<char>) -> Option<u8> {
    match unsigned_value(trim(s)) {
        Some(n) => if n <= 255 {
            Some(n as u8)
        } else {
            None
        },
        None => None,
    }
}

fn parse_byte(text: &str) -> (r: Option<u8>)
    ensures
        r == byte_number(text@),
{
    let v = chars_of(text);
    let (a, b) = trim_range(&v);
    match parse_unsigned(&v, a, b, 255) {
        Some(n) => Some(n as u8),
        None => None,
    }
}

/// The battery conservation switch of some laptops.
pub struct LenovoBattery {
    /// Whether conservation mode is on.
    pub saving: bool,
    /// Whether the machine has the switch at all.
    pub lenovo: bool,
}

impl LenovoBattery {
    /// The switch as its control file shows it: absent where there is no such file;
    /// otherwise present, with conservation on exactly where the file holds the number 1.
    pub fn new(conservation_mode: Option<&str>) -> (r: LenovoBattery)
        ensures
            conservation_mode is None ==> !r.lenovo && !r.saving,
            conservation_mode matches Some(t) ==> r.lenovo && r.saving == (byte_number(t@)
                == Some(1u8)),
    {
        match conservation_mode {
            None => LenovoBattery { saving: false, lenovo: false },
            Some(t) => {
                let saving = match parse_byte(t) {
                    Some(n) => n == 1,
                    None => false,
                };
                LenovoBattery { saving, lenovo: true }
            },
        }
    }
}

/// The share of the largest level that `level` is, in percent, rounded down; 0 where the
/// largest level is 0, and at most 255.
pub open spec fn spec_percent(level: u8, max: u8) -> u8 {
    if max == 0 {
        0
    } else if (level as int) * 100 / (max as int) > 255 {
        255
    } else {
        ((level as int) * 100 / (max as int)) as u8
    }
}

/// The level that `percent` of the largest level is, rounded down, at most 255.
pub open spec fn spec_level(percent: u8, max: u8) -> u8 {
    if (max as int) * (percent as int) / 100 > 255 {
        255
    } else {
        ((max as int) * (percent as int) / 100) as u8
    }
}

/// The backlight of the screen.
pub struct BrightNess {
    pub max_brightness: u8,
    /// The brightness in percent of the largest level.
    pub percent: u8,
    /// The directory of the backlight device.
    pub bright_device: String,
}

impl BrightNess {
    /// A backlight from its device directory and the levels its files hold.
    pub fn new(bright_device: String, brightness: u8, max_brightness: u8) -> (r: BrightNess)
        ensures
            r.max_brightness == max_brightness,
            r.percent == spec_percent(brightness, max_brightness),
            r.bright_device@ == bright_device@,
    {
        let percent = if max_brightness == 0 {
            0
        } else {
            let p = brightness as u32 * 100 / max_brightness as u32;
            if p > 255 {
                255
            } else {
                p as u8
            }
        };
        BrightNess { max_brightness, percent, bright_device }
    }

    /// The level a brightness file holds: the number it spells, or 0 when it spells none
    /// that fits in a byte.
    pub fn get_num_from_file(text: &str) -> (r: u8)
        ensures
            r == match byte_number(text@) {
                Some(n) => n,
                None => 0,
            },
    {
        match parse_byte(text) {
            Some(n) => n,
            None => 0,
        }
    }

    /// The level to write so that the backlight shows the chosen percentage.
    pub fn level(&self) -> (r: u8)
        ensures
            r == spec_level(self.percent, self.max_brightness),
    {
        let m = self.max_brightness as u32;
        let p = self.percent as u32;
        assert(m * p <= 255 * 255) by (nonlinear_arith)
            requires
                m <= 255,
                p <= 255,
        ;
        let l = m * p / 100;
        if l > 255 {
            255
        } else {
            l as u8
        }
    }
}

/// Brightness, battery conservation and processor governor.
pub struct Power {
    pub brightness: BrightNess,
    pub lenovo: LenovoBattery,
    pub cpufreq: CPUFreq,
}

impl Power {
    pub fn new(brightness: BrightNess, lenovo: LenovoBattery, cpufreq: CPUFreq) -> (r: Power)
        ensures
            r.brightness == brightness,
            r.lenovo == lenovo,
            r.cpufreq == cpufreq,
    {
        Power { brightness, lenovo, cpufreq }
    }
}

} // verus!
