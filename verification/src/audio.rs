//! The master volume: the commands given to each platform's audio tool, the
//! reading of what the tool answers, and the arithmetic of volume changes.
use vstd::prelude::*;
use crate::error::{AudioError, Error, Platform};
use crate::tool::{owned, runs, ToolCommand};
use crate::text::{
    chars_of, decimal, digit, digit_char, has_infix, int_error_message, is_digit, parse_unsigned, lemma_decimal_digits, lemma_decimal_reads,
    parse_unsigned_chars, push_decimal, push_str, read_digits, str_contains, str_equal,
    string_of, string_views, trim, trim_chars, trim_end, trim_start, is_space, lemma_trim_end_cut, occurs_at, IntErrorKind,
};

verus! {

/// The loudest level, in percent, that the volume is set to on a platform.
pub open spec fn max_volume_spec(platform: Platform) -> u32 {
    match platform {
        Platform::Linux => 200,
        _ => 100,
    }
}

/// `vol`, lowered to the platform's loudest level where it is above it.
pub open spec fn bounded_volume(vol: u32, platform: Platform) -> u32 {
    if vol <= max_volume_spec(platform) {
        vol
    } else {
        max_volume_spec(platform)
    }
}

/// The level that a change by `delta` from the level `current` lands on:
/// `current` is first bounded, the sum is then held between zero and the
/// loudest level.
pub open spec fn step_target(current: u32, delta: int, platform: Platform) -> int {
    let t = bounded_volume(current, platform) + delta;
    if t < 0 {
        0
    } else if t > max_volume_spec(platform) {
        max_volume_spec(platform) as int
    } else {
        t
    }
}

/// The start of the PowerShell scripts, which fetch the default output's
/// volume control into `$w`.
pub open spec fn endpoint_prefix() -> Seq<char> {
    "$w=(New-Object -ComObject MMDeviceEnumerator).GetDefaultAudioEndpoint(0,0).AudioEndpointVolume; "@
}

/// The text with which `(v as f32) / 100.0` is shown, for `v <= 100`: the
/// decimal fraction `v / 100` without trailing zeros.
pub open spec fn scalar_text(v: nat) -> Seq<char> {
    if v == 0 {
        "0"@
    } else if v == 100 {
        "1"@
    } else if v % 10 == 0 {
        "0."@ + seq![digit_char(v / 10)]
    } else {
        "0."@ + seq![digit_char(v / 10), digit_char(v % 10)]
    }
}

/// The command that reports the volume on a platform.
pub open spec fn get_volume_command_spec(platform: Platform) -> Option<
    (Seq<char>, Seq<Seq<char>>),
> {
    match platform {
        Platform::Linux => Some(("pactl"@, seq!["get-sink-volume"@, "@DEFAULT_SINK@"@])),
        Platform::MacOs => Some(
            ("osascript"@, seq!["-e"@, "output volume of (get volume settings)"@]),
        ),
        Platform::Windows => Some(
            (
                "powershell"@,
                seq![
                    "-Command"@,
                    endpoint_prefix() + "[int]($w.GetMasterVolumeLevelScalar() * 100)"@,
                ],
            ),
        ),
        Platform::Other => None,
    }
}

/// The command that sets the volume to `vol` (bounded) on a platform.
pub open spec fn set_volume_command_spec(vol: u32, platform: Platform) -> Option<
    (Seq<char>, Seq<Seq<char>>),
> {
    let v = bounded_volume(vol, platform) as nat;
    match platform {
        Platform::Linux => Some(
            ("pactl"@, seq!["set-sink-volume"@, "@DEFAULT_SINK@"@, decimal(v) + "%"@]),
        ),
        Platform::MacOs => Some(
            ("osascript"@, seq!["-e"@, "set volume output volume "@ + decimal(v)]),
        ),
        Platform::Windows => Some(
            (
                "powershell"@,
                seq![
                    "-Command"@,
                    endpoint_prefix() + "$w.SetMasterVolumeLevelScalar("@ + scalar_text(v)
                        + ", $null)"@,
                ],
            ),
        ),
        Platform::Other => None,
    }
}

/// The command that reports whether the output is muted on a platform.
pub open spec fn get_mute_command_spec(platform: Platform) -> Option<
    (Seq<char>, Seq<Seq<char>>),
> {
    match platform {
        Platform::Linux => Some(("pactl"@, seq!["get-sink-mute"@, "@DEFAULT_SINK@"@])),
        Platform::MacOs => Some(
            ("osascript"@, seq!["-e"@, "output muted of (get volume settings)"@]),
        ),
        Platform::Windows => Some(
            ("powershell"@, seq!["-Command"@, endpoint_prefix() + "$w.Mute"@]),
        ),
        Platform::Other => None,
    }
}

/// The command that mutes (`mute`) or unmutes the output on a platform.
pub open spec fn set_mute_command_spec(mute: bool, platform: Platform) -> Option<
    (Seq<char>, Seq<Seq<char>>),
> {
    match platform {
        Platform::Linux => Some(
            (
                "pactl"@,
                seq![
                    "set-sink-mute"@,
                    "@DEFAULT_SINK@"@,
                    if mute {
                        "1"@
                    } else {
                        "0"@
                    },
                ],
            ),
        ),
        Platform::MacOs => Some(
            (
                "osascript"@,
                seq![
                    "-e"@,
                    "set volume muted "@ + if mute {
                        "true"@
                    } else {
                        "false"@
                    },
                ],
            ),
        ),
        Platform::Windows => Some(
            (
                "powershell"@,
                seq![
                    "-Command"@,
                    endpoint_prefix() + "$w.SetMute("@ + (if mute {
                        "$true"@
                    } else {
                        "$false"@
                    }) + ", $null)"@,
                ],
            ),
        ),
        Platform::Other => None,
    }
}

/// The command of `spec` as a result: `UnsupportedOS` where there is none.
pub open spec fn command_result(r: Result<ToolCommand, AudioError>, spec: Option<
    (Seq<char>, Seq<Seq<char>>),
>) -> bool {
    match spec {
        Some(c) => r matches Ok(t) && runs(t, c.0, c.1),
        None => r == Err::<ToolCommand, AudioError>(AudioError::UnsupportedOS),
    }
}

/// Why the answer of an audio tool gives no reading.
#[derive(Debug, Clone, Copy, PartialEq, Eq, Structural)]
pub enum ReadError {
    /// No volume level could be found in the answer.
    NoLevel,
    /// The level is not a number that fits in a `u32`.
    Number(IntErrorKind),
    /// The platform has no audio tool.
    UnsupportedOS,
}

/// The decimal digits of Unicode (general category `Nd`, as of Unicode
/// 14), the characters that `\d` matches in a pattern: runs of ten, `0` to
/// `9` among them.
pub open spec fn is_decimal_digit(c: char) -> bool {
    let u = c as u32;
    ||| (0x30 <= u && u <= 0x39)
    ||| (0x660 <= u && u <= 0x669)
    ||| (0x6f0 <= u && u <= 0x6f9)
    ||| (0x7c0 <= u && u <= 0x7c9)
    ||| (0x966 <= u && u <= 0x96f)
    ||| (0x9e6 <= u && u <= 0x9ef)
    ||| (0xa66 <= u && u <= 0xa6f)
    ||| (0xae6 <= u && u <= 0xaef)
    ||| (0xb66 <= u && u <= 0xb6f)
    ||| (0xbe6 <= u && u <= 0xbef)
    ||| (0xc66 <= u && u <= 0xc6f)
    ||| (0xce6 <= u && u <= 0xcef)
    ||| (0xd66 <= u && u <= 0xd6f)
    ||| (0xde6 <= u && u <= 0xdef)
    ||| (0xe50 <= u && u <= 0xe59)
    ||| (0xed0 <= u && u <= 0xed9)
    ||| (0xf20 <= u && u <= 0xf29)
    ||| (0x1040 <= u && u <= 0x1049)
    ||| (0x1090 <= u && u <= 0x1099)
    ||| (0x17e0 <= u && u <= 0x17e9)
    ||| (0x1810 <= u && u <= 0x1819)
    ||| (0x1946 <= u && u <= 0x194f)
    ||| (0x19d0 <= u && u <= 0x19d9)
    ||| (0x1a80 <= u && u <= 0x1a89)
    ||| (0x1a90 <= u && u <= 0x1a99)
    ||| (0x1b50 <= u && u <= 0x1b59)
    ||| (0x1bb0 <= u && u <= 0x1bb9)
    ||| (0x1c40 <= u && u <= 0x1c49)
    ||| (0x1c50 <= u && u <= 0x1c59)
    ||| (0xa620 <= u && u <= 0xa629)
    ||| (0xa8d0 <= u && u <= 0xa8d9)
    ||| (0xa900 <= u && u <= 0xa909)
    ||| (0xa9d0 <= u && u <= 0xa9d9)
    ||| (0xa9f0 <= u && u <= 0xa9f9)
    ||| (0xaa50 <= u && u <= 0xaa59)
    ||| (0xabf0 <= u && u <= 0xabf9)
    ||| (0xff10 <= u && u <= 0xff19)
    ||| (0x104a0 <= u && u <= 0x104a9)
    ||| (0x10d30 <= u && u <= 0x10d39)
    ||| (0x11066 <= u && u <= 0x1106f)
    ||| (0x110f0 <= u && u <= 0x110f9)
    ||| (0x11136 <= u && u <= 0x1113f)
    ||| (0x111d0 <= u && u <= 0x111d9)
    ||| (0x112f0 <= u && u <= 0x112f9)
    ||| (0x11450 <= u && u <= 0x11459)
    ||| (0x114d0 <= u && u <= 0x114d9)
    ||| (0x11650 <= u && u <= 0x11659)
    ||| (0x116c0 <= u && u <= 0x116c9)
    ||| (0x11730 <= u && u <= 0x11739)
    ||| (0x118e0 <= u && u <= 0x118e9)
    ||| (0x11950 <= u && u <= 0x11959)
    ||| (0x11c50 <= u && u <= 0x11c59)
    ||| (0x11d50 <= u && u <= 0x11d59)
    ||| (0x11da0 <= u && u <= 0x11da9)
    ||| (0x16a60 <= u && u <= 0x16a69)
    ||| (0x16ac0 <= u && u <= 0x16ac9)
    ||| (0x16b50 <= u && u <= 0x16b59)
    ||| (0x1d7ce <= u && u <= 0x1d7d7)
    ||| (0x1d7d8 <= u && u <= 0x1d7e1)
    ||| (0x1d7e2 <= u && u <= 0x1d7eb)
    ||| (0x1d7ec <= u && u <= 0x1d7f5)
    ||| (0x1d7f6 <= u && u <= 0x1d7ff)
    ||| (0x1e140 <= u && u <= 0x1e149)
    ||| (0x1e2f0 <= u && u <= 0x1e2f9)
    ||| (0x1e950 <= u && u <= 0x1e959)
    ||| (0x1fbf0 <= u && u <= 0x1fbf9)
}

/// Whether `c` is a decimal digit of Unicode.
pub fn is_decimal_digit_exec(c: char) -> (r: bool)
    ensures
        r == is_decimal_digit(c),
{
    let u = c as u32;
    (0x30 <= u && u <= 0x39) || (0x660 <= u && u <= 0x669) || (0x6f0 <= u && u <= 0x6f9) ||
        (0x7c0 <= u && u <= 0x7c9) || (0x966 <= u && u <= 0x96f) || (0x9e6 <= u && u <= 0x9ef) ||
        (0xa66 <= u && u <= 0xa6f) || (0xae6 <= u && u <= 0xaef) || (0xb66 <= u && u <= 0xb6f) ||
        (0xbe6 <= u && u <= 0xbef) || (0xc66 <= u && u <= 0xc6f) || (0xce6 <= u && u <= 0xcef) ||
        (0xd66 <= u && u <= 0xd6f) || (0xde6 <= u && u <= 0xdef) || (0xe50 <= u && u <= 0xe59) ||
        (0xed0 <= u && u <= 0xed9) || (0xf20 <= u && u <= 0xf29) || (0x1040 <= u && u <= 0x1049) ||
        (0x1090 <= u && u <= 0x1099) || (0x17e0 <= u && u <= 0x17e9) ||
        (0x1810 <= u && u <= 0x1819) || (0x1946 <= u && u <= 0x194f) ||
        (0x19d0 <= u && u <= 0x19d9) || (0x1a80 <= u && u <= 0x1a89) ||
        (0x1a90 <= u && u <= 0x1a99) || (0x1b50 <= u && u <= 0x1b59) ||
        (0x1bb0 <= u && u <= 0x1bb9) || (0x1c40 <= u && u <= 0x1c49) ||
        (0x1c50 <= u && u <= 0x1c59) || (0xa620 <= u && u <= 0xa629) ||
        (0xa8d0 <= u && u <= 0xa8d9) || (0xa900 <= u && u <= 0xa909) ||
        (0xa9d0 <= u && u <= 0xa9d9) || (0xa9f0 <= u && u <= 0xa9f9) ||
        (0xaa50 <= u && u <= 0xaa59) || (0xabf0 <= u && u <= 0xabf9) ||
        (0xff10 <= u && u <= 0xff19) || (0x104a0 <= u && u <= 0x104a9) ||
        (0x10d30 <= u && u <= 0x10d39) || (0x11066 <= u && u <= 0x1106f) ||
        (0x110f0 <= u && u <= 0x110f9) || (0x11136 <= u && u <= 0x1113f) ||
        (0x111d0 <= u && u <= 0x111d9) || (0x112f0 <= u && u <= 0x112f9) ||
        (0x11450 <= u && u <= 0x11459) || (0x114d0 <= u && u <= 0x114d9) ||
        (0x11650 <= u && u <= 0x11659) || (0x116c0 <= u && u <= 0x116c9) ||
        (0x11730 <= u && u <= 0x11739) || (0x118e0 <= u && u <= 0x118e9) ||
        (0x11950 <= u && u <= 0x11959) || (0x11c50 <= u && u <= 0x11c59) ||
        (0x11d50 <= u && u <= 0x11d59) || (0x11da0 <= u && u <= 0x11da9) ||
        (0x16a60 <= u && u <= 0x16a69) || (0x16ac0 <= u && u <= 0x16ac9) ||
        (0x16b50 <= u && u <= 0x16b59) || (0x1d7ce <= u && u <= 0x1d7d7) ||
        (0x1d7d8 <= u && u <= 0x1d7e1) || (0x1d7e2 <= u && u <= 0x1d7eb) ||
        (0x1d7ec <= u && u <= 0x1d7f5) || (0x1d7f6 <= u && u <= 0x1d7ff) ||
        (0x1e140 <= u && u <= 0x1e149) || (0x1e2f0 <= u && u <= 0x1e2f9) ||
        (0x1e950 <= u && u <= 0x1e959) || (0x1fbf0 <= u && u <= 0x1fbf9)
}

/// The number of decimal digits at the start of `s`.
pub open spec fn digit_run(s: Seq<char>) -> nat
    decreases s.len(),
{
    if s.len() > 0 && is_decimal_digit(s[0]) {
        1 + digit_run(s.drop_first())
    } else {
        0
    }
}

/// The digits of the first match of the pattern `(\d+)%` in `s`: at the
/// leftmost position where a run of decimal digits starts that is followed
/// by `%`, that whole run.
pub open spec fn percent_digits(s: Seq<char>) -> Option<Seq<char>>
    decreases s.len(),
{
    if s.len() == 0 {
        None
    } else if 0 < digit_run(s) < s.len() && s[digit_run(s) as int] == '%' {
        Some(s.take(digit_run(s) as int))
    } else {
        percent_digits(s.drop_first())
    }
}

/// The number that `s` spells as a `u32`, or why it does not.
pub open spec fn read_u32(s: Seq<char>) -> Result<u32, ReadError> {
    match parse_unsigned(s, u32::MAX as nat) {
        Ok(v) => Ok(v as u32),
        Err(k) => Err(ReadError::Number(k)),
    }
}

/// The level that a platform's tool reports in `stdout`: `pactl` shows it
/// as a percentage among other figures, `osascript` and PowerShell print
/// the bare number. A PowerShell answer that is no number counts as no level.
pub open spec fn reported_level(stdout: Seq<char>, platform: Platform) -> Result<u32, ReadError> {
    match platform {
        Platform::Linux => match percent_digits(stdout) {
            Some(d) => read_u32(d),
            None => Err(ReadError::NoLevel),
        },
        Platform::MacOs => read_u32(trim(stdout)),
        Platform::Windows => match read_u32(trim(stdout)) {
            Ok(v) => Ok(v),
            Err(_) => Err(ReadError::NoLevel),
        },
        Platform::Other => Err(ReadError::UnsupportedOS),
    }
}

/// The volume read from a platform's tool: the reported level, lowered to
/// the platform's loudest level (200% on Linux, 100% elsewhere) where the
/// tool reports more.
pub open spec fn volume_reading(stdout: Seq<char>, platform: Platform) -> Result<u32, ReadError> {
    match reported_level(stdout, platform) {
        Ok(v) => Ok(bounded_volume(v, platform)),
        Err(e) => Err(e),
    }
}

/// Whether a platform's tool reports the output as muted in `stdout`.
pub open spec fn mute_reading(stdout: Seq<char>, platform: Platform) -> Result<bool, ReadError> {
    match platform {
        Platform::Linux => Ok(has_infix(stdout, "yes"@)),
        Platform::MacOs => Ok(trim(stdout) == "true"@),
        Platform::Windows => Ok(trim(stdout) == "True"@),
        Platform::Other => Err(ReadError::UnsupportedOS),
    }
}

/// The text with which a device lookup failure is shown.
pub open spec fn devices_not_found_text() -> Seq<char> {
    "Audio devices not found"@
}

impl ReadError {
    /// The library error that a failed volume or mute reading is reported
    /// as: a missing level as a failed volume query because no device was
    /// found, a bad number by the message of the number's parse error.
    pub fn into_error(self) -> (r: Error)
        ensures
            match self {
                ReadError::NoLevel => r matches Error::AudioError(b) && (*b matches AudioError::GetVolume(m)
                    && m@ == devices_not_found_text()),
                ReadError::Number(k) => r matches Error::Msg(m) && m@ == int_error_message(k),
                ReadError::UnsupportedOS => r == Error::AudioError(
                    Box::new(AudioError::UnsupportedOS),
                ),
            },
    {
        match self {
            ReadError::NoLevel => Error::AudioError(
                Box::new(AudioError::GetVolume(owned("Audio devices not found"))),
            ),
            ReadError::Number(k) => Error::Msg(owned(k.message())),
            ReadError::UnsupportedOS => Error::AudioError(Box::new(AudioError::UnsupportedOS)),
        }
    }
}

/// What a change of the volume comes to: the level it lands on, and
/// whether that level differs from the bounded current one, so that the
/// volume has to be set.
#[derive(Debug, Clone, Copy, PartialEq, Eq, Structural)]
pub struct VolumeStep {
    pub target: u32,
    pub apply: bool,
}

/// The audio volume manager.
#[derive(Debug)]
pub struct AudioControl;

impl AudioControl {
    /// The loudest level, in percent: 200 on Linux, 100 elsewhere.
    pub fn max_volume(platform: Platform) -> (r: u32)
        ensures
            r == max_volume_spec(platform),
    {
        match platform {
            Platform::Linux => 200,
            _ => 100,
        }
    }

    /// `vol`, lowered to the loudest level where it is above it.
    pub fn bound_volume(vol: u32, platform: Platform) -> (r: u32)
        ensures
            r == bounded_volume(vol, platform),
    {
        let max = Self::max_volume(platform);
        if vol <= max {
            vol
        } else {
            max
        }
    }

    /// The change of the volume by `delta` from the reported level
    /// `current`. The sum of the bounded level and `delta` must fit in an
    /// `i32`, as the computation of it does.
    pub fn volume_step(current: u32, delta: i32, platform: Platform) -> (r: VolumeStep)
        requires
            bounded_volume(current, platform) + delta <= i32::MAX,
        ensures
            r.target == step_target(current, delta as int, platform),
            r.apply == (r.target != bounded_volume(current, platform)),
    {
        let max = Self::max_volume(platform);
        let c = Self::bound_volume(current, platform);
        let sum: i32 = c as i32 + delta;
        let target: u32 = if sum < 0 {
            0
        } else if sum > max as i32 {
            max
        } else {
            sum as u32
        };
        VolumeStep { target, apply: target != c }
    }

    /// The change of the volume up by `add` from the reported level
    /// `current`: the bounded level plus `add`, held at the loudest level.
    pub fn increase_step(current: u32, add: u32, platform: Platform) -> (r: VolumeStep)
        ensures
            r.target == step_target(current, add as int, platform),
            r.apply == (r.target != bounded_volume(current, platform)),
    {
        let max = Self::max_volume(platform);
        let c = Self::bound_volume(current, platform);
        let target: u32 = if add >= max - c {
            max
        } else {
            c + add
        };
        VolumeStep { target, apply: target != c }
    }

    /// The change of the volume down by `reduce` from the reported level
    /// `current`: the bounded level minus `reduce`, held at zero.
    pub fn decrease_step(current: u32, reduce: u32, platform: Platform) -> (r: VolumeStep)
        ensures
            r.target == step_target(current, -(reduce as int), platform),
            r.apply == (r.target != bounded_volume(current, platform)),
    {
        let c = Self::bound_volume(current, platform);
        let target: u32 = if reduce >= c {
            0
        } else {
            c - reduce
        };
        VolumeStep { target, apply: target != c }
    }

    /// The command that reports the volume.
    pub fn get_volume_command(platform: Platform) -> (r: Result<ToolCommand, AudioError>)
        ensures
            command_result(r, get_volume_command_spec(platform)),
    {
        let mut args: Vec<String> = Vec::new();
        let program = match platform {
            Platform::Linux => {
                args.push(owned("get-sink-volume"));
                args.push(owned("@DEFAULT_SINK@"));
                owned("pactl")
            },
            Platform::MacOs => {
                args.push(owned("-e"));
                args.push(owned("output volume of (get volume settings)"));
                owned("osascript")
            },
            Platform::Windows => {
                let mut script = owned(
                    "$w=(New-Object -ComObject MMDeviceEnumerator).GetDefaultAudioEndpoint(0,0).AudioEndpointVolume; ",
                );
                push_str(&mut script, "[int]($w.GetMasterVolumeLevelScalar() * 100)");
                args.push(owned("-Command"));
                args.push(script);
                owned("powershell")
            },
            Platform::Other => {
                return Err(AudioError::UnsupportedOS);
            },
        };
        let r = ToolCommand { program, args };
        assert(string_views(r.args@) =~= get_volume_command_spec(platform).unwrap().1);
        Ok(r)
    }

    /// The command that sets the volume to `vol`, lowered to the loudest
    /// level where it is above it.
    pub fn set_volume_command(vol: u32, platform: Platform) -> (r: Result<ToolCommand, AudioError>)
        ensures
            command_result(r, set_volume_command_spec(vol, platform)),
    {
        let v = Self::bound_volume(vol, platform);
        let mut args: Vec<String> = Vec::new();
        let program = match platform {
            Platform::Linux => {
                let mut level = String::new();
                push_decimal(&mut level, v as u128);
                push_str(&mut level, "%");
                args.push(owned("set-sink-volume"));
                args.push(owned("@DEFAULT_SINK@"));
                args.push(level);
                owned("pactl")
            },
            Platform::MacOs => {
                let mut script = owned("set volume output volume ");
                push_decimal(&mut script, v as u128);
                args.push(owned("-e"));
                args.push(script);
                owned("osascript")
            },
            Platform::Windows => {
                let mut script = owned(
                    "$w=(New-Object -ComObject MMDeviceEnumerator).GetDefaultAudioEndpoint(0,0).AudioEndpointVolume; ",
                );
                push_str(&mut script, "$w.SetMasterVolumeLevelScalar(");
                push_scalar(&mut script, v);
                push_str(&mut script, ", $null)");
                args.push(owned("-Command"));
                args.push(script);
                owned("powershell")
            },
            Platform::Other => {
                return Err(AudioError::UnsupportedOS);
            },
        };
        let r = ToolCommand { program, args };
        assert(string_views(r.args@) =~= set_volume_command_spec(vol, platform).unwrap().1);
        Ok(r)
    }

    /// The command that reports whether the output is muted.
    pub fn get_mute_command(platform: Platform) -> (r: Result<ToolCommand, AudioError>)
        ensures
            command_result(r, get_mute_command_spec(platform)),
    {
        let mut args: Vec<String> = Vec::new();
        let program = match platform {
            Platform::Linux => {
                args.push(owned("get-sink-mute"));
                args.push(owned("@DEFAULT_SINK@"));
                owned("pactl")
            },
            Platform::MacOs => {
                args.push(owned("-e"));
                args.push(owned("output muted of (get volume settings)"));
                owned("osascript")
            },
            Platform::Windows => {
                let mut script = owned(
                    "$w=(New-Object -ComObject MMDeviceEnumerator).GetDefaultAudioEndpoint(0,0).AudioEndpointVolume; ",
                );
                push_str(&mut script, "$w.Mute");
                args.push(owned("-Command"));
                args.push(script);
                owned("powershell")
            },
            Platform::Other => {
                return Err(AudioError::UnsupportedOS);
            },
        };
        let r = ToolCommand { program, args };
        assert(string_views(r.args@) =~= get_mute_command_spec(platform).unwrap().1);
        Ok(r)
    }

    /// The command that mutes (`mute`) or unmutes the output.
    pub fn set_mute_command(mute: bool, platform: Platform) -> (r: Result<ToolCommand, AudioError>)
        ensures
            command_result(r, set_mute_command_spec(mute, platform)),
    {
        let mut args: Vec<String> = Vec::new();
        let program = match platform {
            Platform::Linux => {
                args.push(owned("set-sink-mute"));
                args.push(owned("@DEFAULT_SINK@"));
                args.push(
                    if mute {
                        owned("1")
                    } else {
                        owned("0")
                    },
                );
                owned("pactl")
            },
            Platform::MacOs => {
                let mut script = owned("set volume muted ");
                if mute {
                    push_str(&mut script, "true");
                } else {
                    push_str(&mut script, "false");
                }
                args.push(owned("-e"));
                args.push(script);
                owned("osascript")
            },
            Platform::Windows => {
                let mut script = owned(
                    "$w=(New-Object -ComObject MMDeviceEnumerator).GetDefaultAudioEndpoint(0,0).AudioEndpointVolume; ",
                );
                push_str(&mut script, "$w.SetMute(");
                if mute {
                    push_str(&mut script, "$true");
                } else {
                    push_str(&mut script, "$false");
                }
                push_str(&mut script, ", $null)");
                args.push(owned("-Command"));
                args.push(script);
                owned("powershell")
            },
            Platform::Other => {
                return Err(AudioError::UnsupportedOS);
            },
        };
        let r = ToolCommand { program, args };
        assert(string_views(r.args@) =~= set_mute_command_spec(mute, platform).unwrap().1);
        Ok(r)
    }
}

/// Appends the text of the fraction `v / 100`.
fn push_scalar(s: &mut String, v: u32)
    requires
        v <= 100,
    ensures
        final(s)@ == old(s)@ + scalar_text(v as nat),
{
    if v == 0 {
        push_str(s, "0");
    } else if v == 100 {
        push_str(s, "1");
    } else {
        push_str(s, "0.");
        s.push(digit((v / 10) as u64));
        if v % 10 != 0 {
            s.push(digit((v % 10) as u64));
        }
    }
    assert(final(s)@ =~= old(s)@ + scalar_text(v as nat));
}

/// The number of decimal digits in `s` from index `i` on.
fn digit_run_exec(s: &[char], i: usize) -> (k: usize)
    requires
        i <= s.len(),
    ensures
        k == digit_run(s@.skip(i as int)),
        i + k <= s.len(),
{
    let mut j: usize = i;
    while j < s.len() && is_decimal_digit_exec(s[j])
        invariant
            i <= j <= s@.len(),
            digit_run(s@.skip(i as int)) == (j - i) + digit_run(s@.skip(j as int)),
        decreases s@.len() - j,
    {
        assert(s@.skip(j as int).drop_first() =~= s@.skip(j + 1));
        j += 1;
    }
    j - i
}

/// The characters of `s` from `from` up to `to`.
fn copy_range(s: &[char], from: usize, to: usize) -> (r: Vec<char>)
    requires
        from <= to <= s.len(),
    ensures
        r@ == s@.subrange(from as int, to as int),
{
    let mut r: Vec<char> = Vec::new();
    let mut i: usize = from;
    while i < to
        invariant
            from <= i <= to <= s@.len(),
            r@ == s@.subrange(from as int, i as int),
        decreases to - i,
    {
        r.push(s[i]);
        i += 1;
        assert(r@ =~= s@.subrange(from as int, i as int));
    }
    r
}

/// The digits of the first match of `(\d+)%` in `s`.
pub fn percent_digits_exec(s: &[char]) -> (r: Option<Vec<char>>)
    ensures
        match percent_digits(s@) {
            Some(d) => r matches Some(v) && v@ == d,
            None => r is None,
        },
{
    let mut i: usize = 0;
    assert(s@.skip(0) =~= s@);
    while i < s.len()
        invariant
            i <= s@.len(),
            percent_digits(s@) == percent_digits(s@.skip(i as int)),
        decreases s@.len() - i,
    {
        let k = digit_run_exec(s, i);
        if k > 0 && i + k < s.len() && s[i + k] == '%' {
            let v = copy_range(s, i, i + k);
            assert(v@ =~= s@.skip(i as int).take(k as int));
            return Some(v);
        }
        assert(s@.skip(i as int).drop_first() =~= s@.skip(i + 1));
        i += 1;
    }
    assert(s@.skip(i as int) =~= Seq::<char>::empty());
    None
}

/// The number that the characters `s` spell as a `u32`.
fn read_u32_exec(s: &[char]) -> (r: Result<u32, ReadError>)
    ensures
        r == read_u32(s@),
{
    match parse_unsigned_chars(s, 0xffff_ffff) {
        Ok(v) => Ok(v as u32),
        Err(k) => Err(ReadError::Number(k)),
    }
}

impl AudioControl {
    /// The level that the platform's tool reports in `stdout`.
    fn reported_level_exec(stdout: &str, platform: Platform) -> (r: Result<u32, ReadError>)
        ensures
            r == reported_level(stdout@, platform),
    {
        match platform {
            Platform::Linux => {
                let c = chars_of(stdout);
                match percent_digits_exec(c.as_slice()) {
                    Some(d) => read_u32_exec(d.as_slice()),
                    None => Err(ReadError::NoLevel),
                }
            },
            Platform::MacOs => {
                let t = trim_chars(chars_of(stdout).as_slice());
                read_u32_exec(t.as_slice())
            },
            Platform::Windows => {
                let t = trim_chars(chars_of(stdout).as_slice());
                match read_u32_exec(t.as_slice()) {
                    Ok(v) => Ok(v),
                    Err(_) => Err(ReadError::NoLevel),
                }
            },
            Platform::Other => Err(ReadError::UnsupportedOS),
        }
    }

    /// The volume [0-100]% (max 200% on Linux) that the platform's tool
    /// reports in `stdout`.
    pub fn read_volume(stdout: &str, platform: Platform) -> (r: Result<u32, ReadError>)
        ensures
            r == volume_reading(stdout@, platform),
            r matches Ok(v) ==> v <= max_volume_spec(platform),
    {
        match Self::reported_level_exec(stdout, platform) {
            Ok(v) => Ok(Self::bound_volume(v, platform)),
            Err(e) => Err(e),
        }
    }

    /// Whether the platform's tool reports the output as muted in `stdout`.
    pub fn read_mute(stdout: &str, platform: Platform) -> (r: Result<bool, ReadError>)
        ensures
            r == mute_reading(stdout@, platform),
    {
        match platform {
            Platform::Linux => Ok(str_contains(stdout, "yes")),
            Platform::MacOs => {
                let t = string_of(trim_chars(chars_of(stdout).as_slice()).as_slice());
                Ok(str_equal(t.as_str(), "true"))
            },
            Platform::Windows => {
                let t = string_of(trim_chars(chars_of(stdout).as_slice()).as_slice());
                Ok(str_equal(t.as_str(), "True"))
            },
            Platform::Other => Err(ReadError::UnsupportedOS),
        }
    }
}

/// A run of digits followed by other text counts all its digits.
proof fn lemma_digit_run_append(d: Seq<char>, t: Seq<char>)
    requires
        forall|i: int| 0 <= i < d.len() ==> is_digit(#[trigger] d[i]),
    ensures
        digit_run(d + t) == d.len() + digit_run(t),
    decreases d.len(),
{
    if d.len() > 0 {
        assert((d + t).drop_first() =~= d.drop_first() + t);
        assert forall|i: int| 0 <= i < d.drop_first().len() implies is_digit(
            #[trigger] d.drop_first()[i],
        ) by {
            assert(d.drop_first()[i] == d[i + 1]);
        }
        lemma_digit_run_append(d.drop_first(), t);
    } else {
        assert(d + t =~= t);
    }
}

/// The decimal digits of `n` have no white space to trim.
proof fn lemma_trim_decimal(n: nat)
    ensures
        trim(decimal(n)) == decimal(n),
{
    lemma_decimal_digits(n);
    let d = decimal(n);
    assert(is_digit(d[0]));
    assert(trim_start(d) == d);
    assert(is_digit(d.last()));
    assert(trim_end(d) == d);
}

/// A volume level written as its decimal digits reads back as itself,
/// bounded as every level that is set is: as `{v}%`, the form in which it is
/// set and shown on Linux, and as the bare number with which it is set and
/// reported on macOS and Windows.
pub proof fn law_volume_reads_back(v: u32)
    ensures
        volume_reading(decimal(v as nat) + "%"@, Platform::Linux) == Ok::<u32, ReadError>(
            bounded_volume(v, Platform::Linux),
        ),
        volume_reading(decimal(v as nat), Platform::MacOs) == Ok::<u32, ReadError>(
            bounded_volume(v, Platform::MacOs),
        ),
        volume_reading(decimal(v as nat), Platform::Windows) == Ok::<u32, ReadError>(
            bounded_volume(v, Platform::Windows),
        ),
{
    let d = decimal(v as nat);
    lemma_decimal_digits(v as nat);
    lemma_decimal_reads(v as nat, u32::MAX as nat);
    assert(is_digit(d[0]));
    assert(parse_unsigned(d, u32::MAX as nat) == read_digits(d, 0, u32::MAX as nat));
    let s = d + "%"@;
    reveal_strlit("%");
    lemma_digit_run_append(d, "%"@);
    assert(!is_digit('%'));
    assert(digit_run("%"@) == 0);
    assert(s[d.len() as int] == '%');
    assert(s.take(d.len() as int) =~= d);
    assert(percent_digits(s) == Some(d));
    lemma_trim_decimal(v as nat);
}

/// A change of the volume always lands between zero and the loudest level,
/// and a change by zero leaves a level within bounds as it is.
pub proof fn law_volume_step_bounds(current: u32, delta: int, platform: Platform)
    ensures
        0 <= step_target(current, delta, platform) <= max_volume_spec(platform),
        step_target(current, 0, platform) == bounded_volume(current, platform),
{
}

/// Two changes that stay within bounds add up: making them one after the
/// other lands where the single change by their sum lands.
pub proof fn law_volume_steps_add(current: u32, a: int, b: int, platform: Platform)
    requires
        0 <= bounded_volume(current, platform) + a <= max_volume_spec(platform),
        0 <= bounded_volume(current, platform) + a + b <= max_volume_spec(platform),
    ensures
        step_target(step_target(current, a, platform) as u32, b, platform) == step_target(
            current,
            a + b,
            platform,
        ),
        step_target(current, a + b, platform) == bounded_volume(current, platform) + a + b,
{
}

/// Raising the volume never lowers it, and lowering it never raises it.
pub proof fn law_volume_step_direction(current: u32, delta: int, platform: Platform)
    ensures
        delta >= 0 ==> step_target(current, delta, platform) >= bounded_volume(current, platform),
        delta <= 0 ==> step_target(current, delta, platform) <= bounded_volume(current, platform),
{
}

/// A change that stays within bounds is undone by the opposite change.
pub proof fn law_volume_step_undo(current: u32, delta: int, platform: Platform)
    requires
        0 <= bounded_volume(current, platform) + delta <= max_volume_spec(platform),
    ensures
        step_target(step_target(current, delta, platform) as u32, -delta, platform)
            == bounded_volume(current, platform),
{
}

/// What a platform's tool prints for the mute state `muted`: `pactl` a
/// labelled `yes` or `no`, `osascript` the AppleScript boolean, PowerShell
/// the .NET boolean, each on a line of its own.
pub open spec fn mute_report(muted: bool, platform: Platform) -> Seq<char> {
    match platform {
        Platform::Linux => if muted {
            "Mute: yes\n"@
        } else {
            "Mute: no\n"@
        },
        Platform::MacOs => if muted {
            "true\n"@
        } else {
            "false\n"@
        },
        Platform::Windows => if muted {
            "True\r\n"@
        } else {
            "False\r\n"@
        },
        Platform::Other => Seq::empty(),
    }
}

/// A word followed by white space trims to the word.
proof fn lemma_trim_word(w: Seq<char>, tail: Seq<char>)
    requires
        w.len() > 0,
        !is_space(w[0]),
        !is_space(w.last()),
        forall|j: int| 0 <= j < tail.len() ==> is_space(#[trigger] tail[j]),
    ensures
        trim(w + tail) == w,
{
    let s = w + tail;
    assert(s[0] == w[0]);
    assert(trim_start(s) == s);
    assert forall|j: int| w.len() <= j < s.len() implies is_space(#[trigger] s[j]) by {
        assert(s[j] == tail[j - w.len()]);
    }
    lemma_trim_end_cut(s, w.len() as int);
    assert(s.subrange(0, w.len() as int) =~= w);
    assert(trim_end(w) == w);
}

/// A mute state that was set reads back as itself from what the platform's
/// tool prints for it.
pub proof fn law_mute_reads_back(muted: bool)
    ensures
        mute_reading(mute_report(muted, Platform::Linux), Platform::Linux) == Ok::<bool, ReadError>(
            muted,
        ),
        mute_reading(mute_report(muted, Platform::MacOs), Platform::MacOs) == Ok::<bool, ReadError>(
            muted,
        ),
        mute_reading(mute_report(muted, Platform::Windows), Platform::Windows) == Ok::<
            bool,
            ReadError,
        >(muted),
{
    reveal_strlit("yes");
    reveal_strlit("Mute: yes\n");
    reveal_strlit("Mute: no\n");
    reveal_strlit("true");
    reveal_strlit("false");
    reveal_strlit("True");
    reveal_strlit("False");
    reveal_strlit("true\n");
    reveal_strlit("false\n");
    reveal_strlit("True\r\n");
    reveal_strlit("False\r\n");
    reveal_strlit("\n");
    reveal_strlit("\r\n");
    if muted {
        let s = "Mute: yes\n"@;
        assert(s.subrange(6, 9) =~= "yes"@);
        assert(occurs_at(s, "yes"@, 6));
        lemma_trim_word("true"@, "\n"@);
        assert("true\n"@ =~= "true"@ + "\n"@);
        lemma_trim_word("True"@, "\r\n"@);
        assert("True\r\n"@ =~= "True"@ + "\r\n"@);
    } else {
        let s = "Mute: no\n"@;
        assert forall|i: int| !occurs_at(s, "yes"@, i) by {
            if occurs_at(s, "yes"@, i) {
                assert(s.subrange(i, i + 3)[0] == 'y');
                assert(s[i] == 'y');
            }
        }
        lemma_trim_word("false"@, "\n"@);
        assert("false\n"@ =~= "false"@ + "\n"@);
        lemma_trim_word("False"@, "\r\n"@);
        assert("False\r\n"@ =~= "False"@ + "\r\n"@);
        assert("false"@ != "true"@) by {
            assert("false"@.len() != "true"@.len());
        }
        assert("False"@ != "True"@) by {
            assert("False"@.len() != "True"@.len());
        }
    }
}

/// The level that a set-volume command writes is the level asked for,
/// bounded, and it reads back as that level: on Linux the percentage that
/// `pactl` is given, on macOS the number at the end of the script.
pub proof fn law_set_volume_writes_level(v: u32)
    ensures
        set_volume_command_spec(v, Platform::Linux) matches Some(c) && c.1.len() == 3
            && volume_reading(c.1[2], Platform::Linux) == Ok::<u32, ReadError>(
            bounded_volume(v, Platform::Linux),
        ),
        set_volume_command_spec(v, Platform::MacOs) matches Some(c) && c.1.len() == 2 && exists|
            t: Seq<char>,
        |
            c.1[1] == "set volume output volume "@ + t && #[trigger] volume_reading(t, Platform::MacOs)
                == Ok::<u32, ReadError>(bounded_volume(v, Platform::MacOs)),
{
    law_volume_reads_back(bounded_volume(v, Platform::Linux));
    law_volume_reads_back(bounded_volume(v, Platform::MacOs));
    let t = decimal(bounded_volume(v, Platform::MacOs) as nat);
    assert(volume_reading(t, Platform::MacOs) == Ok::<u32, ReadError>(
        bounded_volume(bounded_volume(v, Platform::MacOs), Platform::MacOs),
    ));
}

/// Muting and unmuting give different commands on every platform that has
/// them: `pactl` is given 1 to mute and 0 to unmute, the Music script and
/// PowerShell `true` and `false`.
pub proof fn law_mute_commands(platform: Platform)
    ensures
        platform != Platform::Other ==> set_mute_command_spec(true, platform)
            != set_mute_command_spec(false, platform),
        set_mute_command_spec(true, Platform::Linux) matches Some(c) && c.1.len() == 3 && c.1[2]
            == "1"@,
        set_mute_command_spec(false, Platform::Linux) matches Some(c) && c.1.len() == 3 && c.1[2]
            == "0"@,
        set_mute_command_spec(true, Platform::MacOs) matches Some(c) && c.1.len() == 2 && c.1[1]
            == "set volume muted "@ + "true"@,
        set_mute_command_spec(false, Platform::MacOs) matches Some(c) && c.1.len() == 2 && c.1[1]
            == "set volume muted "@ + "false"@,
{
    reveal_strlit("1");
    reveal_strlit("0");
    reveal_strlit("true");
    reveal_strlit("false");
    reveal_strlit("$true");
    reveal_strlit("$false");
    assert("1"@[0] != "0"@[0]);
    let w_on = endpoint_prefix() + "$w.SetMute("@ + "$true"@ + ", $null)"@;
    let w_off = endpoint_prefix() + "$w.SetMute("@ + "$false"@ + ", $null)"@;
    assert(w_on.len() != w_off.len());
    let m_on = "set volume muted "@ + "true"@;
    let m_off = "set volume muted "@ + "false"@;
    assert(m_on.len() != m_off.len());
    assert(seq!["set-sink-mute"@, "@DEFAULT_SINK@"@, "1"@][2] != seq!["set-sink-mute"@, "@DEFAULT_SINK@"@, "0"@][2]);
    assert(seq!["-e"@, m_on][1] != seq!["-e"@, m_off][1]);
    assert(seq!["-Command"@, w_on][1] != seq!["-Command"@, w_off][1]);
}

} // verus!
