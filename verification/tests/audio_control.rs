use system_utils::audio::{AudioControl, ReadError, VolumeStep};
use system_utils::error::{AudioError, Error, Platform};
use system_utils::text::IntErrorKind;

const PREFIX: &str = "$w=(New-Object -ComObject MMDeviceEnumerator).GetDefaultAudioEndpoint(0,0).AudioEndpointVolume; ";

fn args(v: &[&str]) -> Vec<String> {
    v.iter().map(|s| s.to_string()).collect()
}

#[test]
fn max_volume_per_platform() {
    assert_eq!(AudioControl::max_volume(Platform::Linux), 200);
    assert_eq!(AudioControl::max_volume(Platform::MacOs), 100);
    assert_eq!(AudioControl::max_volume(Platform::Windows), 100);
    assert_eq!(AudioControl::bound_volume(250, Platform::Linux), 200);
    assert_eq!(AudioControl::bound_volume(150, Platform::Linux), 150);
    assert_eq!(AudioControl::bound_volume(150, Platform::MacOs), 100);
}

#[test]
fn get_volume_commands() {
    let c = AudioControl::get_volume_command(Platform::Linux).unwrap();
    assert_eq!(c.program, "pactl");
    assert_eq!(c.args, args(&["get-sink-volume", "@DEFAULT_SINK@"]));
    let c = AudioControl::get_volume_command(Platform::MacOs).unwrap();
    assert_eq!(c.program, "osascript");
    assert_eq!(c.args, args(&["-e", "output volume of (get volume settings)"]));
    let c = AudioControl::get_volume_command(Platform::Windows).unwrap();
    assert_eq!(c.program, "powershell");
    assert_eq!(c.args, vec!["-Command".to_string(), format!("{PREFIX}[int]($w.GetMasterVolumeLevelScalar() * 100)")]);
    assert_eq!(AudioControl::get_volume_command(Platform::Other).unwrap_err(), AudioError::UnsupportedOS);
}

#[test]
fn set_volume_commands_bound_the_level() {
    let c = AudioControl::set_volume_command(250, Platform::Linux).unwrap();
    assert_eq!(c.program, "pactl");
    assert_eq!(c.args, args(&["set-sink-volume", "@DEFAULT_SINK@", "200%"]));
    let c = AudioControl::set_volume_command(35, Platform::Linux).unwrap();
    assert_eq!(c.args[2], "35%");
    let c = AudioControl::set_volume_command(70, Platform::MacOs).unwrap();
    assert_eq!(c.args, args(&["-e", "set volume output volume 70"]));
    let c = AudioControl::set_volume_command(180, Platform::MacOs).unwrap();
    assert_eq!(c.args, args(&["-e", "set volume output volume 100"]));
    let c = AudioControl::set_volume_command(42, Platform::Windows).unwrap();
    assert_eq!(c.args[1], format!("{PREFIX}$w.SetMasterVolumeLevelScalar(0.42, $null)"));
    assert_eq!(AudioControl::set_volume_command(1, Platform::Other).unwrap_err(), AudioError::UnsupportedOS);
}

#[test]
fn mute_commands() {
    let c = AudioControl::set_mute_command(true, Platform::Linux).unwrap();
    assert_eq!(c.args, args(&["set-sink-mute", "@DEFAULT_SINK@", "1"]));
    let c = AudioControl::set_mute_command(false, Platform::Linux).unwrap();
    assert_eq!(c.args, args(&["set-sink-mute", "@DEFAULT_SINK@", "0"]));
    let c = AudioControl::set_mute_command(true, Platform::MacOs).unwrap();
    assert_eq!(c.args, args(&["-e", "set volume muted true"]));
    let c = AudioControl::set_mute_command(false, Platform::Windows).unwrap();
    assert_eq!(c.args[1], format!("{PREFIX}$w.SetMute($false, $null)"));
    let c = AudioControl::get_mute_command(Platform::Linux).unwrap();
    assert_eq!(c.args, args(&["get-sink-mute", "@DEFAULT_SINK@"]));
    let c = AudioControl::get_mute_command(Platform::MacOs).unwrap();
    assert_eq!(c.args, args(&["-e", "output muted of (get volume settings)"]));
    let c = AudioControl::get_mute_command(Platform::Windows).unwrap();
    assert_eq!(c.args[1], format!("{PREFIX}$w.Mute"));
    assert!(AudioControl::set_mute_command(true, Platform::Other).is_err());
}

#[test]
fn pactl_volume_reading() {
    let out = "Volume: front-left: 65536 / 100% / 0.00 dB,   front-right: 65536 / 100% / 0.00 dB\n        balance 0.00\n";
    assert_eq!(AudioControl::read_volume(out, Platform::Linux), Ok(100));
    assert_eq!(AudioControl::read_volume("Volume: front-left: 32768 /  50% / -18.06 dB", Platform::Linux), Ok(50));
    assert_eq!(AudioControl::read_volume("12 34%", Platform::Linux), Ok(34));
    assert_eq!(AudioControl::read_volume("a1%b", Platform::Linux), Ok(1));
    assert_eq!(AudioControl::read_volume("no level", Platform::Linux), Err(ReadError::NoLevel));
    assert_eq!(AudioControl::read_volume("%", Platform::Linux), Err(ReadError::NoLevel));
    assert_eq!(
        AudioControl::read_volume("99999999999%", Platform::Linux),
        Err(ReadError::Number(IntErrorKind::PosOverflow))
    );
}

#[test]
fn plain_volume_reading() {
    assert_eq!(AudioControl::read_volume(" 42\n", Platform::MacOs), Ok(42));
    assert_eq!(AudioControl::read_volume("abc", Platform::MacOs), Err(ReadError::Number(IntErrorKind::InvalidDigit)));
    assert_eq!(AudioControl::read_volume("  \n", Platform::MacOs), Err(ReadError::Number(IntErrorKind::Empty)));
    assert_eq!(AudioControl::read_volume("75\r\n", Platform::Windows), Ok(75));
    assert_eq!(AudioControl::read_volume("x", Platform::Windows), Err(ReadError::NoLevel));
    assert_eq!(AudioControl::read_volume("5", Platform::Other), Err(ReadError::UnsupportedOS));
}

#[test]
fn read_errors_become_library_errors() {
    assert_eq!(
        ReadError::NoLevel.into_error(),
        Error::AudioError(Box::new(AudioError::GetVolume("Audio devices not found".to_string())))
    );
    assert_eq!(
        ReadError::Number(IntErrorKind::InvalidDigit).into_error(),
        Error::Msg("invalid digit found in string".to_string())
    );
    assert_eq!(ReadError::UnsupportedOS.into_error(), Error::AudioError(Box::new(AudioError::UnsupportedOS)));
    let parse_err = "abc".parse::<u32>().unwrap_err();
    assert_eq!(ReadError::Number(IntErrorKind::InvalidDigit).into_error(), Error::Msg(parse_err.to_string()));
}

#[test]
fn mute_reading() {
    assert_eq!(AudioControl::read_mute("Mute: yes\n", Platform::Linux), Ok(true));
    assert_eq!(AudioControl::read_mute("Mute: no\n", Platform::Linux), Ok(false));
    assert_eq!(AudioControl::read_mute("true\n", Platform::MacOs), Ok(true));
    assert_eq!(AudioControl::read_mute("True", Platform::MacOs), Ok(false));
    assert_eq!(AudioControl::read_mute(" True\r\n", Platform::Windows), Ok(true));
    assert_eq!(AudioControl::read_mute("true", Platform::Windows), Ok(false));
    assert_eq!(AudioControl::read_mute("yes", Platform::Other), Err(ReadError::UnsupportedOS));
}

#[test]
fn volume_steps() {
    assert_eq!(AudioControl::volume_step(50, 10, Platform::Linux), VolumeStep { target: 60, apply: true });
    assert_eq!(AudioControl::volume_step(250, 0, Platform::Linux), VolumeStep { target: 200, apply: false });
    assert_eq!(AudioControl::volume_step(5, -10, Platform::Linux), VolumeStep { target: 0, apply: true });
    assert_eq!(AudioControl::volume_step(190, 20, Platform::Linux), VolumeStep { target: 200, apply: true });
    assert_eq!(AudioControl::volume_step(95, 10, Platform::MacOs), VolumeStep { target: 100, apply: true });
    assert_eq!(AudioControl::volume_step(100, 5, Platform::Windows), VolumeStep { target: 100, apply: false });
    assert_eq!(AudioControl::volume_step(0, -5, Platform::MacOs), VolumeStep { target: 0, apply: false });
    assert_eq!(AudioControl::volume_step(300, i32::MIN, Platform::Linux), VolumeStep { target: 0, apply: true });
}

#[test]
fn volume_step_is_undone_by_opposite_step() {
    for current in [0u32, 10, 75, 100, 150, 200] {
        for delta in [-50i32, -10, 0, 10, 50] {
            let there = AudioControl::volume_step(current, delta, Platform::Linux);
            let sum = current as i32 + delta;
            if (0..=200).contains(&sum) {
                let back = AudioControl::volume_step(there.target, -delta, Platform::Linux);
                assert_eq!(back.target, current);
            }
        }
    }
}

#[test]
fn written_level_reads_back() {
    for v in [0u32, 7, 50, 100, 200] {
        let cmd = AudioControl::set_volume_command(v, Platform::Linux).unwrap();
        assert_eq!(AudioControl::read_volume(&cmd.args[2], Platform::Linux), Ok(v));
        assert_eq!(AudioControl::read_volume(&v.to_string(), Platform::MacOs), Ok(v.min(100)));
    }
}

#[test]
fn readings_are_bounded_by_the_loudest_level() {
    assert_eq!(AudioControl::read_volume("Volume: front-left: 163840 / 250% / 23.88 dB", Platform::Linux), Ok(200));
    assert_eq!(AudioControl::read_volume("200%", Platform::Linux), Ok(200));
    assert_eq!(AudioControl::read_volume("150\n", Platform::MacOs), Ok(100));
    assert_eq!(AudioControl::read_volume("101\r\n", Platform::Windows), Ok(100));
    assert_eq!(AudioControl::read_volume("4294967295", Platform::MacOs), Ok(100));
}

#[test]
fn increase_and_decrease_steps() {
    assert_eq!(AudioControl::increase_step(50, 10, Platform::Linux), VolumeStep { target: 60, apply: true });
    assert_eq!(AudioControl::increase_step(150, u32::MAX, Platform::Linux), VolumeStep { target: 200, apply: true });
    assert_eq!(AudioControl::increase_step(100, 1, Platform::MacOs), VolumeStep { target: 100, apply: false });
    assert_eq!(AudioControl::increase_step(300, 0, Platform::Linux), VolumeStep { target: 200, apply: false });
    assert_eq!(AudioControl::decrease_step(50, 10, Platform::Windows), VolumeStep { target: 40, apply: true });
    assert_eq!(AudioControl::decrease_step(50, u32::MAX, Platform::Linux), VolumeStep { target: 0, apply: true });
    assert_eq!(AudioControl::decrease_step(50, 1u32 << 31, Platform::Linux), VolumeStep { target: 0, apply: true });
    assert_eq!(AudioControl::decrease_step(0, 5, Platform::MacOs), VolumeStep { target: 0, apply: false });
    assert_eq!(AudioControl::decrease_step(250, 20, Platform::Linux), VolumeStep { target: 180, apply: true });
}

#[test]
fn mute_state_reads_back() {
    for muted in [true, false] {
        let linux = if muted { "Mute: yes\n" } else { "Mute: no\n" };
        assert_eq!(AudioControl::read_mute(linux, Platform::Linux), Ok(muted));
        let mac = if muted { "true\n" } else { "false\n" };
        assert_eq!(AudioControl::read_mute(mac, Platform::MacOs), Ok(muted));
        let win = if muted { "True\r\n" } else { "False\r\n" };
        assert_eq!(AudioControl::read_mute(win, Platform::Windows), Ok(muted));
    }
}

#[test]
fn increase_then_decrease_adds_up() {
    let up = AudioControl::volume_step(50, 10, Platform::MacOs);
    assert_eq!(up.target, 60);
    let down = AudioControl::volume_step(up.target, -5, Platform::MacOs);
    assert_eq!(down.target, 55);
    assert_eq!(AudioControl::volume_step(50, 5, Platform::MacOs).target, down.target);
}

#[test]
fn unicode_digits_before_percent_fail_to_parse() {
    assert_eq!(
        AudioControl::read_volume("Volume: \u{665}7%", Platform::Linux),
        Err(ReadError::Number(IntErrorKind::InvalidDigit))
    );
    assert_eq!(
        AudioControl::read_volume("\u{665}\u{660}%", Platform::Linux),
        Err(ReadError::Number(IntErrorKind::InvalidDigit))
    );
    assert_eq!(
        AudioControl::read_volume("\u{ff15}% 40%", Platform::Linux),
        Err(ReadError::Number(IntErrorKind::InvalidDigit))
    );
    assert_eq!(AudioControl::read_volume("\u{b2}5%", Platform::Linux), Ok(5));
}
