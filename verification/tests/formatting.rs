use system_utils::audio::AudioControl;
use system_utils::devices::format_sample_rate;
use system_utils::error::Platform;
use system_utils::metrics::{format_bytes, format_frequency, format_uptime, percent_string, vram_lines};

fn bytes_with_floats(bytes: u64) -> String {
    const KB: f64 = 1024.0;
    const MB: f64 = KB * 1024.0;
    const GB: f64 = MB * 1024.0;
    const TB: f64 = GB * 1024.0;
    let b = bytes as f64;
    if b >= TB {
        format!("{:.2} TB", b / TB)
    } else if b >= GB {
        format!("{:.2} GB", b / GB)
    } else if b >= MB {
        format!("{:.2} MB", b / MB)
    } else if b >= KB {
        format!("{:.2} KB", b / KB)
    } else {
        format!("{bytes} B")
    }
}

fn frequency_with_floats(mhz: u64) -> String {
    if mhz >= 1000 {
        format!("{:.2} GHz", mhz as f64 / 1000.0)
    } else {
        format!("{mhz} MHz")
    }
}

fn sample_rate_with_floats(rate: u32) -> String {
    let rate = rate as f64;
    if rate >= 1_000_000.0 {
        format!("{:.2} MHz", rate / 1_000_000.0)
    } else if rate >= 1_000.0 {
        if (rate % 1000.0).abs() < f64::EPSILON {
            format!("{:.0} kHz", rate / 1000.0)
        } else {
            format!("{:.1} kHz", rate / 1000.0)
        }
    } else {
        format!("{:.0} Hz", rate)
    }
}

fn percent_with_floats(part: u64, whole: u64) -> String {
    let p = if whole > 0 { part as f64 * 100.0 / whole as f64 } else { 0.0 };
    format!("{:.1}", p)
}

/// A fixed sequence of numbers spread over all magnitudes.
fn samples() -> Vec<u64> {
    let mut v: Vec<u64> = vec![
        0,
        1,
        9,
        10,
        999,
        1000,
        1023,
        1024,
        1025,
        1536,
        10_239,
        10_240,
        1_048_575,
        1_048_576,
        1_073_741_823,
        1_073_741_824,
        1_099_511_627_775,
        1_099_511_627_776,
        (1u64 << 53) - 1,
        1u64 << 53,
        (1u64 << 53) + 1,
        u64::MAX,
        u64::MAX - 1,
        5_368_709, // 0.005 GB-ish boundaries
        1_234_567_890_123,
    ];
    let mut x: u64 = 0x9E37_79B9_7F4A_7C15;
    for shift in 0..64 {
        for _ in 0..40 {
            x = x.wrapping_mul(6364136223846793005).wrapping_add(1442695040888963407);
            v.push(x >> shift);
        }
    }
    v
}

#[test]
fn format_bytes_matches_float_formatting() {
    for b in samples() {
        assert_eq!(format_bytes(b), bytes_with_floats(b), "bytes {b}");
    }
}

#[test]
fn format_bytes_examples() {
    assert_eq!(format_bytes(0), "0 B");
    assert_eq!(format_bytes(1023), "1023 B");
    assert_eq!(format_bytes(1024), "1.00 KB");
    assert_eq!(format_bytes(1536), "1.50 KB");
    assert_eq!(format_bytes(1_073_741_824), "1.00 GB");
    assert_eq!(format_bytes(u64::MAX), "16777216.00 TB");
}

#[test]
fn format_frequency_matches_float_formatting() {
    for m in samples() {
        assert_eq!(format_frequency(m), frequency_with_floats(m), "mhz {m}");
    }
    assert_eq!(format_frequency(999), "999 MHz");
    assert_eq!(format_frequency(1000), "1.00 GHz");
    assert_eq!(format_frequency(3600), "3.60 GHz");
    assert_eq!(format_frequency(2995), "3.00 GHz");
}

#[test]
fn format_uptime_examples() {
    assert_eq!(format_uptime(0), "0d 0h 0m");
    assert_eq!(format_uptime(59), "0d 0h 0m");
    assert_eq!(format_uptime(3661), "0d 1h 1m");
    assert_eq!(format_uptime(90061), "1d 1h 1m");
    assert_eq!(format_uptime(u64::MAX), "213503982334601d 7h 0m");
}

#[test]
fn format_sample_rate_matches_float_formatting() {
    let mut rates: Vec<u32> = vec![0, 1, 999, 1000, 1001, 1500, 1999, 44_100, 48_000, 96_000, 192_000, 999_999, 1_000_000, 2_822_400, u32::MAX];
    for s in samples() {
        rates.push((s >> 32) as u32);
        rates.push((s % 2_000_000) as u32);
    }
    for r in rates {
        assert_eq!(format_sample_rate(r), sample_rate_with_floats(r), "rate {r}");
    }
    assert_eq!(format_sample_rate(44_100), "44.1 kHz");
    assert_eq!(format_sample_rate(48_000), "48 kHz");
    assert_eq!(format_sample_rate(500), "500 Hz");
    assert_eq!(format_sample_rate(2_822_400), "2.82 MHz");
}

#[test]
fn percent_matches_float_formatting() {
    let s = samples();
    for (i, a) in s.iter().enumerate() {
        let b = s[(i * 7 + 3) % s.len()];
        assert_eq!(percent_string(*a, b), percent_with_floats(*a, b), "{a} of {b}");
        assert_eq!(percent_string(*a / 3, *a), percent_with_floats(*a / 3, *a), "{} of {a}", *a / 3);
        assert_eq!(percent_string(*a, *a), percent_with_floats(*a, *a), "{a} of itself");
    }
    assert_eq!(percent_string(1, 0), "0.0");
    assert_eq!(percent_string(0, 10), "0.0");
    assert_eq!(percent_string(1, 3), "33.3");
    assert_eq!(percent_string(2, 3), "66.7");
    assert_eq!(percent_string(1, 8), "12.5");
    assert_eq!(percent_string(3, 16), "18.8");
    assert_eq!(percent_string(5, 4), "125.0");
    assert_eq!(percent_string(u64::MAX, 1), percent_with_floats(u64::MAX, 1));
    assert_eq!(percent_string(1, u64::MAX), "0.0");
}

#[test]
fn windows_volume_scalar_matches_f32_display() {
    let prefix = "$w=(New-Object -ComObject MMDeviceEnumerator).GetDefaultAudioEndpoint(0,0).AudioEndpointVolume; ";
    for vol in 0u32..=150 {
        let clamped = vol.min(100);
        let normalized = (clamped as f32) / 100.0;
        let want = format!("{prefix}$w.SetMasterVolumeLevelScalar({normalized}, $null)");
        let cmd = AudioControl::set_volume_command(vol, Platform::Windows).unwrap();
        assert_eq!(cmd.program, "powershell");
        assert_eq!(cmd.args, vec!["-Command".to_string(), want], "volume {vol}");
    }
}

fn vram_with_floats(u: u64, t: u64) -> String {
    let percent = if t == 0 { 0.0 } else { u as f32 * 100.0 / t as f32 };
    format!(
        "VRAM          : {} / {} ({:.1}%)\nFree VRAM     : {}\n",
        bytes_with_floats(u),
        bytes_with_floats(t),
        percent,
        bytes_with_floats(t - u)
    )
}

#[test]
fn vram_lines_match_f32_formatting() {
    let s = samples();
    for (i, a) in s.iter().enumerate() {
        let b = s[(i * 5 + 1) % s.len()];
        let (u, t) = if *a <= b { (*a, b) } else { (b, *a) };
        assert_eq!(vram_lines(u, t), vram_with_floats(u, t), "{u} of {t}");
        assert_eq!(vram_lines(t / 3, t), vram_with_floats(t / 3, t), "{} of {t}", t / 3);
    }
    assert_eq!(vram_lines(0, 0), "VRAM          : 0 B / 0 B (0.0%)\nFree VRAM     : 0 B\n");
    assert_eq!(
        vram_lines(2_147_483_648, 8_589_934_592),
        "VRAM          : 2.00 GB / 8.00 GB (25.0%)\nFree VRAM     : 6.00 GB\n"
    );
}
