use std::time::Duration;
use system_utils::error::{Error, MediaError, Platform};
use system_utils::media::{MediaAction, MediaControl, MediaMetadata, MediaQuery};

fn args(v: &[&str]) -> Vec<String> {
    v.iter().map(|s| s.to_string()).collect()
}

#[test]
fn playerctl_commands() {
    let pairs = [
        (MediaAction::PlayPause, "play-pause"),
        (MediaAction::Play, "play"),
        (MediaAction::Pause, "pause"),
        (MediaAction::Stop, "stop"),
        (MediaAction::NextTrack, "next"),
        (MediaAction::PreviousTrack, "previous"),
    ];
    for (a, word) in pairs {
        let c = MediaControl::command(a, Platform::Linux).unwrap();
        assert_eq!(c.program, "playerctl");
        assert_eq!(c.args, args(&[word]));
    }
}

#[test]
fn music_app_commands() {
    let c = MediaControl::command(MediaAction::PlayPause, Platform::MacOs).unwrap();
    assert_eq!(c.program, "osascript");
    assert_eq!(c.args, args(&["-e", r#"tell application "Music" to playpause"#]));
    let c = MediaControl::command(MediaAction::NextTrack, Platform::MacOs).unwrap();
    assert_eq!(c.args[1], r#"tell application "Music" to next track"#);
    let c = MediaControl::command(MediaAction::PreviousTrack, Platform::MacOs).unwrap();
    assert_eq!(c.args[1], r#"tell application "Music" to previous track"#);
}

#[test]
fn media_key_commands() {
    let pairs = [
        (MediaAction::PlayPause, 179),
        (MediaAction::Play, 179),
        (MediaAction::Pause, 179),
        (MediaAction::Stop, 178),
        (MediaAction::NextTrack, 176),
        (MediaAction::PreviousTrack, 177),
    ];
    for (a, key) in pairs {
        let c = MediaControl::command(a, Platform::Windows).unwrap();
        assert_eq!(c.program, "powershell");
        assert_eq!(
            c.args,
            vec![
                "-NoProfile".to_string(),
                "-Command".to_string(),
                format!("(New-Object -ComObject WScript.Shell).SendKeys([char]{key})")
            ]
        );
    }
    assert_eq!(MediaControl::command(MediaAction::Play, Platform::Other).unwrap_err(), MediaError::UnsupportedOS);
}

#[test]
fn seek_and_query_commands() {
    let c = MediaControl::seek_command(10, true, Platform::Linux).unwrap();
    assert_eq!(c.args, args(&["position", "10+"]));
    let c = MediaControl::seek_command(5, false, Platform::Linux).unwrap();
    assert_eq!(c.args, args(&["position", "5-"]));
    assert_eq!(MediaControl::seek_command(5, true, Platform::MacOs).unwrap_err(), MediaError::UnsupportedOS);
    let c = MediaControl::query_command(MediaQuery::Position, Platform::Linux).unwrap();
    assert_eq!(c.args, args(&["position"]));
    let c = MediaControl::query_command(MediaQuery::Duration, Platform::Linux).unwrap();
    assert_eq!(c.args, args(&["metadata", "mpris:length"]));
    let c = MediaControl::query_command(MediaQuery::Metadata, Platform::Linux).unwrap();
    assert_eq!(
        c.args,
        args(&["metadata", "--format", "{{title}}\n{{artist}}\n{{album}}\n{{mpris:length}}\n{{status}}\n{{mpris:artUrl}}"])
    );
    assert!(MediaControl::query_command(MediaQuery::Metadata, Platform::Windows).is_err());
}

#[test]
fn player_output_trims_or_fails() {
    assert_eq!(MediaControl::player_output(true, "  Song \n"), Ok("Song".to_string()));
    assert_eq!(MediaControl::player_output(false, "Song"), Err(MediaError::PlayerNotFound));
}

#[test]
fn duration_from_microseconds() {
    assert_eq!(MediaControl::duration_from("1500000").unwrap(), Duration::from_micros(1_500_000));
    assert_eq!(MediaControl::duration_from("0").unwrap(), Duration::from_micros(0));
    assert_eq!(MediaControl::duration_from("abc").unwrap_err(), Error::Msg("invalid digit found in string".to_string()));
    assert_eq!(MediaControl::duration_from("").unwrap_err(), Error::Msg("cannot parse integer from empty string".to_string()));
}

#[test]
fn metadata_from_full_answer() {
    let out = "Title\nArtist\nAlbum\n240000000\nPlaying\nhttps://x/art.png";
    let m = MediaControl::metadata_from(out, Ok(Duration::from_secs(3))).unwrap();
    assert_eq!(m.title, "Title");
    assert_eq!(m.artist, "Artist");
    assert_eq!(m.album, "Album");
    assert_eq!(m.duration, Duration::from_micros(240_000_000));
    assert_eq!(m.position, Duration::from_secs(3));
    assert!(m.playing);
    assert_eq!(m.artwork_url, Some("https://x/art.png".to_string()));
}

#[test]
fn metadata_from_crlf_and_missing_lines() {
    let m = MediaControl::metadata_from("T\r\nA\r\nB\r\n10\r\nPaused\r\n", Ok(Duration::ZERO)).unwrap();
    assert_eq!(m.title, "T");
    assert_eq!(m.album, "B");
    assert_eq!(m.duration, Duration::from_micros(10));
    assert!(!m.playing);
    assert_eq!(m.artwork_url, None);

    let m = MediaControl::metadata_from("OnlyTitle", Ok(Duration::ZERO)).unwrap();
    assert_eq!(m.title, "OnlyTitle");
    assert_eq!(m.artist, "");
    assert_eq!(m.duration, Duration::ZERO);
    assert!(!m.playing);
    assert_eq!(m.artwork_url, None);

    let m = MediaControl::metadata_from("", Ok(Duration::ZERO)).unwrap();
    assert_eq!(m.title, "");

    let m = MediaControl::metadata_from("a\n\nc\n7\nPlaying\n", Ok(Duration::ZERO)).unwrap();
    assert_eq!(m.artist, "");
    assert_eq!(m.album, "c");
    assert!(m.playing);
}

#[test]
fn metadata_from_errors() {
    let e = MediaControl::metadata_from("T\nA\nB\nxyz\nPlaying\n", Ok(Duration::ZERO)).unwrap_err();
    assert_eq!(e, Error::Msg("invalid digit found in string".to_string()));
    let e = MediaControl::metadata_from("T\nA\nB\n5", Err(Error::Msg("bad position".to_string()))).unwrap_err();
    assert_eq!(e, Error::Msg("bad position".to_string()));
    let e = MediaControl::metadata_from("T\nA\nB\nx", Err(Error::Msg("bad position".to_string()))).unwrap_err();
    assert_eq!(e, Error::Msg("invalid digit found in string".to_string()));
}

#[test]
fn metadata_display_text() {
    let m = MediaMetadata {
        title: "Song".to_string(),
        artist: "Band".to_string(),
        album: "Record".to_string(),
        duration: Duration::from_micros(215_500_000),
        position: Duration::from_millis(1_250),
        playing: true,
        artwork_url: None,
    };
    let want = format!(
        "=== MEDIA METADATA ===\nTitle         : Song\nArtist        : Band\nAlbum         : Record\nDuration      : {:.2?}\nPosition      : {:.2?}\nPlaying       : Yes\nArtwork URL   : None\n",
        m.duration, m.position
    );
    assert_eq!(m.display_text(), want);
    assert!(m.display_text().contains("Duration      : 215.50s"));
}

#[test]
fn metadata_with_empty_title_keeps_its_fields() {
    let raw = "\nAr\nAl\n5000000\nPlaying\nhttps://art.example/cover.png\n";
    let text = MediaControl::metadata_output(true, raw).unwrap();
    assert_eq!(text, "\nAr\nAl\n5000000\nPlaying\nhttps://art.example/cover.png");
    let m = MediaControl::metadata_from(&text, Ok(Duration::from_secs(1))).unwrap();
    assert_eq!(m.title, "");
    assert_eq!(m.artist, "Ar");
    assert_eq!(m.album, "Al");
    assert_eq!(m.duration, Duration::from_micros(5_000_000));
    assert!(m.playing);
    assert_eq!(m.artwork_url.as_deref(), Some("https://art.example/cover.png"));
    assert_eq!(MediaControl::metadata_output(false, raw), Err(MediaError::PlayerNotFound));
}

#[test]
fn play_and_pause_on_windows_ask_for_the_playback_state() {
    let c = MediaControl::playback_state_command(MediaAction::Play, Platform::Windows).unwrap();
    assert_eq!(c.program, "powershell");
    assert_eq!(c.args[0], "-NoProfile");
    assert_eq!(c.args[1], "-Command");
    assert!(c.args[2].contains("GetPlaybackInfo().PlaybackStatus"));
    assert!(MediaControl::playback_state_command(MediaAction::Pause, Platform::Windows).is_some());
    assert!(MediaControl::playback_state_command(MediaAction::PlayPause, Platform::Windows).is_none());
    assert!(MediaControl::playback_state_command(MediaAction::Play, Platform::Linux).is_none());
    assert!(MediaControl::playback_state_command(MediaAction::Pause, Platform::MacOs).is_none());
    assert!(MediaControl::playing_from("Playing\r\n"));
    assert!(!MediaControl::playing_from("Paused\r\n"));
    assert!(!MediaControl::playing_from(""));
    assert!(!MediaControl::sends_key(MediaAction::Play, true));
    assert!(MediaControl::sends_key(MediaAction::Play, false));
    assert!(MediaControl::sends_key(MediaAction::Pause, true));
    assert!(!MediaControl::sends_key(MediaAction::Pause, false));
    assert!(MediaControl::sends_key(MediaAction::PlayPause, true));
    assert!(MediaControl::sends_key(MediaAction::Stop, false));
}
