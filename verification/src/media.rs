//! Media playback: the commands given to each platform's player control, and
//! the reading of what `playerctl` answers.
use vstd::prelude::*;
use std::time::Duration;
use crate::error::{Error, MediaError, Platform};
use crate::text::{
    chars_of, decimal, int_error_message, is_digit, lemma_decimal_facts, parse_unsigned, parse_unsigned_chars, push_decimal,
    push_str, str_equal, string_of, string_views, trim, trim_chars, trim_str, trim_end, trim_end_str, is_space, IntErrorKind,
};
use crate::tool::{owned, runs, ToolCommand};

verus! {

/// What `Duration::from_micros` gives for a number of microseconds.
pub uninterp spec fn duration_of_micros(micros: u64) -> Duration;

/// Calls `Duration::from_micros`: the result is the name `duration_of_micros`
/// applied to the argument.
#[verifier::external_body]
fn micros_duration(micros: u64) -> (d: Duration)
    ensures
        d == duration_of_micros(micros),
{
    Duration::from_micros(micros)
}

/// What `format!("{:.2?}", d)` gives for a duration: the `Debug` text of a
/// duration with two decimals.
pub uninterp spec fn duration_debug_text(d: Duration) -> Seq<char>;

/// Calls `format!("{:.2?}", d)`: the result is the name
/// `duration_debug_text` applied to the duration.
#[verifier::external_body]
fn duration_text(d: &Duration) -> (r: String)
    ensures
        r@ == duration_debug_text(*d),
{
    format!("{:.2?}", d)
}

/// A playback action.
#[derive(Debug, Clone, Copy, PartialEq, Eq, Structural)]
pub enum MediaAction {
    PlayPause,
    Play,
    Pause,
    Stop,
    NextTrack,
    PreviousTrack,
}

/// The `playerctl` command word of an action.
pub open spec fn playerctl_word(a: MediaAction) -> Seq<char> {
    match a {
        MediaAction::PlayPause => "play-pause"@,
        MediaAction::Play => "play"@,
        MediaAction::Pause => "pause"@,
        MediaAction::Stop => "stop"@,
        MediaAction::NextTrack => "next"@,
        MediaAction::PreviousTrack => "previous"@,
    }
}

/// The AppleScript that asks the Music app for an action.
pub open spec fn music_script(a: MediaAction) -> Seq<char> {
    "tell application \"Music\" to "@ + match a {
        MediaAction::PlayPause => "playpause"@,
        MediaAction::Play => "play"@,
        MediaAction::Pause => "pause"@,
        MediaAction::Stop => "stop"@,
        MediaAction::NextTrack => "next track"@,
        MediaAction::PreviousTrack => "previous track"@,
    }
}

/// The media key sent on Windows for an action; play and pause have no key
/// of their own and share the play/pause key, which is therefore sent for
/// them only where it moves playback the way they ask (`sends_key_spec`).
pub open spec fn media_key(a: MediaAction) -> nat {
    match a {
        MediaAction::PlayPause => 179,
        MediaAction::Play => 179,
        MediaAction::Pause => 179,
        MediaAction::Stop => 178,
        MediaAction::NextTrack => 176,
        MediaAction::PreviousTrack => 177,
    }
}

/// The PowerShell script that presses a media key.
pub open spec fn send_key_script(key: nat) -> Seq<char> {
    "(New-Object -ComObject WScript.Shell).SendKeys([char]"@ + decimal(key) + ")"@
}

/// The command that carries out an action on a platform.
pub open spec fn action_command_spec(a: MediaAction, platform: Platform) -> Option<
    (Seq<char>, Seq<Seq<char>>),
> {
    match platform {
        Platform::Linux => Some(("playerctl"@, seq![playerctl_word(a)])),
        Platform::MacOs => Some(("osascript"@, seq!["-e"@, music_script(a)])),
        Platform::Windows => Some(
            ("powershell"@, seq!["-NoProfile"@, "-Command"@, send_key_script(media_key(a))]),
        ),
        Platform::Other => None,
    }
}

/// The PowerShell script that prints the playback status of the current
/// media session on Windows (`Playing`, `Paused`, ...), and nothing where
/// there is no session.
pub open spec fn playback_state_script() -> Seq<char> {
    "Add-Type -AssemblyName System.Runtime.WindowsRuntime; $m=[Windows.Media.Control.GlobalSystemMediaTransportControlsSessionManager,Windows.Media.Control,ContentType=WindowsRuntime]; $t=([System.WindowsRuntimeSystemExtensions].GetMethods()|?{$_.Name -eq 'AsTask' -and $_.GetParameters().Count -eq 1 -and $_.GetParameters()[0].ParameterType.Name -eq 'IAsyncOperation`1'})[0].MakeGenericMethod($m).Invoke($null,@($m::RequestAsync())); $s=$t.Result.GetCurrentSession(); if($s){$s.GetPlaybackInfo().PlaybackStatus}"@
}

/// Whether `action` on `platform` is sent only after asking whether media
/// plays: play and pause on Windows.
pub open spec fn needs_playback_state(action: MediaAction, platform: Platform) -> bool {
    platform == Platform::Windows && (action == MediaAction::Play || action == MediaAction::Pause)
}

/// Whether the media key of `action` is to be sent when playback is
/// `playing`: play only where nothing plays, pause only where something
/// does, every other action always.
pub open spec fn sends_key_spec(action: MediaAction, playing: bool) -> bool {
    match action {
        MediaAction::Play => !playing,
        MediaAction::Pause => playing,
        _ => true,
    }
}

/// Whether playback runs after `action` on Windows, from `playing`: the
/// play/pause key turns it over, the stop key ends it, the track keys keep
/// it as it was.
pub open spec fn playing_after(action: MediaAction, playing: bool) -> bool {
    if !sends_key_spec(action, playing) {
        playing
    } else if media_key(action) == 179 {
        !playing
    } else if media_key(action) == 178 {
        false
    } else {
        playing
    }
}

/// The words that name the playback actions, told apart.
proof fn lemma_action_words()
    ensures
        "play-pause"@.len() == 10,
        "play"@.len() == 4,
        "pause"@.len() == 5,
        "stop"@.len() == 4,
        "next"@.len() == 4,
        "previous"@.len() == 8,
        "playpause"@.len() == 9,
        "next track"@.len() == 10,
        "previous track"@.len() == 14,
        "play"@ != "stop"@,
        "play"@ != "next"@,
        "stop"@ != "next"@,
        "next track"@ == "next"@ + " track"@,
        "previous track"@ == "previous"@ + " track"@,
{
    reveal_strlit(" track");
    reveal_strlit("play-pause");
    reveal_strlit("play");
    reveal_strlit("pause");
    reveal_strlit("stop");
    reveal_strlit("next");
    reveal_strlit("previous");
    reveal_strlit("playpause");
    reveal_strlit("next track");
    reveal_strlit("previous track");
    assert("play"@[0] != "stop"@[0]);
    assert("play"@[0] != "next"@[0]);
    assert("stop"@[0] != "next"@[0]);
    assert("next track"@ =~= "next"@ + " track"@);
    assert("previous track"@ =~= "previous"@ + " track"@);
}

/// Each platform is asked for the action that was requested: on Linux and
/// macOS no two actions give the same command; the Music app is told the
/// same verb as `playerctl` (play to play, pause to pause, stop to stop,
/// next and previous with `track`, play/pause as one word); on Windows
/// stop, next and previous have keys of their own, while play, pause and
/// play/pause press the one play/pause key.
pub proof fn law_media_commands_name_their_action(a: MediaAction, b: MediaAction)
    ensures
        a != b ==> action_command_spec(a, Platform::Linux) != action_command_spec(b, Platform::Linux),
        a != b ==> action_command_spec(a, Platform::MacOs) != action_command_spec(b, Platform::MacOs),
        action_command_spec(MediaAction::Play, Platform::Linux) == Some(("playerctl"@, seq!["play"@])),
        action_command_spec(MediaAction::Pause, Platform::Linux) == Some(("playerctl"@, seq!["pause"@])),
        action_command_spec(MediaAction::Play, Platform::MacOs) == Some(
            ("osascript"@, seq!["-e"@, "tell application \"Music\" to "@ + "play"@]),
        ),
        action_command_spec(MediaAction::Pause, Platform::MacOs) == Some(
            ("osascript"@, seq!["-e"@, "tell application \"Music\" to "@ + "pause"@]),
        ),
        a == MediaAction::Play || a == MediaAction::Pause || a == MediaAction::Stop ==> music_script(a)
            == "tell application \"Music\" to "@ + playerctl_word(a),
        a == MediaAction::NextTrack || a == MediaAction::PreviousTrack ==> music_script(a)
            == "tell application \"Music\" to "@ + playerctl_word(a) + " track"@,
        media_key(MediaAction::Play) == 179 && media_key(MediaAction::Pause) == 179
            && media_key(MediaAction::PlayPause) == 179,
        media_key(MediaAction::Stop) == 178,
        media_key(MediaAction::NextTrack) == 176,
        media_key(MediaAction::PreviousTrack) == 177,
{
    lemma_action_words();
    let pre = "tell application \"Music\" to "@;
    assert(pre + "next"@ + " track"@ =~= pre + ("next"@ + " track"@));
    assert(pre + "previous"@ + " track"@ =~= pre + ("previous"@ + " track"@));
    if a != b {
        let va = music_script(a).subrange(pre.len() as int, music_script(a).len() as int);
        let vb = music_script(b).subrange(pre.len() as int, music_script(b).len() as int);
        assert(va =~= match a {
            MediaAction::PlayPause => "playpause"@,
            MediaAction::Play => "play"@,
            MediaAction::Pause => "pause"@,
            MediaAction::Stop => "stop"@,
            MediaAction::NextTrack => "next track"@,
            MediaAction::PreviousTrack => "previous track"@,
        });
        assert(vb =~= match b {
            MediaAction::PlayPause => "playpause"@,
            MediaAction::Play => "play"@,
            MediaAction::Pause => "pause"@,
            MediaAction::Stop => "stop"@,
            MediaAction::NextTrack => "next track"@,
            MediaAction::PreviousTrack => "previous track"@,
        });
        assert(music_script(a) != music_script(b));
        assert(playerctl_word(a) != playerctl_word(b));
        assert(seq![playerctl_word(a)][0] != seq![playerctl_word(b)][0]);
        let la = action_command_spec(a, Platform::MacOs).unwrap().1;
        assert(la[1] == music_script(a));
    }
}

/// On Windows, play leaves playback running and pause leaves it stopped,
/// whatever state they find; play/pause turns it over.
pub proof fn law_play_and_pause_settle(playing: bool)
    ensures
        playing_after(MediaAction::Play, playing),
        !playing_after(MediaAction::Pause, playing),
        playing_after(MediaAction::PlayPause, playing) == !playing,
        !playing_after(MediaAction::Stop, playing),
{
}

/// The format that asks `playerctl metadata` for the six lines that
/// `MediaControl::metadata_from` reads.
pub open spec fn metadata_format() -> Seq<char> {
    "{{title}}\n{{artist}}\n{{album}}\n{{mpris:length}}\n{{status}}\n{{mpris:artUrl}}"@
}

/// A query of the player.
#[derive(Debug, Clone, Copy, PartialEq, Eq, Structural)]
pub enum MediaQuery {
    Position,
    Duration,
    Metadata,
}

/// The `playerctl` arguments of a query.
pub open spec fn query_args(q: MediaQuery) -> Seq<Seq<char>> {
    match q {
        MediaQuery::Position => seq!["position"@],
        MediaQuery::Duration => seq!["metadata"@, "mpris:length"@],
        MediaQuery::Metadata => seq!["metadata"@, "--format"@, metadata_format()],
    }
}

/// The command `spec` as a result: `UnsupportedOS` where there is none.
pub open spec fn media_command_result(r: Result<ToolCommand, MediaError>, spec: Option<
    (Seq<char>, Seq<Seq<char>>),
>) -> bool {
    match spec {
        Some(c) => r matches Ok(t) && runs(t, c.0, c.1),
        None => r == Err::<ToolCommand, MediaError>(MediaError::UnsupportedOS),
    }
}

/// The number of characters of `s` before its first line feed (all of
/// them where there is none).
pub open spec fn line_end(s: Seq<char>) -> nat
    decreases s.len(),
{
    if s.len() == 0 || s[0] == '\n' {
        0
    } else {
        1 + line_end(s.drop_first())
    }
}

/// A line without the carriage return that ends it, if any.
pub open spec fn without_cr(l: Seq<char>) -> Seq<char> {
    if l.len() > 0 && l.last() == '\r' {
        l.drop_last()
    } else {
        l
    }
}

/// The first line of `s` and the text after it, as `str::lines` yields
/// them: a line ends at a line feed, which is dropped together with a
/// carriage return just before it; the last line needs no line feed, and
/// an empty text has no line.
#[verifier::opaque]
pub open spec fn next_line(s: Seq<char>) -> Option<(Seq<char>, Seq<char>)> {
    if s.len() == 0 {
        None
    } else if line_end(s) == s.len() {
        Some((s, Seq::empty()))
    } else {
        Some((without_cr(s.take(line_end(s) as int)), s.skip(line_end(s) + 1int)))
    }
}

/// The line of `s` with index `n`, if `s` has that many lines.
#[verifier::opaque]
pub open spec fn nth_line(s: Seq<char>, n: nat) -> Option<Seq<char>>
    decreases n,
{
    match next_line(s) {
        None => None,
        Some(p) => if n == 0 {
            Some(p.0)
        } else {
            nth_line(p.1, (n - 1) as nat)
        },
    }
}

/// The line of `s` with index `n`, or `default` where there is none.
pub open spec fn line_or(s: Seq<char>, n: nat, default: Seq<char>) -> Seq<char> {
    match nth_line(s, n) {
        Some(l) => l,
        None => default,
    }
}

/// The number of characters before the first line feed of `s` from `i` on.
fn line_end_exec(s: &[char], i: usize) -> (k: usize)
    requires
        i <= s.len(),
    ensures
        k == line_end(s@.skip(i as int)),
        i + k <= s.len(),
{
    let mut j: usize = i;
    while j < s.len() && s[j] != '\n'
        invariant
            i <= j <= s@.len(),
            line_end(s@.skip(i as int)) == (j - i) + line_end(s@.skip(j as int)),
        decreases s@.len() - j,
    {
        assert(s@.skip(j as int).drop_first() =~= s@.skip(j + 1));
        j += 1;
    }
    j - i
}

/// The characters of `s` from `from` up to `to`.
fn copy_range(s: &[char], from: usize, to: usize) -> (r: Vec<char>)
    requires
        from <= to <= s.len(),
    ensures
        r@ == s@.subrange(from as int, to as int),
{
    let mut r: Vec<char> = Vec::new();
    let mut i: usize = from;
    while i < to
        invariant
            from <= i <= to <= s@.len(),
            r@ == s@.subrange(from as int, i as int),
        decreases to - i,
    {
        r.push(s[i]);
        i += 1;
        assert(r@ =~= s@.subrange(from as int, i as int));
    }
    r
}

/// The first line of `s` from `i` on, and the index where the rest begins.
fn next_line_exec(s: &[char], i: usize) -> (r: Option<(Vec<char>, usize)>)
    requires
        i <= s.len(),
    ensures
        match next_line(s@.skip(i as int)) {
            None => r is None,
            Some(p) => r matches Some(q) && q.0@ == p.0 && i <= q.1 <= s@.len() && s@.skip(
                q.1 as int,
            ) == p.1,
        },
{
    proof {
        reveal(next_line);
    }
    if i == s.len() {
        assert(s@.skip(i as int) =~= Seq::<char>::empty());
        return None;
    }
    let k = line_end_exec(s, i);
    let ghost t = s@.skip(i as int);
    if i + k == s.len() {
        let v = copy_range(s, i, s.len());
        assert(v@ =~= t);
        assert(s@.skip(s@.len() as int) =~= Seq::<char>::empty());
        return Some((v, s.len()));
    }
    let e: usize = if k > 0 && s[i + k - 1] == '\r' {
        i + k - 1
    } else {
        i + k
    };
    let v = copy_range(s, i, e);
    assert(v@ =~= without_cr(t.take(k as int)));
    assert(s@.skip(i + k + 1) =~= t.skip(k + 1));
    Some((v, i + k + 1))
}

/// The line of `s` with index `n`, if there is one.
pub fn nth_line_exec(s: &[char], n: usize) -> (r: Option<Vec<char>>)
    ensures
        match nth_line(s@, n as nat) {
            Some(l) => r matches Some(v) && v@ == l,
            None => r is None,
        },
{
    let mut i: usize = 0;
    let mut m: usize = n;
    assert(s@.skip(0) =~= s@);
    proof {
        reveal(nth_line);
    }
    loop
        invariant
            i <= s@.len(),
            nth_line(s@, n as nat) == nth_line(s@.skip(i as int), m as nat),
        decreases m,
    {
        proof {
            reveal(nth_line);
        }
        match next_line_exec(s, i) {
            None => {
                return None;
            },
            Some(q) => {
                if m == 0 {
                    return Some(q.0);
                }
                i = q.1;
                m -= 1;
            },
        }
    }
}

/// The line of `s` with index `n`, or `default` where there is none.
fn line_or_exec(s: &[char], n: usize, default: &str) -> (r: String)
    ensures
        r@ == line_or(s@, n as nat, default@),
{
    match nth_line_exec(s, n) {
        Some(v) => string_of(v.as_slice()),
        None => owned(default),
    }
}

/// The media metadata.
#[derive(Debug)]
pub struct MediaMetadata {
    pub title: String,
    pub artist: String,
    pub album: String,
    pub duration: Duration,
    pub position: Duration,
    pub playing: bool,
    pub artwork_url: Option<String>,
}

/// The metadata that the six lines of `s` (as `metadata_format` asks for
/// them) describe, with the duration `micros` long and at `position`: a
/// missing line counts as empty, an empty artwork line as no artwork, and
/// only the status `Playing` as playing.
pub open spec fn metadata_of(s: Seq<char>, micros: u64, position: Duration, m: MediaMetadata) -> bool {
    &&& m.title@ == line_or(s, 0, Seq::empty())
    &&& m.artist@ == line_or(s, 1, Seq::empty())
    &&& m.album@ == line_or(s, 2, Seq::empty())
    &&& m.duration == duration_of_micros(micros)
    &&& m.position == position
    &&& m.playing == (line_or(s, 4, Seq::empty()) == "Playing"@)
    &&& if line_or(s, 5, Seq::empty()).len() == 0 {
        m.artwork_url is None
    } else {
        m.artwork_url matches Some(u) && u@ == line_or(s, 5, Seq::empty())
    }
}

/// `r` is the error for a number that did not parse, for the reason `k`.
pub open spec fn number_error<T>(r: Result<T, Error>, k: IntErrorKind) -> bool {
    r matches Err(Error::Msg(m)) && m@ == int_error_message(k)
}

/// The report shown for media metadata, one labelled line per field.
pub open spec fn metadata_text(m: MediaMetadata) -> Seq<char> {
    "=== MEDIA METADATA ===\n"@ + "Title         : "@ + m.title@ + "\n"@ + "Artist        : "@
        + m.artist@ + "\n"@ + "Album         : "@ + m.album@ + "\n"@ + "Duration      : "@
        + duration_debug_text(m.duration) + "\n"@ + "Position      : "@ + duration_debug_text(
        m.position,
    ) + "\n"@ + "Playing       : "@ + (if m.playing {
        "Yes"@
    } else {
        "No"@
    }) + "\n"@ + "Artwork URL   : "@ + match m.artwork_url {
        Some(u) => u@,
        None => "None"@,
    } + "\n"@
}

impl MediaMetadata {
    /// The report shown for the metadata.
    pub fn display_text(&self) -> (r: String)
        ensures
            r@ == metadata_text(*self),
    {
        let mut s = owned("=== MEDIA METADATA ===\n");
        push_str(&mut s, "Title         : ");
        push_str(&mut s, self.title.as_str());
        push_str(&mut s, "\n");
        push_str(&mut s, "Artist        : ");
        push_str(&mut s, self.artist.as_str());
        push_str(&mut s, "\n");
        push_str(&mut s, "Album         : ");
        push_str(&mut s, self.album.as_str());
        push_str(&mut s, "\n");
        push_str(&mut s, "Duration      : ");
        let d = duration_text(&self.duration);
        push_str(&mut s, d.as_str());
        push_str(&mut s, "\n");
        push_str(&mut s, "Position      : ");
        let p = duration_text(&self.position);
        push_str(&mut s, p.as_str());
        push_str(&mut s, "\n");
        push_str(&mut s, "Playing       : ");
        if self.playing {
            push_str(&mut s, "Yes");
        } else {
            push_str(&mut s, "No");
        }
        push_str(&mut s, "\n");
        push_str(&mut s, "Artwork URL   : ");
        match &self.artwork_url {
            Some(u) => push_str(&mut s, u.as_str()),
            None => push_str(&mut s, "None"),
        }
        push_str(&mut s, "\n");
        assert(s@ =~= metadata_text(*self));
        s
    }
}

/// The media control manager (on Linux it drives `playerctl`).
#[derive(Debug)]
pub struct MediaControl;

impl MediaControl {
    /// The command that carries out `action` on a platform.
    pub fn command(action: MediaAction, platform: Platform) -> (r: Result<ToolCommand, MediaError>)
        ensures
            media_command_result(r, action_command_spec(action, platform)),
    {
        let mut args: Vec<String> = Vec::new();
        let program = match platform {
            Platform::Linux => {
                let word = match action {
                    MediaAction::PlayPause => "play-pause",
                    MediaAction::Play => "play",
                    MediaAction::Pause => "pause",
                    MediaAction::Stop => "stop",
                    MediaAction::NextTrack => "next",
                    MediaAction::PreviousTrack => "previous",
                };
                args.push(owned(word));
                owned("playerctl")
            },
            Platform::MacOs => {
                let mut script = owned("tell application \"Music\" to ");
                let what = match action {
                    MediaAction::PlayPause => "playpause",
                    MediaAction::Play => "play",
                    MediaAction::Pause => "pause",
                    MediaAction::Stop => "stop",
                    MediaAction::NextTrack => "next track",
                    MediaAction::PreviousTrack => "previous track",
                };
                push_str(&mut script, what);
                args.push(owned("-e"));
                args.push(script);
                owned("osascript")
            },
            Platform::Windows => {
                let key: u128 = match action {
                    MediaAction::PlayPause => 179,
                    MediaAction::Play => 179,
                    MediaAction::Pause => 179,
                    MediaAction::Stop => 178,
                    MediaAction::NextTrack => 176,
                    MediaAction::PreviousTrack => 177,
                };
                let mut script = owned("(New-Object -ComObject WScript.Shell).SendKeys([char]");
                push_decimal(&mut script, key);
                push_str(&mut script, ")");
                args.push(owned("-NoProfile"));
                args.push(owned("-Command"));
                args.push(script);
                owned("powershell")
            },
            Platform::Other => {
                return Err(MediaError::UnsupportedOS);
            },
        };
        let r = ToolCommand { program, args };
        assert(string_views(r.args@) =~= action_command_spec(action, platform).unwrap().1);
        Ok(r)
    }

    /// The command that reports whether media plays, where `action` needs
    /// to know it: play and pause on Windows, which share one key.
    pub fn playback_state_command(action: MediaAction, platform: Platform) -> (r: Option<ToolCommand>)
        ensures
            needs_playback_state(action, platform) ==> (r matches Some(c) && runs(
                c,
                "powershell"@,
                seq!["-NoProfile"@, "-Command"@, playback_state_script()],
            )),
            !needs_playback_state(action, platform) ==> r is None,
    {
        let shared = match action {
            MediaAction::Play => true,
            MediaAction::Pause => true,
            _ => false,
        };
        if platform != Platform::Windows || !shared {
            return None;
        }
        let mut args: Vec<String> = Vec::new();
        args.push(owned("-NoProfile"));
        args.push(owned("-Command"));
        args.push(owned("Add-Type -AssemblyName System.Runtime.WindowsRuntime; $m=[Windows.Media.Control.GlobalSystemMediaTransportControlsSessionManager,Windows.Media.Control,ContentType=WindowsRuntime]; $t=([System.WindowsRuntimeSystemExtensions].GetMethods()|?{$_.Name -eq 'AsTask' -and $_.GetParameters().Count -eq 1 -and $_.GetParameters()[0].ParameterType.Name -eq 'IAsyncOperation`1'})[0].MakeGenericMethod($m).Invoke($null,@($m::RequestAsync())); $s=$t.Result.GetCurrentSession(); if($s){$s.GetPlaybackInfo().PlaybackStatus}"));
        let r = ToolCommand { program: owned("powershell"), args };
        assert(string_views(r.args@) =~= seq!["-NoProfile"@, "-Command"@, playback_state_script()]);
        Some(r)
    }

    /// Whether the answer of the playback state command says that media
    /// plays: its text without surrounding white space is `Playing`.
    pub fn playing_from(stdout: &str) -> (r: bool)
        ensures
            r == (trim(stdout@) == "Playing"@),
    {
        let t = string_of(trim_str(stdout).as_slice());
        str_equal(t.as_str(), "Playing")
    }

    /// Whether to send the command of `action` when playback is `playing`
    /// (as far as it is known): play and pause are sent only where they
    /// change it, every other action always.
    pub fn sends_key(action: MediaAction, playing: bool) -> (r: bool)
        ensures
            r == sends_key_spec(action, playing),
    {
        match action {
            MediaAction::Play => !playing,
            MediaAction::Pause => playing,
            _ => true,
        }
    }

    /// The command that moves the position `seconds` forward (`forward`) or
    /// back; only `playerctl` can seek.
    pub fn seek_command(seconds: u32, forward: bool, platform: Platform) -> (r: Result<
        ToolCommand,
        MediaError,
    >)
        ensures
            media_command_result(
                r,
                if platform == Platform::Linux {
                    Some(
                        (
                            "playerctl"@,
                            seq![
                                "position"@,
                                decimal(seconds as nat) + if forward {
                                    "+"@
                                } else {
                                    "-"@
                                },
                            ],
                        ),
                    )
                } else {
                    None
                },
            ),
    {
        if platform != Platform::Linux {
            return Err(MediaError::UnsupportedOS);
        }
        let mut offset = String::new();
        push_decimal(&mut offset, seconds as u128);
        if forward {
            push_str(&mut offset, "+");
        } else {
            push_str(&mut offset, "-");
        }
        let mut args: Vec<String> = Vec::new();
        args.push(owned("position"));
        args.push(offset);
        let r = ToolCommand { program: owned("playerctl"), args };
        assert(string_views(r.args@) =~= seq![
            "position"@,
            decimal(seconds as nat) + if forward {
                "+"@
            } else {
                "-"@
            },
        ]);
        Ok(r)
    }

    /// The command that asks the player for the position, the duration or
    /// the metadata; only `playerctl` answers these.
    pub fn query_command(query: MediaQuery, platform: Platform) -> (r: Result<ToolCommand, MediaError>)
        ensures
            media_command_result(
                r,
                if platform == Platform::Linux {
                    Some(("playerctl"@, query_args(query)))
                } else {
                    None
                },
            ),
    {
        if platform != Platform::Linux {
            return Err(MediaError::UnsupportedOS);
        }
        let mut args: Vec<String> = Vec::new();
        match query {
            MediaQuery::Position => {
                args.push(owned("position"));
            },
            MediaQuery::Duration => {
                args.push(owned("metadata"));
                args.push(owned("mpris:length"));
            },
            MediaQuery::Metadata => {
                args.push(owned("metadata"));
                args.push(owned("--format"));
                args.push(
                    owned(
                        "{{title}}\n{{artist}}\n{{album}}\n{{mpris:length}}\n{{status}}\n{{mpris:artUrl}}",
                    ),
                );
            },
        }
        let r = ToolCommand { program: owned("playerctl"), args };
        assert(string_views(r.args@) =~= query_args(query));
        Ok(r)
    }

    /// The answer of `playerctl`: its output without surrounding white
    /// space where it succeeded, `PlayerNotFound` where it did not.
    pub fn player_output(success: bool, stdout: &str) -> (r: Result<String, MediaError>)
        ensures
            success ==> (r matches Ok(t) && t@ == trim(stdout@)),
            !success ==> r == Err::<String, MediaError>(MediaError::PlayerNotFound),
    {
        if !success {
            return Err(MediaError::PlayerNotFound);
        }
        let t = trim_chars(chars_of(stdout).as_slice());
        Ok(string_of(t.as_slice()))
    }

    /// The answer of `playerctl` to the metadata query: its output without
    /// trailing white space where it succeeded, so that an empty first field
    /// keeps its line; `PlayerNotFound` where it did not.
    pub fn metadata_output(success: bool, stdout: &str) -> (r: Result<String, MediaError>)
        ensures
            success ==> (r matches Ok(t) && t@ == trim_end(stdout@)),
            !success ==> r == Err::<String, MediaError>(MediaError::PlayerNotFound),
    {
        if !success {
            return Err(MediaError::PlayerNotFound);
        }
        let t = trim_end_str(stdout);
        Ok(string_of(t.as_slice()))
    }

    /// The duration that `playerctl metadata mpris:length` answers with, a
    /// number of microseconds.
    pub fn duration_from(output: &str) -> (r: Result<Duration, Error>)
        ensures
            match parse_unsigned(output@, u64::MAX as nat) {
                Ok(v) => r == Ok::<Duration, Error>(duration_of_micros(v as u64)),
                Err(k) => number_error(r, k),
            },
    {
        let c = chars_of(output);
        match parse_unsigned_chars(c.as_slice(), 0xffff_ffff_ffff_ffff) {
            Ok(v) => Ok(micros_duration(v)),
            Err(k) => Err(Error::Msg(owned(k.message()))),
        }
    }

    /// The metadata that `playerctl` answers with for `metadata_format`,
    /// with the position already read: the length line (`0` where it is
    /// missing) must be a number of microseconds, and is read before the
    /// position's own outcome is taken.
    pub fn metadata_from(output: &str, position: Result<Duration, Error>) -> (r: Result<
        MediaMetadata,
        Error,
    >)
        ensures
            match parse_unsigned(line_or(output@, 3, "0"@), u64::MAX as nat) {
                Err(k) => number_error(r, k),
                Ok(micros) => match position {
                    Err(e) => r == Err::<MediaMetadata, Error>(e),
                    Ok(p) => r matches Ok(m) && metadata_of(output@, micros as u64, p, m),
                },
            },
    {
        proof {
            reveal_strlit("");
        }
        let c = chars_of(output);
        let s = c.as_slice();
        let title = line_or_exec(s, 0, "");
        let artist = line_or_exec(s, 1, "");
        let album = line_or_exec(s, 2, "");
        let length = chars_of(line_or_exec(s, 3, "0").as_str());
        let micros = match parse_unsigned_chars(length.as_slice(), 0xffff_ffff_ffff_ffff) {
            Ok(v) => v,
            Err(k) => {
                return Err(Error::Msg(owned(k.message())));
            },
        };
        let duration = micros_duration(micros);
        let status = line_or_exec(s, 4, "");
        let playing = crate::text::str_equal(status.as_str(), "Playing");
        assert(status@ == line_or(output@, 4, Seq::empty()));
        assert(playing == (status@ == "Playing"@));
        let art = line_or_exec(s, 5, "");
        let artwork_url = if art.unicode_len() == 0 {
            None
        } else {
            Some(art)
        };
        let position = match position {
            Ok(p) => p,
            Err(e) => {
                return Err(e);
            },
        };
        let m = MediaMetadata { title, artist, album, duration, position, playing, artwork_url };
        assert(m.title@ == line_or(output@, 0, Seq::empty()));
        assert(m.playing == (line_or(output@, 4, Seq::empty()) == "Playing"@));
        assert(m.duration == duration_of_micros(micros));
        assert(parse_unsigned(line_or(output@, 3, "0"@), u64::MAX as nat) == Ok::<nat, IntErrorKind>(micros as nat));
        assert(if line_or(output@, 5, Seq::empty()).len() == 0 {
        m.artwork_url is None
    } else {
        m.artwork_url matches Some(u) && u@ == line_or(output@, 5, Seq::empty())
    });
        assert(m.artist@ == line_or(output@, 1, Seq::empty()));
        assert(m.album@ == line_or(output@, 2, Seq::empty()));
        assert(m.position == position);
        assert(metadata_of(output@, micros, position, m));
        Ok(m)
    }
}

/// `l` holds no line feed.
#[verifier::opaque]
pub open spec fn single_line(l: Seq<char>) -> bool {
    forall|i: int| 0 <= i < l.len() ==> l[i] != '\n'
}

proof fn lemma_line_end_of_line(l: Seq<char>, rest: Seq<char>)
    requires
        single_line(l),
    ensures
        line_end(l + rest) == l.len() + line_end(rest),
    decreases l.len(),
{
    reveal(single_line);
    if l.len() > 0 {
        assert((l + rest).drop_first() =~= l.drop_first() + rest);
        assert(single_line(l.drop_first())) by {
            assert forall|i: int| 0 <= i < l.drop_first().len() implies l.drop_first()[i] != '\n' by {
                assert(l.drop_first()[i] == l[i + 1]);
            }
        }
        lemma_line_end_of_line(l.drop_first(), rest);
    } else {
        assert(l + rest =~= rest);
    }
}

/// A line followed by a line feed is read as that line, and the reading
/// goes on after the line feed.
proof fn lemma_next_line_of_line(l: Seq<char>, rest: Seq<char>)
    requires
        single_line(l),
        l.len() == 0 || l.last() != '\r',
    ensures
        next_line(l + ("\n"@ + rest)) == Some((l, rest)),
{
    reveal(next_line);
    reveal_strlit("\n");
    let s = l + ("\n"@ + rest);
    lemma_line_end_of_line(l, "\n"@ + rest);
    assert(line_end("\n"@ + rest) == 0);
    assert(s.take(l.len() as int) =~= l);
    assert(s.skip(l.len() + 1int) =~= rest);
}

/// The last line, without a line feed after it, is read as itself; an empty
/// text has no line.
proof fn lemma_next_line_of_last(l: Seq<char>)
    requires
        single_line(l),
    ensures
        l.len() > 0 ==> next_line(l) == Some((l, Seq::<char>::empty())),
        l.len() == 0 ==> next_line(l) is None,
{
    reveal(next_line);
    lemma_line_end_of_line(l, Seq::empty());
    assert(l + Seq::<char>::empty() =~= l);
}

/// The answer to `metadata_format`: the title, artist, album, length in
/// microseconds, status and artwork address, one per line.
pub open spec fn metadata_answer(
    title: Seq<char>,
    artist: Seq<char>,
    album: Seq<char>,
    micros: u64,
    status: Seq<char>,
    artwork: Seq<char>,
) -> Seq<char> {
    title + ("\n"@ + (artist + ("\n"@ + (album + ("\n"@ + (decimal(micros as nat) + ("\n"@ + (status
        + ("\n"@ + artwork)))))))))
}

/// The answer that `playerctl` gives for `metadata_format` reads back as the
/// fields it was made of, where no field spans lines: each text line is
/// that field, an empty title included, and the length line is the number
/// of microseconds. Where the artwork address ends the answer with no white
/// space after it, the answer is as `metadata_output` passes it on.
pub proof fn law_metadata_reads_back(
    title: Seq<char>,
    artist: Seq<char>,
    album: Seq<char>,
    micros: u64,
    status: Seq<char>,
    artwork: Seq<char>,
)
    requires
        single_line(title) && (title.len() == 0 || title.last() != '\r'),
        single_line(artist) && (artist.len() == 0 || artist.last() != '\r'),
        single_line(album) && (album.len() == 0 || album.last() != '\r'),
        single_line(status) && (status.len() == 0 || status.last() != '\r'),
        single_line(artwork),
    ensures
        ({
            let s = metadata_answer(title, artist, album, micros, status, artwork);
            &&& line_or(s, 0, Seq::empty()) == title
            &&& line_or(s, 1, Seq::empty()) == artist
            &&& line_or(s, 2, Seq::empty()) == album
            &&& parse_unsigned(line_or(s, 3, "0"@), u64::MAX as nat) == Ok::<nat, IntErrorKind>(
                micros as nat,
            )
            &&& line_or(s, 4, Seq::empty()) == status
            &&& line_or(s, 5, Seq::empty()) == artwork
            &&& (artwork.len() > 0 && !is_space(artwork.last())) ==> trim_end(s) == s
        }),
{
    let nl = "\n"@;
    let d = decimal(micros as nat);
    lemma_decimal_line(micros);
    let r5 = artwork;
    let r4 = status + (nl + r5);
    let r3 = d + (nl + r4);
    let r2 = album + (nl + r3);
    let r1 = artist + (nl + r2);
    let r0 = title + (nl + r1);
    let ghost last = nth_line(r5, 0);
    assert(last == (if artwork.len() > 0 {
        Some(artwork)
    } else {
        None
    })) by {
        lemma_next_line_of_last(artwork);
        if artwork.len() > 0 {
            lemma_nth_after(r5, artwork, Seq::empty(), 0);
        } else {
            lemma_nth_none(r5, 0);
        }
    }
    lemma_line_then(status, r5, 0);
    lemma_line_then(d, r4, 0);
    lemma_line_then(d, r4, 1);
    lemma_line_then(album, r3, 0);
    lemma_line_then(album, r3, 1);
    lemma_line_then(album, r3, 2);
    lemma_line_then(artist, r2, 0);
    lemma_line_then(artist, r2, 1);
    lemma_line_then(artist, r2, 2);
    lemma_line_then(artist, r2, 3);
    lemma_line_then(title, r1, 0);
    lemma_line_then(title, r1, 1);
    lemma_line_then(title, r1, 2);
    lemma_line_then(title, r1, 3);
    lemma_line_then(title, r1, 4);
    if artwork.len() == 0 {
        assert(artwork =~= Seq::<char>::empty());
    } else {
        lemma_ends_as(status, r5);
        lemma_ends_as(d, r4);
        lemma_ends_as(album, r3);
        lemma_ends_as(artist, r2);
        lemma_ends_as(title, r1);
        assert(r0.last() == artwork.last());
    }
}

/// A line and a line feed in front of `rest` end as `rest` does.
proof fn lemma_ends_as(l: Seq<char>, rest: Seq<char>)
    requires
        rest.len() > 0,
    ensures
        (l + ("\n"@ + rest)).last() == rest.last(),
        (l + ("\n"@ + rest)).len() > 0,
{
}

/// A text without lines has no line of any index.
proof fn lemma_nth_none(s: Seq<char>, n: nat)
    requires
        next_line(s) is None,
    ensures
        nth_line(s, n) is None,
{
    reveal(nth_line);
}

/// A line and a line feed in front of `rest`: the first line is `l`, and
/// the others are those of `rest`.
proof fn lemma_line_then(l: Seq<char>, rest: Seq<char>, n: nat)
    requires
        single_line(l),
        l.len() == 0 || l.last() != '\r',
    ensures
        nth_line(l + ("\n"@ + rest), 0) == Some(l),
        nth_line(l + ("\n"@ + rest), n + 1) == nth_line(rest, n),
{
    lemma_next_line_of_line(l, rest);
    lemma_nth_after(l + ("\n"@ + rest), l, rest, n);
}

/// Stepping past one line of `s` moves the line indices down by one.
proof fn lemma_nth_after(s: Seq<char>, l: Seq<char>, rest: Seq<char>, n: nat)
    requires
        next_line(s) == Some((l, rest)),
    ensures
        nth_line(s, 0) == Some(l),
        nth_line(s, n + 1) == nth_line(rest, n),
{
    reveal(nth_line);
}

/// The decimal digits of a number form one line, without a carriage
/// return, and read back as the number.
proof fn lemma_decimal_line(micros: u64)
    ensures
        single_line(decimal(micros as nat)),
        decimal(micros as nat).last() != '\r',
        parse_unsigned(decimal(micros as nat), u64::MAX as nat) == Ok::<nat, IntErrorKind>(
            micros as nat,
        ),
{
    let d = decimal(micros as nat);
    lemma_decimal_facts(micros as nat, u64::MAX as nat);
    reveal(single_line);
    assert forall|i: int| 0 <= i < d.len() implies d[i] != '\n' by {
        assert(is_digit(d[i]));
    }
    assert(is_digit(d[d.len() - 1]));
}

} // verus!
