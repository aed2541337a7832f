//! Theme styles and the text exchanged with the desktop settings tools.
use vstd::prelude::*;
use crate::error::ThemeError;
use crate::tool::{owned, runs, ToolCommand};
use crate::text::{string_views, has_infix, lowercase, occurs_at, str_contains, str_equal, string_of, to_lower, trim, trim_str};

verus! {

/// The system theme mode.
#[derive(Debug, Clone, Copy, PartialEq, Eq, Structural, Hash)]
pub enum ThemeStyle {
    Light,
    Dark,
}

impl ThemeStyle {
    pub fn is_light(&self) -> (r: bool)
        ensures
            r == (*self == ThemeStyle::Light),
    {
        match self {
            ThemeStyle::Light => true,
            ThemeStyle::Dark => false,
        }
    }

    pub fn is_dark(&self) -> (r: bool)
        ensures
            r == (*self == ThemeStyle::Dark),
    {
        match self {
            ThemeStyle::Light => false,
            ThemeStyle::Dark => true,
        }
    }

    /// The lowercase name under which the style is shown and serialised.
    pub fn name(&self) -> (r: &'static str)
        ensures
            r@ == style_name(*self),
    {
        match self {
            ThemeStyle::Light => "light",
            ThemeStyle::Dark => "dark",
        }
    }
}

pub open spec fn style_name(s: ThemeStyle) -> Seq<char> {
    match s {
        ThemeStyle::Light => "light"@,
        ThemeStyle::Dark => "dark"@,
    }
}

/// The GNOME `color-scheme` value written for a style.
pub open spec fn gsettings_scheme_spec(s: ThemeStyle) -> Seq<char> {
    match s {
        ThemeStyle::Dark => "prefer-dark"@,
        ThemeStyle::Light => "prefer-light"@,
    }
}

/// The value of the `AppsUseLightTheme` registry entry for a style.
pub open spec fn registry_value_spec(s: ThemeStyle) -> u32 {
    match s {
        ThemeStyle::Dark => 0,
        ThemeStyle::Light => 1,
    }
}

/// System theme switcher.
#[derive(Debug)]
pub struct SystemTheme;

impl SystemTheme {
    /// The `color-scheme` value that `gsettings set` is given for `style`.
    pub fn gsettings_scheme(style: ThemeStyle) -> (r: &'static str)
        ensures
            r@ == gsettings_scheme_spec(style),
    {
        match style {
            ThemeStyle::Dark => "prefer-dark",
            ThemeStyle::Light => "prefer-light",
        }
    }

    /// The AppleScript that switches dark mode on or off for `style`.
    pub fn osascript_switch_script(style: ThemeStyle) -> (r: &'static str)
        ensures
            style == ThemeStyle::Dark ==> r@
                == "tell application \"System Events\" to tell appearance preferences to set dark mode to true"@,
            style == ThemeStyle::Light ==> r@
                == "tell application \"System Events\" to tell appearance preferences to set dark mode to false"@,
    {
        match style {
            ThemeStyle::Dark => {
                "tell application \"System Events\" to tell appearance preferences to set dark mode to true"
            },
            ThemeStyle::Light => {
                "tell application \"System Events\" to tell appearance preferences to set dark mode to false"
            },
        }
    }

    /// The value written to `AppsUseLightTheme` and `SystemUsesLightTheme`.
    pub fn registry_value(style: ThemeStyle) -> (r: u32)
        ensures
            r == registry_value_spec(style),
    {
        if style.is_dark() {
            0
        } else {
            1
        }
    }

    /// The style that `gsettings get ... color-scheme` reports: dark exactly
    /// when its output mentions `prefer-dark`.
    pub fn style_from_gsettings(stdout: &str) -> (r: ThemeStyle)
        ensures
            r == (if has_infix(stdout@, "prefer-dark"@) {
                ThemeStyle::Dark
            } else {
                ThemeStyle::Light
            }),
    {
        if str_contains(stdout, "prefer-dark") {
            ThemeStyle::Dark
        } else {
            ThemeStyle::Light
        }
    }

    /// The style that the AppleScript `get dark mode` reports: dark exactly
    /// when its trimmed, lowercased output is `true`.
    pub fn style_from_osascript(stdout: &str) -> (r: ThemeStyle)
        ensures
            r == (if lowercase(trim(stdout@)) == "true"@ {
                ThemeStyle::Dark
            } else {
                ThemeStyle::Light
            }),
    {
        let t = string_of(trim_str(stdout).as_slice());
        let l = to_lower(t.as_str());
        if str_equal(l.as_str(), "true") {
            ThemeStyle::Dark
        } else {
            ThemeStyle::Light
        }
    }

    /// The `gsettings` command that sets GNOME's colour scheme for `style`.
    pub fn gsettings_set_command(style: ThemeStyle) -> (r: ToolCommand)
        ensures
            runs(
                r,
                "gsettings"@,
                seq!["set"@, "org.gnome.desktop.interface"@, "color-scheme"@, gsettings_scheme_spec(style)],
            ),
    {
        let mut args: Vec<String> = Vec::new();
        args.push(owned("set"));
        args.push(owned("org.gnome.desktop.interface"));
        args.push(owned("color-scheme"));
        args.push(owned(Self::gsettings_scheme(style)));
        let r = ToolCommand { program: owned("gsettings"), args };
        assert(string_views(r.args@) =~= seq![
            "set"@,
            "org.gnome.desktop.interface"@,
            "color-scheme"@,
            gsettings_scheme_spec(style),
        ]);
        r
    }

    /// The `gsettings` command that reports GNOME's colour scheme.
    pub fn gsettings_get_command() -> (r: ToolCommand)
        ensures
            runs(r, "gsettings"@, seq!["get"@, "org.gnome.desktop.interface"@, "color-scheme"@]),
    {
        let mut args: Vec<String> = Vec::new();
        args.push(owned("get"));
        args.push(owned("org.gnome.desktop.interface"));
        args.push(owned("color-scheme"));
        let r = ToolCommand { program: owned("gsettings"), args };
        assert(string_views(r.args@) =~= seq![
            "get"@,
            "org.gnome.desktop.interface"@,
            "color-scheme"@,
        ]);
        r
    }

    /// The `osascript` command that switches macOS's dark mode for `style`.
    pub fn osascript_switch_command(style: ThemeStyle) -> (r: ToolCommand)
        ensures
            style == ThemeStyle::Dark ==> runs(
                r,
                "osascript"@,
                seq![
                    "-e"@,
                    "tell application \"System Events\" to tell appearance preferences to set dark mode to true"@,
                ],
            ),
            style == ThemeStyle::Light ==> runs(
                r,
                "osascript"@,
                seq![
                    "-e"@,
                    "tell application \"System Events\" to tell appearance preferences to set dark mode to false"@,
                ],
            ),
    {
        let script = Self::osascript_switch_script(style);
        let mut args: Vec<String> = Vec::new();
        args.push(owned("-e"));
        args.push(owned(script));
        let r = ToolCommand { program: owned("osascript"), args };
        assert(string_views(r.args@) =~= seq!["-e"@, script@]);
        r
    }

    /// The `osascript` command that reports whether macOS is in dark mode.
    pub fn osascript_get_command() -> (r: ToolCommand)
        ensures
            runs(
                r,
                "osascript"@,
                seq![
                    "-e"@,
                    "tell application \"System Events\" to tell appearance preferences to get dark mode"@,
                ],
            ),
    {
        let mut args: Vec<String> = Vec::new();
        args.push(owned("-e"));
        args.push(
            owned(
                "tell application \"System Events\" to tell appearance preferences to get dark mode",
            ),
        );
        let r = ToolCommand { program: owned("osascript"), args };
        assert(string_views(r.args@) =~= seq![
            "-e"@,
            "tell application \"System Events\" to tell appearance preferences to get dark mode"@,
        ]);
        r
    }

    /// The outcome of running `gsettings`: a failed run is
    /// `GsettingsExitStatus`; a successful `get` reports the style of its
    /// output.
    pub fn current_from_gsettings(success: bool, stdout: &str) -> (r: Result<ThemeStyle, ThemeError>)
        ensures
            !success ==> r == Err::<ThemeStyle, ThemeError>(ThemeError::GsettingsExitStatus),
            success ==> r == Ok::<ThemeStyle, ThemeError>(
                if has_infix(stdout@, "prefer-dark"@) {
                    ThemeStyle::Dark
                } else {
                    ThemeStyle::Light
                },
            ),
    {
        if !success {
            return Err(ThemeError::GsettingsExitStatus);
        }
        Ok(Self::style_from_gsettings(stdout))
    }

    /// The outcome of running `osascript`: a failed run is
    /// `OsascriptExitStatus`; a successful `get dark mode` reports the style
    /// of its output.
    pub fn current_from_osascript(success: bool, stdout: &str) -> (r: Result<ThemeStyle, ThemeError>)
        ensures
            !success ==> r == Err::<ThemeStyle, ThemeError>(ThemeError::OsascriptExitStatus),
            success ==> r == Ok::<ThemeStyle, ThemeError>(
                if lowercase(trim(stdout@)) == "true"@ {
                    ThemeStyle::Dark
                } else {
                    ThemeStyle::Light
                },
            ),
    {
        if !success {
            return Err(ThemeError::OsascriptExitStatus);
        }
        Ok(Self::style_from_osascript(stdout))
    }

    /// The style that an `AppsUseLightTheme` value stands for (0 is dark).
    pub fn style_from_registry(val: u32) -> (r: ThemeStyle)
        ensures
            r == (if val == 0 {
                ThemeStyle::Dark
            } else {
                ThemeStyle::Light
            }),
    {
        if val == 0 {
            ThemeStyle::Dark
        } else {
            ThemeStyle::Light
        }
    }
}

/// What `gsettings get` prints for a scheme value: the value in single quotes.
pub open spec fn gsettings_report(scheme: Seq<char>) -> Seq<char> {
    seq!['\''] + scheme + seq!['\'', '\n']
}

/// Reading the GNOME setting back after switching gives the style that was
/// switched to.
pub proof fn law_gsettings_read_back(style: ThemeStyle)
    ensures
        (if has_infix(gsettings_report(gsettings_scheme_spec(style)), "prefer-dark"@) {
            ThemeStyle::Dark
        } else {
            ThemeStyle::Light
        }) == style,
{
    reveal_strlit("prefer-dark");
    reveal_strlit("prefer-light");
    let r = gsettings_report(gsettings_scheme_spec(style));
    match style {
        ThemeStyle::Dark => {
            assert(r.subrange(1, 12) =~= "prefer-dark"@);
            assert(occurs_at(r, "prefer-dark"@, 1));
        },
        ThemeStyle::Light => {
            assert forall|i: int| !occurs_at(r, "prefer-dark"@, i) by {
                if occurs_at(r, "prefer-dark"@, i) {
                    assert(r.subrange(i, i + 11)[7] == "prefer-dark"@[7]);
                }
            }
        },
    }
}

/// Reading the registry entry back after switching gives the style that was
/// switched to.
pub proof fn law_registry_read_back(style: ThemeStyle)
    ensures
        (if registry_value_spec(style) == 0 {
            ThemeStyle::Dark
        } else {
            ThemeStyle::Light
        }) == style,
{
}

} // verus!
