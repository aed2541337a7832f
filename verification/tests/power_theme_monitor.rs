use system_utils::error::{Platform, PowerError, ThemeError};
use system_utils::monitor::Snapshot;
use system_utils::power::{PowerManager, PowerMode, PowerPlan, PowerSchedule, ScheduledPowerTask, Timestamp};
use system_utils::theme::{SystemTheme, ThemeStyle};

fn at(secs: i64) -> Timestamp {
    Timestamp { secs, nanos: 0 }
}

#[test]
fn schedule_runs_now_without_time() {
    let mut s = PowerSchedule::new();
    assert_eq!(s.plan(PowerMode::Lock, None, at(100)), Ok(PowerPlan::RunNow));
    assert_eq!(s.status(), None);
}

#[test]
fn schedule_refuses_past_time() {
    let mut s = PowerSchedule::new();
    assert_eq!(s.plan(PowerMode::Shutdown, Some(at(100)), at(100)), Err(PowerError::TimestampInPast));
    assert_eq!(s.plan(PowerMode::Shutdown, Some(at(50)), at(100)), Err(PowerError::TimestampInPast));
    assert_eq!(s.status(), None);
}

#[test]
fn second_schedule_replaces_first() {
    let mut s = PowerSchedule::new();
    assert_eq!(s.plan(PowerMode::Shutdown, Some(at(200)), at(100)), Ok(PowerPlan::Wait { replaced: None }));
    assert_eq!(
        s.plan(PowerMode::Reboot, Some(at(300)), at(100)),
        Ok(PowerPlan::Wait { replaced: Some(PowerMode::Shutdown) })
    );
    assert_eq!(s.status(), Some(ScheduledPowerTask { mode: PowerMode::Reboot, execute_at: at(300) }));
    assert_eq!(s.fire(), Some(ScheduledPowerTask { mode: PowerMode::Reboot, execute_at: at(300) }));
    assert_eq!(s.status(), None);
}

#[test]
fn cancel_drops_pending() {
    let mut s = PowerSchedule::new();
    assert_eq!(s.cancel(), None);
    s.plan(PowerMode::Suspend, Some(Timestamp { secs: 100, nanos: 1 }), at(100)).unwrap();
    assert_eq!(s.cancel(), Some(PowerMode::Suspend));
    assert_eq!(s.status(), None);
}

#[test]
fn power_commands() {
    let (p, a) = PowerManager::command(PowerMode::Shutdown, Platform::Linux).unwrap();
    assert_eq!((p, a), ("shutdown", vec!["-h", "now"]));
    let (p, a) = PowerManager::command(PowerMode::Logout, Platform::MacOs).unwrap();
    assert_eq!((p, a), ("osascript", vec!["-e", "tell application \"System Events\" to log out"]));
    let (p, a) = PowerManager::command(PowerMode::Suspend, Platform::Windows).unwrap();
    assert_eq!((p, a), ("rundll32.exe", vec!["powrprof.dll,SetSuspendState", "0,1,0"]));
    assert_eq!(PowerManager::command(PowerMode::Lock, Platform::Other), Err(PowerError::UnsupportedOS));
    assert_eq!(PowerMode::Reboot.name(), "reboot");
}

#[test]
fn theme_styles() {
    assert!(ThemeStyle::Light.is_light());
    assert!(!ThemeStyle::Light.is_dark());
    assert!(ThemeStyle::Dark.is_dark());
    assert_eq!(SystemTheme::gsettings_scheme(ThemeStyle::Dark), "prefer-dark");
    assert_eq!(SystemTheme::gsettings_scheme(ThemeStyle::Light), "prefer-light");
    assert_eq!(SystemTheme::registry_value(ThemeStyle::Dark), 0);
    assert_eq!(SystemTheme::registry_value(ThemeStyle::Light), 1);
    assert_eq!(SystemTheme::style_from_gsettings("'prefer-dark'\n"), ThemeStyle::Dark);
    assert_eq!(SystemTheme::style_from_gsettings("'default'\n"), ThemeStyle::Light);
    assert_eq!(SystemTheme::style_from_registry(0), ThemeStyle::Dark);
    assert_eq!(SystemTheme::style_from_registry(1), ThemeStyle::Light);
}

#[test]
fn theme_switch_reads_back() {
    for style in [ThemeStyle::Light, ThemeStyle::Dark] {
        let report = format!("'{}'\n", SystemTheme::gsettings_scheme(style));
        assert_eq!(SystemTheme::style_from_gsettings(&report), style);
        assert_eq!(SystemTheme::style_from_registry(SystemTheme::registry_value(style)), style);
    }
}

#[test]
fn snapshot_refreshes_after_interval() {
    let mut s: Snapshot<u32> = Snapshot::new();
    assert!(s.needs_refresh(0, 10));
    s.store(7, 100);
    assert_eq!(s.cached(), Some(&7));
    assert!(!s.needs_refresh(105, 10));
    assert!(s.needs_refresh(110, 10));
    assert!(!s.needs_refresh(50, 10));
    s.store_forever(9);
    assert!(!s.needs_refresh(u64::MAX, 0));
    assert_eq!(s.cached(), Some(&9));
}

#[test]
fn theme_commands() {
    let c = SystemTheme::gsettings_set_command(ThemeStyle::Dark);
    assert_eq!(c.program, "gsettings");
    assert_eq!(c.args, vec!["set", "org.gnome.desktop.interface", "color-scheme", "prefer-dark"]);
    let c = SystemTheme::gsettings_set_command(ThemeStyle::Light);
    assert_eq!(c.args[3], "prefer-light");
    let c = SystemTheme::gsettings_get_command();
    assert_eq!(c.program, "gsettings");
    assert_eq!(c.args, vec!["get", "org.gnome.desktop.interface", "color-scheme"]);
    let c = SystemTheme::osascript_switch_command(ThemeStyle::Dark);
    assert_eq!(c.program, "osascript");
    assert_eq!(
        c.args,
        vec!["-e", "tell application \"System Events\" to tell appearance preferences to set dark mode to true"]
    );
    let c = SystemTheme::osascript_switch_command(ThemeStyle::Light);
    assert!(c.args[1].ends_with("set dark mode to false"));
    let c = SystemTheme::osascript_get_command();
    assert_eq!(c.args, vec!["-e", "tell application \"System Events\" to tell appearance preferences to get dark mode"]);
}

#[test]
fn current_theme_from_tool_outcome() {
    assert_eq!(SystemTheme::current_from_gsettings(true, "'prefer-dark'\n"), Ok(ThemeStyle::Dark));
    assert_eq!(SystemTheme::current_from_gsettings(true, "'default'\n"), Ok(ThemeStyle::Light));
    assert_eq!(SystemTheme::current_from_gsettings(false, "'prefer-dark'\n"), Err(ThemeError::GsettingsExitStatus));
    assert_eq!(SystemTheme::current_from_osascript(true, " TRUE\n"), Ok(ThemeStyle::Dark));
    assert_eq!(SystemTheme::current_from_osascript(true, "false\n"), Ok(ThemeStyle::Light));
    assert_eq!(SystemTheme::current_from_osascript(false, "true\n"), Err(ThemeError::OsascriptExitStatus));
}
