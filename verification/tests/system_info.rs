use system_utils::info::SystemInfo;

#[test]
fn from_results_keeps_answers_and_blanks_failures() {
    let info = SystemInfo::from_results(
        Some("box".to_string()),
        None,
        Some("Linux 24.04 Ubuntu".to_string()),
        Some("6.8.0".to_string()),
    );
    assert_eq!(info.hostname, "box");
    assert_eq!(info.os_name, "");
    assert_eq!(info.os_version, "Linux 24.04 Ubuntu");
    assert_eq!(info.kernel_version, "6.8.0");
}

#[test]
fn display_text_lists_fields() {
    let info = SystemInfo {
        hostname: "box".to_string(),
        os_name: "Ubuntu".to_string(),
        os_version: "Linux 24.04 Ubuntu".to_string(),
        kernel_version: "6.8.0".to_string(),
    };
    assert_eq!(
        info.display_text(),
        "=== SYSTEM INFORMATION ===\nHostname      : box\nOS            : Ubuntu\nVersion       : Linux 24.04 Ubuntu\nKernel        : 6.8.0\n"
    );
}

#[test]
fn new_reads_the_machine() {
    let info = SystemInfo::new();
    assert_eq!(info.hostname, SystemInfo::hostname());
    assert_eq!(info.kernel_version, SystemInfo::kernel_version());
    assert_eq!(info.os_name, SystemInfo::os_name());
    assert_eq!(info.os_version, SystemInfo::os_version());
}
