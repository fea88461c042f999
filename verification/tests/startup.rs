use windows_volume_guard::cli::Settings;
use windows_volume_guard::startup::{
    decimal_text, hidden_launcher_script, install_report, launcher_command, same_path,
    settings_arguments, startup_command, status_report, uninstall_report,
};

#[test]
fn arguments_of_default_settings() {
    assert_eq!(settings_arguments(&Settings::default()), vec!["run", "--volume", "30"]);
}

#[test]
fn arguments_list_every_switch_that_is_on() {
    let s = Settings { volume: 40, cap: true, include_existing: true, include_system: true };
    assert_eq!(
        settings_arguments(&s),
        vec!["run", "--volume", "40", "--cap", "--include-existing", "--include-system"]
    );
    let s = Settings { volume: 5, cap: false, include_existing: false, include_system: true };
    assert_eq!(settings_arguments(&s), vec!["run", "--volume", "5", "--include-system"]);
}

#[test]
fn distinct_settings_give_distinct_arguments() {
    let a = Settings { volume: 40, cap: true, include_existing: false, include_system: false };
    let b = Settings { volume: 40, cap: false, include_existing: true, include_system: false };
    assert_ne!(settings_arguments(&a), settings_arguments(&b));
}

#[test]
fn decimal_text_matches_to_string() {
    for n in 0..=255u8 {
        assert_eq!(decimal_text(n), n.to_string());
    }
}

#[test]
fn launcher_command_quotes_the_executable() {
    let args = settings_arguments(&Settings::default());
    assert_eq!(
        launcher_command(r"C:\Apps\guard.exe", &args),
        r#""C:\Apps\guard.exe" run --volume 30"#
    );
    assert_eq!(launcher_command("g.exe", &[]), "\"g.exe\" ");
}

#[test]
fn launcher_script_doubles_quotes() {
    let args = settings_arguments(&Settings::default());
    let script = hidden_launcher_script(r"C:\Apps\guard.exe", &args);
    assert_eq!(
        script,
        "Set shell = CreateObject(\"WScript.Shell\")\r\nshell.Run \"\"\"C:\\Apps\\guard.exe\"\" run --volume 30\", 0, False\r\n"
    );
}

#[test]
fn startup_command_runs_the_launcher() {
    assert_eq!(startup_command(r"C:\x\launch-hidden.vbs"), r#"wscript.exe "C:\x\launch-hidden.vbs""#);
}

#[test]
fn same_path_prefers_canonical_forms() {
    assert!(same_path("a/b", "c/d", Some("/x/y"), Some("/x/y")));
    assert!(!same_path("a/b", "a/b", Some("/x/y"), Some("/x/z")));
    assert!(same_path("a/b", "a/b", Some("/x/y"), None));
    assert!(!same_path("a/b", "a/c", None, None));
    assert!(same_path("a/b", "a//b", None, None));
}

#[test]
fn plain_names_are_the_same_path_only_when_equal() {
    assert!(!same_path("guard", "guard2", None, None));
    assert!(same_path("guard", "guard", None, None));
    assert!(!same_path("x", "y", Some("guard"), Some("other")));
}

#[test]
fn reports() {
    assert_eq!(status_report(true, false), "Automatic start: enabled\nGuard process: not running");
    assert_eq!(status_report(false, true), "Automatic start: disabled\nGuard process: running");
    assert_eq!(
        install_report(r"C:\g.exe", 30),
        r"Installed for this user at C:\g.exe (new-session volume: 30%)."
    );
    assert_eq!(
        uninstall_report(r"C:\g.exe"),
        "Automatic start disabled and the running guard was asked to stop.\nThe executable remains at C:\\g.exe and may be deleted manually."
    );
}

#[test]
fn launcher_literal_reads_back_as_the_command() {
    let args = vec!["run".to_string(), "--volume".to_string(), "30".to_string()];
    let exe = r#"C:\odd "name"\guard.exe"#;
    let script = hidden_launcher_script(exe, &args);
    let start = script.find("shell.Run \"").unwrap() + "shell.Run \"".len();
    let end = script.rfind("\", 0, False").unwrap();
    let literal = &script[start..end];
    assert_eq!(literal.replace("\"\"", "\""), launcher_command(exe, &args));
}

#[test]
fn trailing_separator_is_the_same_path() {
    assert!(same_path("a/b/", "a/b", None, None));
    assert!(!same_path("a/b", "b/a", None, None));
}
