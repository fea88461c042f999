use windows_volume_guard::cli::{dispatch, real_main, Command, GuardError, Settings};

fn settings(volume: u8) -> Settings {
    Settings { volume, cap: false, include_existing: false, include_system: false }
}

#[test]
fn default_settings_match_the_documented_defaults() {
    let s = Settings::default();
    assert_eq!(s.volume, 30);
    assert!(!s.cap && !s.include_existing && !s.include_system);
}

#[test]
fn validate_accepts_zero_to_one_hundred() {
    assert_eq!(settings(0).validate(), Ok(()));
    assert_eq!(settings(100).validate(), Ok(()));
    assert_eq!(settings(101).validate(), Err(GuardError::VolumeOutOfRange));
    assert_eq!(settings(255).validate(), Err(GuardError::VolumeOutOfRange));
}

#[test]
fn no_subcommand_runs_with_defaults() {
    assert_eq!(real_main(None, true), Ok(Command::Run { settings: Settings::default() }));
}

#[test]
fn install_with_bad_volume_is_refused() {
    let command = Command::Install { settings: settings(150) };
    assert_eq!(real_main(Some(command), true), Err(GuardError::VolumeOutOfRange));
    assert_eq!(real_main(Some(command), false), Err(GuardError::VolumeOutOfRange));
}

#[test]
fn status_and_uninstall_need_no_settings() {
    assert_eq!(real_main(Some(Command::Status), true), Ok(Command::Status));
    assert_eq!(real_main(Some(Command::Uninstall), true), Ok(Command::Uninstall));
}

#[test]
fn other_platforms_are_refused() {
    assert_eq!(real_main(None, false), Err(GuardError::UnsupportedPlatform));
    assert_eq!(dispatch(Command::Status, false), Err(GuardError::UnsupportedPlatform));
    assert_eq!(dispatch(Command::Status, true), Ok(Command::Status));
}

#[test]
fn error_messages() {
    assert_eq!(GuardError::VolumeOutOfRange.message(), "--volume must be between 0 and 100");
    assert_eq!(
        GuardError::UnsupportedPlatform.message(),
        "windows-volume-guard only runs on Windows 10 or Windows 11"
    );
}
