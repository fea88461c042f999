//! The guard's settings and the command that the program carries out.
use vstd::prelude::*;

verus! {

/// The target level of a new session, in percent, where none is given.
pub const DEFAULT_VOLUME: u8 = 30;

/// The highest target level that can be asked for, in percent.
pub const MAX_VOLUME: u8 = 100;

/// How new sessions are treated.
#[derive(Clone, Copy, Debug, PartialEq, Eq, Structural)]
pub struct Settings {
    /// Target session volume, in percent.
    pub volume: u8,
    /// Cap every new session above the target, not only sessions at the full
    /// level.
    pub cap: bool,
    /// Also lower sessions that already exist when the guard starts.
    pub include_existing: bool,
    /// Also process the system sounds session.
    pub include_system: bool,
}

/// The settings used where none are given.
pub open spec fn default_settings() -> Settings {
    Settings { volume: 30, cap: false, include_existing: false, include_system: false }
}

impl Default for Settings {
    fn default() -> (s: Self)
        ensures
            s == default_settings(),
    {
        Settings { volume: DEFAULT_VOLUME, cap: false, include_existing: false, include_system: false }
    }
}

/// Why the guard refuses to go on.
#[derive(Clone, Copy, Debug, PartialEq, Eq, Structural)]
pub enum GuardError {
    /// The target volume lies above 100 percent.
    VolumeOutOfRange,
    /// The program runs on a platform without the audio session interfaces.
    UnsupportedPlatform,
    /// Another guard process already runs for this user.
    AlreadyRunning,
}

impl GuardError {
    /// The text reported for the error.
    pub open spec fn text(self) -> Seq<char> {
        match self {
            GuardError::VolumeOutOfRange => "--volume must be between 0 and 100"@,
            GuardError::UnsupportedPlatform => "windows-volume-guard only runs on Windows 10 or Windows 11"@,
            GuardError::AlreadyRunning => "windows-volume-guard is already running"@,
        }
    }

    /// The text reported for the error.
    pub fn message(&self) -> (s: String)
        ensures
            s@ == self.text(),
    {
        match self {
            GuardError::VolumeOutOfRange => String::from_str("--volume must be between 0 and 100"),
            GuardError::UnsupportedPlatform => String::from_str(
                "windows-volume-guard only runs on Windows 10 or Windows 11",
            ),
            GuardError::AlreadyRunning => String::from_str("windows-volume-guard is already running"),
        }
    }
}

impl Settings {
    /// The settings can be used: the target volume is at most 100 percent.
    pub open spec fn is_valid(self) -> bool {
        self.volume <= 100
    }

    /// Accepts settings whose target volume is at most 100 percent.
    pub fn validate(&self) -> (r: Result<(), GuardError>)
        ensures
            r is Ok <==> self.is_valid(),
            r is Err ==> r == Err::<(), GuardError>(GuardError::VolumeOutOfRange),
    {
        if self.volume > MAX_VOLUME {
            return Err(GuardError::VolumeOutOfRange);
        }
        Ok(())
    }
}

/// What the program is asked to do.
#[derive(Clone, Copy, Debug, PartialEq, Eq, Structural)]
pub enum Command {
    /// Monitor audio sessions until the process is stopped.
    Run { settings: Settings },
    /// Copy the executable to the user's application data and start it at
    /// sign-in.
    Install { settings: Settings },
    /// Disable automatic start and stop the running guard.
    Uninstall,
    /// Show whether automatic start and the guard process are enabled.
    Status,
}

impl Command {
    /// The settings that the command carries, if any.
    pub open spec fn settings_of(self) -> Option<Settings> {
        match self {
            Command::Run { settings } => Some(settings),
            Command::Install { settings } => Some(settings),
            Command::Uninstall => None,
            Command::Status => None,
        }
    }

    /// The command carries no settings, or settings that can be used.
    pub open spec fn is_valid(self) -> bool {
        self.settings_of() matches Some(s) ==> s.is_valid()
    }
}

/// The command carried out where none is given: run with default settings.
pub open spec fn chosen_command(parsed: Option<Command>) -> Command {
    match parsed {
        Some(command) => command,
        None => Command::Run { settings: default_settings() },
    }
}

/// Hands a command on to the platform's implementation: every command can be
/// carried out on Windows, and none elsewhere.
pub fn dispatch(command: Command, on_windows: bool) -> (r: Result<Command, GuardError>)
    ensures
        r == (if on_windows {
            Ok::<Command, GuardError>(command)
        } else {
            Err::<Command, GuardError>(GuardError::UnsupportedPlatform)
        }),
{
    if on_windows {
        Ok(command)
    } else {
        Err(GuardError::UnsupportedPlatform)
    }
}

/// Decides what the program does with the command that was parsed from its
/// arguments (`None` where no subcommand was given): the command, or running
/// with default settings; refused if its settings are not valid, and refused
/// off Windows. On success the command to carry out is returned.
pub fn real_main(parsed: Option<Command>, on_windows: bool) -> (r: Result<Command, GuardError>)
    ensures
        r is Ok <==> (chosen_command(parsed).is_valid() && on_windows),
        r matches Ok(c) ==> c == chosen_command(parsed),
        parsed matches Some(c) ==> (r is Ok ==> r == Ok::<Command, GuardError>(c)),
        r == Err::<Command, GuardError>(GuardError::VolumeOutOfRange) <==> !chosen_command(
            parsed,
        ).is_valid(),
        r == Err::<Command, GuardError>(GuardError::UnsupportedPlatform) <==> (chosen_command(
            parsed,
        ).is_valid() && !on_windows),
{
    let command = match parsed {
        Some(command) => command,
        None => Command::Run { settings: Settings::default() },
    };
    let checked = match &command {
        Command::Run { settings } => settings.validate(),
        Command::Install { settings } => settings.validate(),
        Command::Uninstall => Ok(()),
        Command::Status => Ok(()),
    };
    match checked {
        Ok(()) => dispatch(command, on_windows),
        Err(error) => Err(error),
    }
}

/// The command carried out is the parsed one, unchanged, with its settings as
/// given; only where no subcommand was given does the guard run, with volume
/// 30 and every switch off.
pub proof fn law_parsed_command_kept(parsed: Option<Command>)
    ensures
        parsed matches Some(c) ==> chosen_command(parsed) == c,
        parsed is None ==> chosen_command(parsed) == (Command::Run {
            settings: Settings {
                volume: 30,
                cap: false,
                include_existing: false,
                include_system: false,
            },
        }),
        chosen_command(parsed).is_valid() <==> (chosen_command(parsed).settings_of() matches Some(
            s,
        ) ==> s.volume <= 100),
{
}

/// `run` and `install` are refused exactly when their volume lies above 100;
/// `uninstall` and `status` carry no settings and are never refused for them.
pub proof fn law_settings_checked(settings: Settings)
    ensures
        (Command::Run { settings }).is_valid() <==> settings.volume <= 100,
        (Command::Install { settings }).is_valid() <==> settings.volume <= 100,
        Command::Uninstall.is_valid(),
        Command::Status.is_valid(),
{
}

} // verus!
