//! The user's settings, the session configuration made from them, and where
//! the configuration files live.
use crate::proto::{DEFAULT_AUDIO_PORT, DEFAULT_CONTROL_PORT};
use crate::text::{string_of, views};
use vstd::prelude::*;

verus! {

/// The colour scheme of the window.
#[derive(Debug, Clone, Copy, PartialEq, Eq, Structural)]
pub enum ThemeMode {
    Dark,
    Light,
}

/// What a sender captures.
#[derive(Debug, Clone, Copy, PartialEq, Eq, Structural)]
pub enum CaptureMode {
    System,
    Microphone,
    SystemPlusMicrophone,
}

/// A receiver the user connected to before.
#[derive(Debug)]
pub struct PreferredPeer {
    pub label: String,
    pub ip: String,
}

/// Everything a session needs to know.
#[derive(Debug)]
pub struct SessionConfig {
    pub target_ip: String,
    pub bind_ip: String,
    pub output_device_name: String,
    pub capture_mode: CaptureMode,
    pub capture_source_name: String,
    pub microphone_device_name: String,
    pub control_port: u16,
    pub audio_port: u16,
}

/// What a sender captures by default, kept with the settings.
#[derive(Debug)]
pub struct CaptureDefaults {
    pub capture_mode: CaptureMode,
    pub capture_source_name: String,
    pub microphone_device_name: String,
}

/// The user's settings.
#[derive(Debug)]
pub struct AppSettings {
    pub target_ip: String,
    pub bind_ip: String,
    pub output_device_name: String,
    pub control_port: u16,
    pub audio_port: u16,
    pub theme_mode: ThemeMode,
    pub capture_mode: CaptureMode,
    pub capture_source_name: String,
    pub microphone_device_name: String,
    pub preferred_peers: Vec<PreferredPeer>,
}

/// The views of preferred peers: label and address.
pub open spec fn peer_views(peers: Seq<PreferredPeer>) -> Seq<(Seq<char>, Seq<char>)> {
    peers.map_values(|p: PreferredPeer| (p.label@, p.ip@))
}

impl Default for AppSettings {
    /// Sends to this machine, binds every interface, plays on the default
    /// device, uses the default ports and the dark theme, captures system
    /// audio from the default sources.
    fn default() -> (settings: Self)
        ensures
            settings.target_ip@ == "127.0.0.1"@,
            settings.bind_ip@ == "0.0.0.0"@,
            settings.output_device_name@.len() == 0,
            settings.control_port == DEFAULT_CONTROL_PORT,
            settings.audio_port == DEFAULT_AUDIO_PORT,
            settings.theme_mode == ThemeMode::Dark,
            settings.capture_mode == CaptureMode::System,
            settings.capture_source_name@.len() == 0,
            settings.microphone_device_name@.len() == 0,
            settings.preferred_peers@.len() == 0,
    {
        AppSettings {
            target_ip: string_of("127.0.0.1"),
            bind_ip: string_of("0.0.0.0"),
            output_device_name: String::new(),
            control_port: DEFAULT_CONTROL_PORT,
            audio_port: DEFAULT_AUDIO_PORT,
            theme_mode: ThemeMode::Dark,
            capture_mode: CaptureMode::System,
            capture_source_name: String::new(),
            microphone_device_name: String::new(),
            preferred_peers: Vec::new(),
        }
    }
}

impl AppSettings {
    /// The configuration of a session started with these settings: their
    /// addresses, device, capture choices and ports.
    pub fn session_config(&self) -> (config: SessionConfig)
        ensures
            config.target_ip@ == self.target_ip@,
            config.bind_ip@ == self.bind_ip@,
            config.output_device_name@ == self.output_device_name@,
            config.capture_mode == self.capture_mode,
            config.capture_source_name@ == self.capture_source_name@,
            config.microphone_device_name@ == self.microphone_device_name@,
            config.control_port == self.control_port,
            config.audio_port == self.audio_port,
    {
        SessionConfig {
            target_ip: self.target_ip.clone(),
            bind_ip: self.bind_ip.clone(),
            output_device_name: self.output_device_name.clone(),
            capture_mode: self.capture_mode,
            capture_source_name: self.capture_source_name.clone(),
            microphone_device_name: self.microphone_device_name.clone(),
            control_port: self.control_port,
            audio_port: self.audio_port,
        }
    }
}

/// The environment the configuration directory is found from.
#[derive(Debug)]
pub struct ConfigEnvironment {
    pub is_windows: bool,
    pub appdata: Option<String>,
    pub xdg_config_home: Option<String>,
    pub home: Option<String>,
    pub userprofile: Option<String>,
}

/// Why no configuration path could be found.
#[derive(Debug, Clone, Copy, PartialEq, Eq, Structural)]
pub enum ConfigPathError {
    /// Neither `HOME` nor `USERPROFILE` is set.
    NoHomeDirectory,
}

/// The components of the path of `file` in the configuration directory:
/// `%APPDATA%\velin` on Windows when set, else `$XDG_CONFIG_HOME/velin`
/// when set, else `~/.config/velin` from `HOME` or `USERPROFILE`.
pub open spec fn config_path_of(
    is_windows: bool,
    appdata: Option<Seq<char>>,
    xdg: Option<Seq<char>>,
    home: Option<Seq<char>>,
    userprofile: Option<Seq<char>>,
    file: Seq<char>,
) -> Option<Seq<Seq<char>>> {
    if is_windows && appdata is Some {
        Some(seq![appdata->0, "velin"@, file])
    } else if xdg is Some {
        Some(seq![xdg->0, "velin"@, file])
    } else if home is Some {
        Some(seq![home->0, ".config"@, "velin"@, file])
    } else if userprofile is Some {
        Some(seq![userprofile->0, ".config"@, "velin"@, file])
    } else {
        None
    }
}

/// The view of an optional string.
pub open spec fn option_view(s: Option<String>) -> Option<Seq<char>> {
    match s {
        Some(x) => Some(x@),
        None => None,
    }
}

/// The components of the path of `file_name` in the configuration
/// directory, to be joined by the platform's separator.
pub fn config_file_path(env: &ConfigEnvironment, file_name: &str) -> (path: Result<Vec<String>, ConfigPathError>)
    ensures
        match (path, config_path_of(
            env.is_windows,
            option_view(env.appdata),
            option_view(env.xdg_config_home),
            option_view(env.home),
            option_view(env.userprofile),
            file_name@,
        )) {
            (Ok(p), Some(expected)) => views(p@) == expected,
            (Err(e), None) => e == ConfigPathError::NoHomeDirectory,
            _ => false,
        },
{
    let mut parts: Vec<String> = Vec::new();
    let base = if env.is_windows && env.appdata.is_some() {
        match &env.appdata {
            Some(a) => string_of(a.as_str()),
            None => String::new(),
        }
    } else if let Some(x) = &env.xdg_config_home {
        string_of(x.as_str())
    } else {
        let home = if let Some(h) = &env.home {
            string_of(h.as_str())
        } else if let Some(u) = &env.userprofile {
            string_of(u.as_str())
        } else {
            return Err(ConfigPathError::NoHomeDirectory);
        };
        parts.push(home);
        parts.push(string_of(".config"));
        parts.push(string_of("velin"));
        parts.push(string_of(file_name));
        assert(views(parts@) =~= config_path_of(
            env.is_windows,
            option_view(env.appdata),
            option_view(env.xdg_config_home),
            option_view(env.home),
            option_view(env.userprofile),
            file_name@,
        )->0);
        return Ok(parts);
    };
    parts.push(base);
    parts.push(string_of("velin"));
    parts.push(string_of(file_name));
    assert(views(parts@) =~= config_path_of(
        env.is_windows,
        option_view(env.appdata),
        option_view(env.xdg_config_home),
        option_view(env.home),
        option_view(env.userprofile),
        file_name@,
    )->0);
    Ok(parts)
}

/// Where the settings are kept.
#[derive(Debug)]
pub struct SettingsStore {
    pub path: Vec<String>,
}

impl SettingsStore {
    /// The store of `settings.json` in the configuration directory.
    pub fn new(env: &ConfigEnvironment) -> (store: Result<SettingsStore, ConfigPathError>)
        ensures
            match (store, config_path_of(
                env.is_windows,
                option_view(env.appdata),
                option_view(env.xdg_config_home),
                option_view(env.home),
                option_view(env.userprofile),
                "settings.json"@,
            )) {
                (Ok(s), Some(expected)) => views(s.path@) == expected,
                (Err(e), None) => e == ConfigPathError::NoHomeDirectory,
                _ => false,
            },
    {
        match config_file_path(env, "settings.json") {
            Ok(path) => Ok(SettingsStore { path }),
            Err(e) => Err(e),
        }
    }
}

} // verus!
