//! The settings of the service, and the places where they are looked for.

use vstd::prelude::*;
use vstd::string::StringExecFns;

verus! {

/// How much the service logs.
#[derive(Debug, Clone, Copy, PartialEq, Eq, Structural)]
pub enum LevelFilter {
    Off,
    Error,
    Warn,
    Info,
    Debug,
    Trace,
}

/// Where the tracks are kept.
#[derive(Debug, Clone)]
pub struct TrackConfig {
    pub folder: String,
}

/// Where the service listens.
#[derive(Debug, Clone)]
pub struct WebConfig {
    pub port: u16,
    pub host: String,
}

/// How much the service logs.
#[derive(Debug, Clone)]
pub struct LogConfig {
    pub level: LevelFilter,
}

/// All settings.
#[derive(Debug, Clone)]
pub struct Config {
    pub tracks: TrackConfig,
    pub log: LogConfig,
    pub web: WebConfig,
}

impl Default for TrackConfig {
    fn default() -> (c: TrackConfig)
        ensures
            c.folder@ == "/var/lib/tracks"@,
    {
        TrackConfig { folder: String::from_str("/var/lib/tracks") }
    }
}

impl Default for WebConfig {
    fn default() -> (c: WebConfig)
        ensures
            c.port == 9441,
            c.host@ == "127.0.0.1"@,
    {
        WebConfig { port: 9441, host: String::from_str("127.0.0.1") }
    }
}

impl Default for LogConfig {
    fn default() -> (c: LogConfig)
        ensures
            c.level == LevelFilter::Debug,
    {
        LogConfig { level: LevelFilter::Debug }
    }
}

impl Default for Config {
    fn default() -> (c: Config)
        ensures
            c.tracks.folder@ == "/var/lib/tracks"@,
            c.web.port == 9441,
            c.web.host@ == "127.0.0.1"@,
            c.log.level == LevelFilter::Debug,
    {
        Config {
            tracks: TrackConfig::default(),
            log: LogConfig::default(),
            web: WebConfig::default(),
        }
    }
}

/// What trying to read the settings from one file gave.
#[derive(Debug)]
pub enum Attempt {
    /// There is no file of that name.
    Missing,
    /// The file could not be opened or read.
    Unreadable,
    /// What the file holds are no settings.
    Malformed,
    /// The settings that the file holds.
    Read(Config),
}

/// The first of `attempts` that gave settings, if any did.
pub open spec fn first_read(attempts: Seq<Attempt>) -> Option<int>
    decreases attempts.len(),
{
    if attempts.len() == 0 {
        None
    } else if attempts.first() is Read {
        Some(0int)
    } else {
        match first_read(attempts.drop_first()) {
            Some(i) => Some(i + 1),
            None => None,
        }
    }
}

/// The files in which the settings are looked for, in this order: the one
/// that was named, if one was, then the one in the working directory, then
/// the one of the system.
pub fn candidate_files(filename: Option<&str>) -> (files: Vec<String>)
    ensures
        filename is None ==> files@.len() == 2,
        filename is Some ==> files@.len() == 3 && files@[0]@ == filename->Some_0@,
        files@[files@.len() - 2]@ == "./tracked.toml"@,
        files@[files@.len() - 1]@ == "/etc/tracked/tracked.toml"@,
{
    let mut files: Vec<String> = Vec::new();
    match filename {
        Some(f) => {
            files.push(String::from_str(f));
        },
        None => {},
    }
    files.push(String::from_str("./tracked.toml"));
    files.push(String::from_str("/etc/tracked/tracked.toml"));
    files
}

/// The settings of the service, given what trying each of the files of
/// [`candidate_files`] gave, in their order: those of the first file that
/// holds settings, and the defaults if none does.
pub fn read_in_config(attempts: Vec<Attempt>) -> (c: Config)
    ensures
        first_read(attempts@) matches Some(i) ==> Attempt::Read(c) == attempts@[i],
        first_read(attempts@) is None ==> c.tracks.folder@ == "/var/lib/tracks"@ && c.web.port
            == 9441 && c.web.host@ == "127.0.0.1"@ && c.log.level == LevelFilter::Debug,
{
    let ghost all = attempts@;
    let total: usize = attempts.len();
    let mut rest = attempts;
    let mut skipped: usize = 0;
    while rest.len() > 0
        invariant
            all == attempts@,
            all.len() == total,
            all.len() == skipped + rest@.len(),
            rest@ == all.subrange(skipped as int, all.len() as int),
            first_read(all) == match first_read(rest@) {
                Some(i) => Some(i + skipped),
                None => None,
            },
        decreases rest@.len(),
    {
        let ghost before = rest@;
        let attempt = rest.remove(0);
        assert(rest@ =~= before.drop_first());
        assert(rest@ =~= all.subrange(skipped + 1, all.len() as int));
        assert(attempt == before.first());
        assert(before.first() == all[skipped as int]);
        match attempt {
            Attempt::Read(config) => {
                assert(first_read(before) == Some(0int));
                assert(first_read(all) == Some(skipped as int));
                return config;
            },
            _ => {
                assert(first_read(before) == match first_read(before.drop_first()) {
                    Some(i) => Some(i + 1),
                    None => None,
                });
            },
        }
        skipped = skipped + 1;
    }
    Config::default()
}

} // verus!

