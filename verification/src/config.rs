//! Configuration and command line of the portal service.

use vstd::prelude::*;
use vstd::string::StringSliceAdditionalSpecFns;

verus! {

/// What a new configuration file says.
pub const DEFAULT_CONFIG: &'static str =
    "# Maximum screencast capture rate. 0 disables the limit.
max_fps = 0

# Allow PipeWire to fall back to shared-memory buffers when DMA-BUF is unavailable when screencasting.
allow_screencast_shm = false
";

/// The settings of the service.
#[derive(Debug, Clone, Copy, PartialEq, Eq, Structural)]
pub struct Config {
    /// The highest rate of captured frames in a second. Zero means that there is no limit.
    pub max_fps: u32,
    /// Whether screen casts may use shared memory where DMA-BUFs cannot be had.
    pub allow_screencast_shm: bool,
}

impl Default for Config {
    /// No limit, and no shared memory.
    fn default() -> (config: Self)
        ensures
            config == (Config { max_fps: 0, allow_screencast_shm: false }),
    {
        Config { max_fps: 0, allow_screencast_shm: false }
    }
}

/// Why there is no place for a configuration file.
#[derive(Debug, Clone, Copy, PartialEq, Eq, Structural)]
pub enum ConfigError {
    /// Neither a configuration directory nor a home directory is known.
    NoHome,
}

impl ConfigError {
    /// Says what went wrong.
    pub fn message(&self) -> (text: &'static str)
        ensures
            text@ == match self {
                ConfigError::NoHome => "neither XDG_CONFIG_HOME nor HOME is set"@,
            },
    {
        match self {
            ConfigError::NoHome => "neither XDG_CONFIG_HOME nor HOME is set",
        }
    }
}

/// A path with a relative name behind it.
pub open spec fn joined(path: Seq<u8>, name: Seq<u8>) -> Seq<u8> {
    if path.len() == 0 || path.last() == 0x2f {
        path + name
    } else {
        path.push(0x2f) + name
    }
}

/// A variable of the environment counts only where it says something.
pub open spec fn said(value: Option<Seq<u8>>) -> Option<Seq<u8>> {
    match value {
        Some(text) => if text.len() > 0 {
            Some(text)
        } else {
            None
        },
        None => None,
    }
}

/// The bytes of a variable of the environment.
pub open spec fn value_of(value: Option<Vec<u8>>) -> Option<Seq<u8>> {
    match value {
        Some(text) => Some(text@),
        None => None,
    }
}

/// Where the configuration file lies: in the configuration directory, or in a directory of its own
/// below the home directory.
pub open spec fn config_location(config_home: Option<Seq<u8>>, home: Option<Seq<u8>>) -> Option<
    Seq<u8>,
> {
    match said(config_home) {
        Some(dir) => Some(
            joined(joined(dir, "shiny".spec_bytes()), "portal-config.toml".spec_bytes()),
        ),
        None => match said(home) {
            Some(dir) => Some(
                joined(
                    joined(
                        joined(dir, ".config".spec_bytes()),
                        "xdg-desktop-portal-shiny".spec_bytes(),
                    ),
                    "config.toml".spec_bytes(),
                ),
            ),
            None => None,
        },
    }
}

/// A path with a relative name behind it.
pub fn join_path(path: &Vec<u8>, name: &str) -> (longer: Vec<u8>)
    ensures
        longer@ == joined(path@, name.spec_bytes()),
{
    let mut longer: Vec<u8> = path.clone();
    assert(longer@ == path@);
    if path.len() > 0 && path[path.len() - 1] != 0x2f {
        longer.push(0x2f);
    }
    let ghost start = longer@;
    let bytes: &[u8] = name.as_bytes();
    let mut i: usize = 0;
    while i < bytes.len()
        invariant
            i <= bytes@.len(),
            longer@ == start + bytes@.take(i as int),
        decreases bytes@.len() - i,
    {
        longer.push(bytes[i]);
        i += 1;
    }
    assert(bytes@.take(i as int) == bytes@);
    longer
}

/// A variable of the environment, where it says something.
pub fn non_empty_env(value: Option<Vec<u8>>) -> (text: Option<Vec<u8>>)
    ensures
        value_of(text) == said(value_of(value)),
{
    match value {
        Some(text) => if text.len() > 0 {
            Some(text)
        } else {
            None
        },
        None => None,
    }
}

/// Where the configuration file lies, given the variables `XDG_CONFIG_HOME` and `HOME`.
pub fn config_path(config_home: Option<Vec<u8>>, home: Option<Vec<u8>>) -> (path: Result<
    Vec<u8>,
    ConfigError,
>)
    ensures
        match config_location(value_of(config_home), value_of(home)) {
            Some(location) => path matches Ok(p) && p@ == location,
            None => path matches Err(e) && e == ConfigError::NoHome,
        },
{
    if let Some(dir) = non_empty_env(config_home) {
        return Ok(join_path(&join_path(&dir, "shiny"), "portal-config.toml"));
    }
    match non_empty_env(home) {
        Some(dir) => Ok(
            join_path(
                &join_path(&join_path(&dir, ".config"), "xdg-desktop-portal-shiny"),
                "config.toml",
            ),
        ),
        None => Err(ConfigError::NoHome),
    }
}

/// The configuration directory takes precedence: where it is known, the home directory does not
/// matter. Where neither is, there is no place for a file, and nowhere else.
pub proof fn law_config_home_takes_precedence(
    config_home: Option<Seq<u8>>,
    home: Option<Seq<u8>>,
    other: Option<Seq<u8>>,
)
    ensures
        said(config_home) is Some ==> config_location(config_home, home) == config_location(
            config_home,
            other,
        ),
        config_location(config_home, home) is None <==> said(config_home) is None && said(
            home,
        ) is None,
{
}

/// The configuration file always lies in a directory: its path is one of a directory, a slash and
/// the name of the file.
pub proof fn law_config_file_has_parent(config_home: Option<Seq<u8>>, home: Option<Seq<u8>>)
    ensures
        config_location(config_home, home) matches Some(path) ==> exists|parent: Seq<u8>|
            parent.len() > 0 && (#[trigger] parent.push(0x2f)).is_prefix_of(path),
{
    reveal_strlit("shiny");
    reveal_strlit("xdg-desktop-portal-shiny");
    vstd::string::is_ascii_spec_bytes("shiny");
    vstd::string::is_ascii_spec_bytes("xdg-desktop-portal-shiny");
    if let Some(path) = config_location(config_home, home) {
        let parent = match said(config_home) {
            Some(dir) => joined(dir, "shiny".spec_bytes()),
            None => joined(
                joined(said(home)->0, ".config".spec_bytes()),
                "xdg-desktop-portal-shiny".spec_bytes(),
            ),
        };
        assert("shiny".spec_bytes()[4] == 0x79);
        assert("xdg-desktop-portal-shiny".spec_bytes()[23] == 0x79);
        assert(parent.last() == 0x79);
        assert(parent.push(0x2f).is_prefix_of(path));
    }
}

/// The command line of the service.
#[derive(Debug, Clone, Copy, PartialEq, Eq, Structural)]
pub struct Cli {
    /// Enable verbose logging.
    pub verbose: bool,
}

impl Cli {
    /// How much to log where the environment does not say it.
    pub fn default_filter(&self) -> (filter: &'static str)
        ensures
            filter@ == if self.verbose {
                "debug"@
            } else {
                "info"@
            },
    {
        if self.verbose {
            "debug"
        } else {
            "info"
        }
    }
}

/// Without a file nothing limits the rate, and shared memory is not used.
pub proof fn law_defaults_are_cautious(config: Config)
    requires
        call_ensures(Config::default, (), config),
    ensures
        config.max_fps == 0,
        !config.allow_screencast_shm,
{
}

/// A path that can be continued: one that is empty or ends with a slash as it is, any other with a
/// slash behind it.
pub open spec fn continued(path: Seq<u8>) -> Seq<u8> {
    if path.len() > 0 && path[path.len() - 1] != '/' as u8 {
        path + seq!['/' as u8]
    } else {
        path
    }
}

/// A name is put behind a path with exactly one slash between them, and none in front of a path
/// that is empty.
pub proof fn law_names_follow_paths(path: Vec<u8>, name: &str, longer: Vec<u8>)
    requires
        call_ensures(join_path, (&path, name), longer),
    ensures
        longer@ == continued(path@) + name.spec_bytes(),
{
    assert('/' as u8 == 0x2f);
    assert(path@.push(0x2f) == path@ + seq!['/' as u8]);
}

/// A variable that is not set and one that is empty say nothing. Any other is taken as it is.
pub proof fn law_empty_variables_say_nothing(value: Option<Vec<u8>>, text: Option<Vec<u8>>)
    requires
        call_ensures(non_empty_env, (value,), text),
    ensures
        value is None ==> text is None,
        value matches Some(v) ==> (v@.len() == 0 ==> text is None),
        value matches Some(v) ==> (v@.len() > 0 ==> (text matches Some(t) && t@ == v@)),
{
}

proof fn lemma_ascii_bytes(a: &str, b: &str, c: &str)
    requires
        vstd::string::is_ascii(a),
        vstd::string::is_ascii(b),
        vstd::string::is_ascii(c),
        c@ == a@ + seq!['/'] + b@,
    ensures
        c.spec_bytes() == a.spec_bytes() + seq!['/' as u8] + b.spec_bytes(),
{
    vstd::string::is_ascii_spec_bytes(a);
    vstd::string::is_ascii_spec_bytes(b);
    vstd::string::is_ascii_spec_bytes(c);
    let left = c.spec_bytes();
    let right = a.spec_bytes() + seq!['/' as u8] + b.spec_bytes();
    assert(left.len() == right.len());
    assert forall|i: int| 0 <= i < left.len() implies #[trigger] left[i] == right[i] by {
        assert(left[i] == c@[i] as u8);
        if i < a@.len() {
            assert(c@[i] == a@[i]);
        } else if i > a@.len() {
            assert(c@[i] == b@[i - a@.len() - 1]);
        }
    }
    assert(left == right);
}

/// The file lies below the configuration directory where that is known, else below the home
/// directory, each time under a name of its own. It lies nowhere exactly where both say nothing.
pub proof fn law_config_file_is_found(
    config_home: Option<Vec<u8>>,
    home: Option<Vec<u8>>,
    path: Result<Vec<u8>, ConfigError>,
)
    requires
        call_ensures(config_path, (config_home, home), path),
    ensures
        config_home matches Some(dir) ==> (dir@.len() > 0 ==> (path matches Ok(p) && p@
            == continued(dir@) + "shiny/portal-config.toml".spec_bytes())),
        (config_home matches Some(dir) ==> dir@.len() == 0) ==> (home matches Some(dir) ==> (
        dir@.len() > 0 ==> (path matches Ok(p) && p@ == continued(dir@)
            + ".config/xdg-desktop-portal-shiny/config.toml".spec_bytes()))),
        path is Err <==> (config_home matches Some(dir) ==> dir@.len() == 0) && (
        home matches Some(dir) ==> dir@.len() == 0),
        path matches Err(error) ==> error == ConfigError::NoHome,
{
    lemma_home_names();
    if let Some(dir) = config_home {
        if dir@.len() > 0 {
            let first = joined(dir@, "shiny".spec_bytes());
            assert(first.last() == "shiny".spec_bytes()[4]);
            assert(joined(first, "portal-config.toml".spec_bytes()) == continued(dir@)
                + "shiny/portal-config.toml".spec_bytes());
        }
    }
    if let Some(dir) = home {
        if dir@.len() > 0 {
            let first = joined(dir@, ".config".spec_bytes());
            assert(first.last() == ".config".spec_bytes()[6]);
            let second = joined(first, "xdg-desktop-portal-shiny".spec_bytes());
            assert(second.last() == "xdg-desktop-portal-shiny".spec_bytes()[23]);
            assert(second == continued(dir@)
                + ".config/xdg-desktop-portal-shiny".spec_bytes());
            assert(joined(second, "config.toml".spec_bytes()) == continued(dir@)
                + ".config/xdg-desktop-portal-shiny/config.toml".spec_bytes());
        }
    }
}

proof fn lemma_home_names()
    ensures
        "shiny".spec_bytes().len() == 5,
        "shiny".spec_bytes()[4] == 'y' as u8,
        "xdg-desktop-portal-shiny".spec_bytes().len() == 24,
        "xdg-desktop-portal-shiny".spec_bytes()[23] == 'y' as u8,
        ".config".spec_bytes().len() == 7,
        ".config".spec_bytes()[6] == 'g' as u8,
        "shiny/portal-config.toml".spec_bytes() == "shiny".spec_bytes() + seq!['/' as u8]
            + "portal-config.toml".spec_bytes(),
        ".config/xdg-desktop-portal-shiny".spec_bytes() == ".config".spec_bytes()
            + seq!['/' as u8] + "xdg-desktop-portal-shiny".spec_bytes(),
        ".config/xdg-desktop-portal-shiny/config.toml".spec_bytes()
            == ".config/xdg-desktop-portal-shiny".spec_bytes() + seq!['/' as u8]
            + "config.toml".spec_bytes(),
{
    reveal_strlit("shiny");
    reveal_strlit("portal-config.toml");
    reveal_strlit("shiny/portal-config.toml");
    reveal_strlit(".config");
    reveal_strlit("xdg-desktop-portal-shiny");
    reveal_strlit(".config/xdg-desktop-portal-shiny");
    reveal_strlit("config.toml");
    reveal_strlit(".config/xdg-desktop-portal-shiny/config.toml");
    vstd::string::is_ascii_spec_bytes("shiny");
    vstd::string::is_ascii_spec_bytes(".config");
    vstd::string::is_ascii_spec_bytes("xdg-desktop-portal-shiny");
    assert("shiny/portal-config.toml"@ == "shiny"@ + seq!['/'] + "portal-config.toml"@);
    lemma_ascii_bytes("shiny", "portal-config.toml", "shiny/portal-config.toml");
    assert(".config/xdg-desktop-portal-shiny"@ == ".config"@ + seq!['/']
        + "xdg-desktop-portal-shiny"@);
    lemma_ascii_bytes(
        ".config",
        "xdg-desktop-portal-shiny",
        ".config/xdg-desktop-portal-shiny",
    );
    assert(".config/xdg-desktop-portal-shiny/config.toml"@ == ".config/xdg-desktop-portal-shiny"@
        + seq!['/'] + "config.toml"@);
    lemma_ascii_bytes(
        ".config/xdg-desktop-portal-shiny",
        "config.toml",
        ".config/xdg-desktop-portal-shiny/config.toml",
    );
}

/// The words for a missing home, and how much is logged with and without the flag for more.
pub proof fn law_settings_have_words(
    error: ConfigError,
    text: &'static str,
    cli: Cli,
    filter: &'static str,
)
    requires
        call_ensures(ConfigError::message, (&error,), text),
        call_ensures(Cli::default_filter, (&cli,), filter),
    ensures
        text@ == "neither XDG_CONFIG_HOME nor HOME is set"@,
        cli.verbose ==> filter@ == "debug"@,
        !cli.verbose ==> filter@ == "info"@,
{
}

} // verus!
