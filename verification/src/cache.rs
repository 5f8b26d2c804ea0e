//! Render-cache keys, the minute bucket that ages cached prompts, and where the config
//! file lives.
use vstd::prelude::*;

use crate::path::{path_string, spec_path_string};
use crate::text::push_str;

verus! {

/// What a cached prompt depends on besides the minute and the exit status.
#[derive(Debug, Hash, Eq, PartialEq, Clone)]
pub struct CacheKey {
    pub cwd: String,
    pub keymap: String,
    pub terminal_width: usize,
    pub config_mtime: u64,
    pub watcher_version: u64,
}

impl View for CacheKey {
    type V = (Seq<char>, Seq<char>, usize, u64, u64);

    open spec fn view(&self) -> Self::V {
        (self.cwd@, self.keymap@, self.terminal_width, self.config_mtime, self.watcher_version)
    }
}

impl CacheKey {
    /// A copy of this key.
    pub fn duplicate(&self) -> (r: CacheKey)
        ensures
            r@ == self@,
    {
        CacheKey {
            cwd: self.cwd.clone(),
            keymap: self.keymap.clone(),
            terminal_width: self.terminal_width,
            config_mtime: self.config_mtime,
            watcher_version: self.watcher_version,
        }
    }
}

/// The cache key of a render: every field as given, the directory in its one spelling as
/// a path (`spec_path_string`), so that every spelling of a directory has one key.
pub fn compute_cache_key(
    cwd: &str,
    keymap: &str,
    terminal_width: usize,
    config_mtime: u64,
    watcher_version: u64,
) -> (r: CacheKey)
    ensures
        r@ == (spec_path_string(cwd@), keymap@, terminal_width, config_mtime, watcher_version),
{
    CacheKey {
        cwd: path_string(cwd),
        keymap: keymap.to_owned(),
        terminal_width,
        config_mtime,
        watcher_version,
    }
}

/// The minute that a number of seconds since the Unix epoch falls in.
pub fn minute_of(unix_secs: u64) -> (r: u64)
    ensures
        r == unix_secs / 60,
{
    unix_secs / 60
}

/// Seconds since the Unix epoch now, or 0 where the clock is before the epoch, by calling
/// `SystemTime::now().duration_since(UNIX_EPOCH)` of std.
///
/// Trusted for nothing: the result depends on the clock.
#[verifier::external_body]
fn unix_seconds() -> u64 {
    std::time::SystemTime::now().duration_since(std::time::UNIX_EPOCH).map(|d| d.as_secs()).unwrap_or(0)
}

/// The current minute since the Unix epoch: cached prompts are served only within the
/// minute they were rendered in.
pub fn current_minute() -> (r: u64)
    ensures
        r <= u64::MAX / 60,
{
    minute_of(unix_seconds())
}

/// `path`, where it names a file.
pub fn load_config(path: &str, is_file: bool) -> (r: Option<String>)
    ensures
        r is Some <==> is_file,
        r is Some ==> r->0@ == path@,
{
    if is_file {
        Some(path.to_owned())
    } else {
        None
    }
}

/// The top-level keys of the table the toml crate parses from `text`, or `None` where
/// `text` is no valid TOML document.
pub uninterp spec fn toml_parse_keys(text: Seq<char>) -> Option<Set<Seq<char>>>;

/// The keys of a toml table.
pub uninterp spec fn toml_keys(t: toml::Table) -> Set<Seq<char>>;

/// Parses `text` as a TOML document, by calling `str::parse::<toml::Table>` (the toml
/// crate's `Table::from_str`).
///
/// Trusted: where the toml crate parses `text` the result is its table, whose keys are
/// named `toml_parse_keys(text@)`; where it does not, the result is `None`. The values in
/// the table are not stated: they stay opaque.
#[verifier::external_body]
fn parse_table(text: &str) -> (r: Option<toml::Table>)
    ensures
        match r {
            Some(t) => toml_parse_keys(text@) == Some(toml_keys(t)),
            None => toml_parse_keys(text@) is None,
        },
{
    text.parse::<toml::Table>().ok()
}

/// An empty table, by calling `toml::Table::default` of the toml crate.
///
/// Trusted: the table has no keys.
#[verifier::external_body]
fn empty_table() -> (t: toml::Table)
    ensures
        toml_keys(t) == Set::<Seq<char>>::empty(),
{
    toml::Table::default()
}

/// The config table for the config file's text: the parsed table where the text could be
/// read (`text` is `Some`) and parses as TOML, else an empty table. The keys of the
/// result are stated; its values are those the toml crate parsed and are not.
pub fn config_from_text(text: Option<String>) -> (t: toml::Table)
    ensures
        match text {
            Some(s) => match toml_parse_keys(s@) {
                Some(k) => toml_keys(t) == k,
                None => toml_keys(t) == Set::<Seq<char>>::empty(),
            },
            None => toml_keys(t) == Set::<Seq<char>>::empty(),
        },
{
    match text {
        Some(s) => match parse_table(s.as_str()) {
            Some(t) => t,
            None => empty_table(),
        },
        None => empty_table(),
    }
}

/// Whether Windows path joining puts a separator between `base` and what follows: not
/// after an empty path, a separator, or a bare drive such as `C:`.
pub open spec fn needs_separator(base: Seq<char>) -> bool {
    &&& base.len() > 0
    &&& base.last() != '\\'
    &&& base.last() != '/'
    &&& !(base.len() == 2 && base[1] == ':')
}

/// `base` joined with the relative name `name`, as Windows `Path::join` does.
pub open spec fn win_join(base: Seq<char>, name: Seq<char>) -> Seq<char> {
    if needs_separator(base) {
        base.push('\\') + name
    } else {
        base + name
    }
}

/// Appends the relative name `name` to the path in `s`, as Windows `PathBuf::push` does.
pub fn push_path(s: &mut String, name: &str)
    ensures
        final(s)@ == win_join(old(s)@, name@),
{
    let ghost start = s@;
    let chars = crate::text::str_chars(s.as_str());
    let needs = if chars.len() == 0 {
        false
    } else {
        let last = chars[chars.len() - 1];
        last != '\\' && last != '/' && !(chars.len() == 2 && chars[1] == ':')
    };
    if needs {
        crate::text::push_char(s, '\\');
    }
    push_str(s, name);
    assert(s@ =~= win_join(start, name@));
}

/// What a `.git` file points at: the text after a leading `gitdir: `, trimmed; `None`
/// for a file that does not start so (a worktree's `.git` file names its git directory).
pub open spec fn spec_gitdir_target(content: Seq<char>) -> Option<Seq<char>> {
    if crate::text::starts_with(content, "gitdir: "@) {
        Some(crate::text::trim(content.subrange("gitdir: "@.len() as int, content.len() as int)))
    } else {
        None
    }
}

/// The git directory a `.git` file names, as `spec_gitdir_target` states.
pub fn gitdir_target(content: &str) -> (r: Option<String>)
    ensures
        crate::text::opt_chars(r) == spec_gitdir_target(content@),
{
    let chars = crate::text::str_chars(content);
    let prefix = crate::text::str_chars("gitdir: ");
    if !crate::text::starts_with_at(&chars, 0, &prefix) {
        assert(chars@.subrange(0, chars@.len() as int) =~= chars@);
        return None;
    }
    assert(chars@.subrange(0, chars@.len() as int) =~= chars@);
    let rest = crate::text::chars_from(&chars, prefix.len());
    let t = crate::text::trim_chars(&rest);
    Some(crate::text::string_from_chars(&t))
}

/// Where the config file is: `STARSHIP_CONFIG` when set, else `.config\starship.toml`
/// under the home directory, else `.config/starship.toml`.
pub open spec fn spec_config_path(config_var: Option<Seq<char>>, home_dir: Option<Seq<char>>) -> Seq<char> {
    match config_var {
        Some(c) => c,
        None => match home_dir {
            Some(h) => win_join(win_join(h, ".config"@), "starship.toml"@),
            None => ".config/starship.toml"@,
        },
    }
}

/// The config path for the given `STARSHIP_CONFIG` and home directory values.
pub fn config_path_from_env(config_var: Option<String>, home_dir: Option<String>) -> (r: String)
    ensures
        r@ == spec_config_path(
            match config_var {
                Some(c) => Some(c@),
                None => None,
            },
            match home_dir {
                Some(h) => Some(h@),
                None => None,
            },
        ),
{
    if let Some(cfg) = config_var {
        return cfg;
    }
    match home_dir {
        Some(h) => {
            let mut p = h;
            push_path(&mut p, ".config");
            push_path(&mut p, "starship.toml");
            p
        },
        None => ".config/starship.toml".to_owned(),
    }
}

} // verus!
