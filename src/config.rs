use vstd::prelude::*;

use crate::text::{
    find, find_char_from, find_from, parse_unsigned, same_text, trim, trim_text, unsigned_value,
};

verus! {

/// Why a configuration text was refused. Line numbers count from zero.
#[derive(Debug, Clone, Copy, PartialEq, Eq, Structural)]
pub enum ConfigError {
    /// A line holds no `=` between variable and value.
    MissingValue { line_number: usize },
    /// `Name` was given an empty value.
    EmptyName { line_number: usize },
    /// `Name` holds a character other than an ASCII letter, digit or `_`.
    InvalidName { line_number: usize },
    /// `LogLevel` is not a number from 0 to 255.
    InvalidLogLevel { line_number: usize },
    /// `Port` is not a number from 0 to 65535.
    InvalidPort { line_number: usize },
    /// The variable is none of `Name`, `LogLevel`, `ConnectTo`, `Port`.
    UnknownVariable { line_number: usize },
    /// The text never sets `Name`.
    NoName,
    /// The network name is empty.
    EmptyNetname,
    /// The network name holds `/`, `\` or an ASCII control character.
    InvalidNetname,
}

/// The settings of one daemon.
#[derive(Debug)]
pub struct Config {
    pub name: String,
    pub log_level: u8,
    /// Peers to dial; each name appears once.
    pub connect_to: Vec<String>,
    pub port: Option<u16>,
}

/// What a `Config` says, as mathematical values.
pub struct ConfigView {
    pub name: Seq<char>,
    pub log_level: u8,
    pub connect_to: Set<Seq<char>>,
    pub port: Option<u16>,
}

/// The names that a list of strings holds.
pub open spec fn names_of(v: Seq<String>) -> Set<Seq<char>> {
    Set::new(|x: Seq<char>| exists|i: int| 0 <= i < v.len() && #[trigger] v[i]@ == x)
}

/// No two strings of `v` hold the same characters.
pub open spec fn distinct_names(v: Seq<String>) -> bool {
    forall|i: int, j: int| 0 <= i < j < v.len() ==> #[trigger] v[i]@ != #[trigger] v[j]@
}

impl View for Config {
    type V = ConfigView;

    open spec fn view(&self) -> ConfigView {
        ConfigView {
            name: self.name@,
            log_level: self.log_level,
            connect_to: names_of(self.connect_to@),
            port: self.port,
        }
    }
}

impl Config {
    /// No name appears twice in `connect_to`.
    pub open spec fn wf(&self) -> bool {
        distinct_names(self.connect_to@)
    }

    /// The settings before any line is read: no name, log level 0, no peers, no port.
    pub fn new() -> (r: Config)
        ensures
            r.wf(),
            r@ == initial_view(),
    {
        let r = Config { name: String::new(), log_level: 0, connect_to: Vec::new(), port: None };
        assert(r@.connect_to =~= Set::<Seq<char>>::empty());
        r
    }
}

impl Default for Config {
    /// The settings before any line is read.
    fn default() -> (r: Config)
        ensures
            r.wf(),
            r@ == initial_view(),
    {
        Config::new()
    }
}

/// The settings before any line is read.
pub open spec fn initial_view() -> ConfigView {
    ConfigView { name: Seq::empty(), log_level: 0, connect_to: Set::empty(), port: None }
}

/// Characters allowed in a node name.
pub open spec fn is_name_char(c: char) -> bool {
    ('a' <= c && c <= 'z') || ('A' <= c && c <= 'Z') || ('0' <= c && c <= '9') || c == '_'
}

/// A node name: one or more ASCII letters, digits or underscores.
pub open spec fn valid_name(s: Seq<char>) -> bool {
    s.len() > 0 && forall|i: int| 0 <= i < s.len() ==> is_name_char(#[trigger] s[i])
}

/// The outcome of checking a node name.
pub open spec fn name_check(s: Seq<char>, line_number: usize) -> Result<(), ConfigError> {
    if s.len() == 0 {
        Err(ConfigError::EmptyName { line_number })
    } else if !valid_name(s) {
        Err(ConfigError::InvalidName { line_number })
    } else {
        Ok(())
    }
}

/// Variable and value of one line: the text around the first `=`, trimmed, with
/// whatever follows a `#` in the value dropped.
pub open spec fn split_line(line: Seq<char>, line_number: usize) -> Result<
    (Seq<char>, Seq<char>),
    ConfigError,
> {
    let eq = find(line, '=');
    if eq >= line.len() {
        Err(ConfigError::MissingValue { line_number })
    } else {
        let rest = trim(line.subrange(eq + 1, line.len() as int));
        Ok((trim(line.subrange(0, eq)), trim(rest.subrange(0, find(rest, '#')))))
    }
}

/// The settings after one `variable = value` line.
pub open spec fn apply_line(c: ConfigView, key: Seq<char>, value: Seq<char>, line_number: usize) -> Result<
    ConfigView,
    ConfigError,
> {
    if key == "Name"@ {
        match name_check(value, line_number) {
            Err(e) => Err(e),
            Ok(_) => Ok(ConfigView { name: value, ..c }),
        }
    } else if key == "LogLevel"@ {
        match unsigned_value(value, 255) {
            Some(v) => Ok(ConfigView { log_level: v as u8, ..c }),
            None => Err(ConfigError::InvalidLogLevel { line_number }),
        }
    } else if key == "ConnectTo"@ {
        Ok(ConfigView { connect_to: c.connect_to.insert(value), ..c })
    } else if key == "Port"@ {
        match unsigned_value(value, 65535) {
            Some(v) => Ok(ConfigView { port: Some(v as u16), ..c }),
            None => Err(ConfigError::InvalidPort { line_number }),
        }
    } else {
        Err(ConfigError::UnknownVariable { line_number })
    }
}

/// Whether a trimmed line carries no setting: it is empty or a comment.
pub open spec fn is_blank_or_comment(line: Seq<char>) -> bool {
    line.len() == 0 || line[0] == '#'
}

/// `find_from` lands between its start and the end of the text.
pub proof fn lemma_find_from_bounds(s: Seq<char>, c: char, from: int)
    requires
        0 <= from,
    ensures
        from <= s.len() ==> from <= find_from(s, c, from) <= s.len(),
        from > s.len() ==> find_from(s, c, from) == s.len(),
    decreases s.len() - from,
{
    if from < s.len() && s[from] != c {
        lemma_find_from_bounds(s, c, from + 1);
    }
}

/// The settings that the lines of `t` from index `start` on give, `c` holding the
/// settings of the lines before; `line_number` is the number of the line at `start`.
pub open spec fn load_from(t: Seq<char>, start: int, line_number: usize, c: ConfigView) -> Result<
    ConfigView,
    ConfigError,
>
    decreases t.len() + 1 - start,
    via load_from_decreases
{
    if start < 0 || start >= t.len() {
        if c.name.len() == 0 {
            Err(ConfigError::NoName)
        } else {
            Ok(c)
        }
    } else {
        let end = find_from(t, '\n', start);
        let line = trim(t.subrange(start, end));
        let next = (line_number + 1) as usize;
        if is_blank_or_comment(line) {
            load_from(t, end + 1, next, c)
        } else {
            match split_line(line, line_number) {
                Err(e) => Err(e),
                Ok((k, v)) => match apply_line(c, k, v, line_number) {
                    Err(e) => Err(e),
                    Ok(c2) => load_from(t, end + 1, next, c2),
                },
            }
        }
    }
}

#[via_fn]
proof fn load_from_decreases(t: Seq<char>, start: int, line_number: usize, c: ConfigView) {
    if 0 <= start < t.len() {
        lemma_find_from_bounds(t, '\n', start);
    }
}

/// The settings that a configuration text gives: one `variable = value` per line,
/// lines split at `\n`, blank lines and lines starting with `#` skipped.
pub open spec fn load(t: Seq<char>) -> Result<ConfigView, ConfigError> {
    load_from(t, 0, 0, initial_view())
}

/// Splits a line into variable and value at its first `=`, trimming both and
/// dropping a trailing `# comment` from the value.
pub fn parse_config_line(line: &str, line_number: usize) -> (r: Result<(String, String), ConfigError>)
    ensures
        r matches Ok((k, v)) ==> split_line(line@, line_number) == Ok::<_, ConfigError>((k@, v@)),
        r matches Err(e) ==> split_line(line@, line_number) == Err::<(Seq<char>, Seq<char>), _>(e),
{
    let n = line.unicode_len();
    let eq = find_char_from(line, '=', 0);
    if eq >= n {
        return Err(ConfigError::MissingValue { line_number });
    }
    proof {
        lemma_find_from_bounds(line@, '=', 0);
    }
    let key = trim_text(line.substring_char(0, eq));
    let rest = trim_text(line.substring_char(eq + 1, n));
    let hash = find_char_from(rest, '#', 0);
    proof {
        lemma_find_from_bounds(rest@, '#', 0);
    }
    let value = trim_text(rest.substring_char(0, hash));
    Ok((String::from_str(key), String::from_str(value)))
}

/// Checks that `val` is a valid node name.
pub fn check_name(val: &str, line_number: usize) -> (r: Result<(), ConfigError>)
    ensures
        r == name_check(val@, line_number),
{
    let n = val.unicode_len();
    if n == 0 {
        return Err(ConfigError::EmptyName { line_number });
    }
    let mut i: usize = 0;
    while i < n
        invariant
            n == val@.len(),
            i <= n,
            forall|k: int| 0 <= k < i ==> is_name_char(#[trigger] val@[k]),
        decreases n - i,
    {
        let c = val.get_char(i);
        if !(('a' <= c && c <= 'z') || ('A' <= c && c <= 'Z') || ('0' <= c && c <= '9') || c
            == '_') {
            return Err(ConfigError::InvalidName { line_number });
        }
        i = i + 1;
    }
    Ok(())
}

/// Characters a network name may not hold: path separators and ASCII control characters.
pub open spec fn forbidden_in_netname(c: char) -> bool {
    c == '/' || c == '\\' || c <= '\u{1f}' || c == '\u{7f}'
}

/// The outcome of checking a network name, which becomes a directory name.
pub open spec fn netname_check(s: Seq<char>) -> Result<(), ConfigError> {
    if s.len() == 0 {
        Err(ConfigError::EmptyNetname)
    } else if exists|i: int| 0 <= i < s.len() && forbidden_in_netname(#[trigger] s[i]) {
        Err(ConfigError::InvalidNetname)
    } else {
        Ok(())
    }
}

/// Checks that `val` can name a network: non-empty, with no `/`, `\` or control character.
pub fn check_netname(val: &str) -> (r: Result<(), ConfigError>)
    ensures
        r == netname_check(val@),
{
    let n = val.unicode_len();
    if n == 0 {
        return Err(ConfigError::EmptyNetname);
    }
    let mut i: usize = 0;
    while i < n
        invariant
            n == val@.len(),
            i <= n,
            forall|k: int| 0 <= k < i ==> !forbidden_in_netname(#[trigger] val@[k]),
        decreases n - i,
    {
        let c = val.get_char(i);
        if c == '/' || c == '\\' || c <= '\u{1f}' || c == '\u{7f}' {
            return Err(ConfigError::InvalidNetname);
        }
        i = i + 1;
    }
    Ok(())
}

/// Adds `name` to `list` unless it is there already.
fn insert_name(list: &mut Vec<String>, name: String)
    requires
        distinct_names(old(list)@),
    ensures
        distinct_names(final(list)@),
        names_of(final(list)@) == names_of(old(list)@).insert(name@),
{
    let mut i: usize = 0;
    while i < list.len()
        invariant
            i <= list@.len(),
            distinct_names(list@),
            forall|k: int| 0 <= k < i ==> #[trigger] list@[k]@ != name@,
        decreases list@.len() - i,
    {
        if list[i] == name {
            assert(names_of(list@).contains(name@));
            assert(names_of(list@).insert(name@) =~= names_of(list@));
            return;
        }
        i = i + 1;
    }
    let ghost before = list@;
    list.push(name);
    assert(list@[before.len() as int]@ == name@);
    assert forall|x: Seq<char>|
        names_of(list@).contains(x) == names_of(before).insert(name@).contains(x) by {
        if names_of(before).contains(x) {
            let k = choose|k: int| 0 <= k < before.len() && #[trigger] before[k]@ == x;
            assert(list@[k]@ == x);
        }
        if names_of(list@).contains(x) {
            let k = choose|k: int| 0 <= k < list@.len() && #[trigger] list@[k]@ == x;
            if k < before.len() {
                assert(before[k]@ == x);
            }
        }
    }
    assert(names_of(list@) =~= names_of(before).insert(name@));
}

/// Applies one `name = value` line to `config`.
pub fn validate_config_line(config: &mut Config, name: &str, value: &str, line_number: usize) -> (r:
    Result<(), ConfigError>)
    requires
        old(config).wf(),
    ensures
        final(config).wf(),
        r is Ok ==> apply_line(old(config)@, name@, value@, line_number) == Ok::<_, ConfigError>(
            final(config)@,
        ),
        r matches Err(e) ==> apply_line(old(config)@, name@, value@, line_number) == Err::<
            ConfigView,
            _,
        >(e),
        r is Err ==> *final(config) == *old(config),
{
    if same_text(name, "Name") {
        match check_name(value, line_number) {
            Err(e) => {
                return Err(e);
            },
            Ok(_) => {},
        }
        config.name = String::from_str(value);
        Ok(())
    } else if same_text(name, "LogLevel") {
        match parse_unsigned(value, 255) {
            Some(v) => {
                config.log_level = v as u8;
                Ok(())
            },
            None => Err(ConfigError::InvalidLogLevel { line_number }),
        }
    } else if same_text(name, "ConnectTo") {
        insert_name(&mut config.connect_to, String::from_str(value));
        Ok(())
    } else if same_text(name, "Port") {
        match parse_unsigned(value, 65535) {
            Some(v) => {
                config.port = Some(v as u16);
                Ok(())
            },
            None => Err(ConfigError::InvalidPort { line_number }),
        }
    } else {
        Err(ConfigError::UnknownVariable { line_number })
    }
}

/// Reads the settings of a daemon from the text of its configuration file.
pub fn read_server_config(text: &str) -> (r: Result<Config, ConfigError>)
    ensures
        r matches Ok(c) ==> c.wf() && load(text@) == Ok::<_, ConfigError>(c@),
        r matches Err(e) ==> load(text@) == Err::<ConfigView, _>(e),
{
    let n = text.unicode_len();
    let mut config = Config::new();
    let mut start: usize = 0;
    let mut line_number: usize = 0;
    while start < n
        invariant
            n == text@.len(),
            start <= n,
            line_number <= start,
            config.wf(),
            load(text@) == load_from(text@, start as int, line_number, config@),
        decreases n - start,
    {
        let end = find_char_from(text, '\n', start);
        proof {
            lemma_find_from_bounds(text@, '\n', start as int);
        }
        let line = trim_text(text.substring_char(start, end));
        let len = line.unicode_len();
        let ghost before = config@;
        let ghost step = load_from(text@, start as int, line_number, before);
        if len == 0 || line.get_char(0) == '#' {
            assert(step == load_from(text@, end + 1, (line_number + 1) as usize, config@));
        } else {
            match parse_config_line(line, line_number) {
                Err(e) => {
                    return Err(e);
                },
                Ok((k, v)) => {
                    match validate_config_line(&mut config, &k, &v, line_number) {
                        Err(e) => {
                            return Err(e);
                        },
                        Ok(_) => {},
                    }
                    assert(step == load_from(text@, end + 1, (line_number + 1) as usize, config@));
                },
            }
        }
        let ghost after = load_from(text@, end + 1, (line_number + 1) as usize, config@);
        line_number = line_number + 1;
        if end >= n {
            start = n;
            assert(after == load_from(text@, start as int, line_number, config@));
        } else {
            start = end + 1;
        }
    }
    if config.name.as_str().unicode_len() == 0 {
        return Err(ConfigError::NoName);
    }
    Ok(config)
}

} // verus!
