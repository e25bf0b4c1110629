//! The configuration of the server: what it is by default, what the configuration file says, and
//! what the environment says, each having precedence over the one before.

use vstd::prelude::*;
use vstd::string::*;

use crate::lifecycle::window_for;
use crate::rooms::{RoomConfig, RoomState};
use crate::text;

pub mod precedence;

verus! {

/// The configuration file that is read where no other is named.
pub const DEFAULT_CONFIG_PATH: &'static str = "server_config.yml";

/// The number of bytes in a mebibyte.
pub const MEBIBYTE: usize = 1_048_576;

/// An address of a host.
#[allow(inconsistent_fields)]
#[derive(Debug, Clone, Copy, PartialEq, Eq, Structural)]
pub enum IpAddress {
    /// An address of four bytes.
    V4 { a: u8, b: u8, c: u8, d: u8 },
    /// An address of sixteen bytes, in two halves.
    V6 { high: u64, low: u64, flowinfo: u32, scope_id: u32 },
}

impl IpAddress {
    /// Whether this stands for every address of the host.
    pub open spec fn unspecified(self) -> bool {
        match self {
            IpAddress::V4 { a, b, c, d } => a == 0 && b == 0 && c == 0 && d == 0,
            IpAddress::V6 { high, low, .. } => high == 0 && low == 0,
        }
    }

    /// Whether this stands for every address of the host.
    pub fn is_unspecified(&self) -> (res: bool)
        ensures
            res == self.unspecified(),
    {
        match self {
            IpAddress::V4 { a, b, c, d } => *a == 0 && *b == 0 && *c == 0 && *d == 0,
            IpAddress::V6 { high, low, .. } => *high == 0 && *low == 0,
        }
    }
}

/// An address to listen at.
#[derive(Debug, Clone, Copy, PartialEq, Eq, Structural)]
pub struct ListenAddr {
    ip: IpAddress,
    port: u16,
}

impl ListenAddr {
    /// The host.
    pub closed spec fn host(self) -> IpAddress {
        self.ip
    }

    /// The port.
    pub closed spec fn at_port(self) -> u16 {
        self.port
    }

    /// A host and a port.
    pub fn new(ip: IpAddress, port: u16) -> (res: Self)
        ensures
            res.host() == ip,
            res.at_port() == port,
    {
        ListenAddr { ip, port }
    }

    /// The host.
    pub fn ip(&self) -> (res: IpAddress)
        ensures
            res == self.host(),
    {
        self.ip
    }

    /// The port.
    pub fn port(&self) -> (res: u16)
        ensures
            res == self.at_port(),
    {
        self.port
    }
}

/// The configuration of the server.
#[derive(Debug, PartialEq, Eq)]
pub struct Config {
    /// Where the server listens.
    pub listen: ListenAddr,
    /// Where the API is.
    pub api_base: String,
    /// The configuration of the rooms.
    pub rooms: RoomConfig,
    /// How long a lost connection is waited for, in seconds.
    pub reconnect_window: u64,
    /// How long a connection that was lost during a game is waited for, in seconds.
    pub playing_reconnect_window: u64,
    /// How long a client may take to log in, in seconds.
    pub auth_timeout: u64,
    /// How long a request to the API may take, in seconds.
    pub http_timeout: u64,
    /// How long the server waits before it goes down for maintenance, in seconds.
    pub maintenance_grace: u64,
    /// How often the configuration file is looked at, in seconds.
    pub config_poll_interval: u64,
    /// What users are told before the server goes down.
    pub maintenance_notice: String,
    /// What users are told when they log in, if anything.
    pub welcome_message: Option<String>,
    /// Rooms whose ids start with one of these are not listed.
    pub hidden_room_prefixes: Vec<String>,
    /// The port of the list of rooms, if there is one.
    pub http_port: Option<u16>,
    /// What an administrator has to show; without it there is no administration.
    pub admin_token: Option<String>,
    /// Where the administration keeps its files.
    pub persist_dir: String,
    /// Whether a proxy stands before the server and says who connects.
    pub proxy_protocol: bool,
    /// How many bytes may be under way in all; zero stands for a default.
    pub memory_guard_bytes: usize,
    /// How many bytes may wait for one connection; zero stands for a default.
    pub per_conn_mem_bytes: usize,
    /// How many users may be logged in; zero stands for a default.
    pub max_authed_connections: usize,
}

/// The mathematical content of a [`Config`].
#[verifier::ext_equal]
pub struct ConfigView {
    pub ip: IpAddress,
    pub port: u16,
    pub api_base: Seq<char>,
    pub monitors: Seq<i32>,
    pub reconnect_window: u64,
    pub playing_reconnect_window: u64,
    pub auth_timeout: u64,
    pub http_timeout: u64,
    pub maintenance_grace: u64,
    pub config_poll_interval: u64,
    pub maintenance_notice: Seq<char>,
    pub welcome_message: Option<Seq<char>>,
    pub hidden_room_prefixes: Seq<Seq<char>>,
    pub http_port: Option<u16>,
    pub admin_token: Option<Seq<char>>,
    pub persist_dir: Seq<char>,
    pub proxy_protocol: bool,
    pub memory_guard_bytes: usize,
    pub per_conn_mem_bytes: usize,
    pub max_authed_connections: usize,
}

/// The texts of some strings.
pub open spec fn texts(strings: Seq<String>) -> Seq<Seq<char>> {
    Seq::new(strings.len(), |i: int| strings[i]@)
}

/// The text of a string, if there is one.
pub open spec fn text_of(string: Option<String>) -> Option<Seq<char>> {
    match string {
        Some(string) => Some(string@),
        None => None,
    }
}

impl View for Config {
    type V = ConfigView;

    open spec fn view(&self) -> ConfigView {
        ConfigView {
            ip: self.listen.host(),
            port: self.listen.at_port(),
            api_base: self.api_base@,
            monitors: self.rooms.monitors@,
            reconnect_window: self.reconnect_window,
            playing_reconnect_window: self.playing_reconnect_window,
            auth_timeout: self.auth_timeout,
            http_timeout: self.http_timeout,
            maintenance_grace: self.maintenance_grace,
            config_poll_interval: self.config_poll_interval,
            maintenance_notice: self.maintenance_notice@,
            welcome_message: text_of(self.welcome_message),
            hidden_room_prefixes: texts(self.hidden_room_prefixes@),
            http_port: self.http_port,
            admin_token: text_of(self.admin_token),
            persist_dir: self.persist_dir@,
            proxy_protocol: self.proxy_protocol,
            memory_guard_bytes: self.memory_guard_bytes,
            per_conn_mem_bytes: self.per_conn_mem_bytes,
            max_authed_connections: self.max_authed_connections,
        }
    }
}

/// A copy of some strings.
fn copy_texts(strings: &Vec<String>) -> (res: Vec<String>)
    ensures
        texts(res@) == texts(strings@),
{
    let mut res: Vec<String> = Vec::new();
    let mut i: usize = 0;
    while i < strings.len()
        invariant
            i <= strings.len(),
            texts(res@) == texts(strings@).take(i as int),
        decreases strings.len() - i,
    {
        let ghost before = res@;
        res.push(strings[i].clone());
        assert(texts(res@) =~= texts(before).push(strings@[i as int]@));
        assert(texts(strings@).take(i + 1) =~= texts(strings@).take(i as int).push(
            strings@[i as int]@,
        ));
        i = i + 1;
    }
    assert(texts(strings@).take(i as int) =~= texts(strings@));
    res
}

/// A copy of a string, if there is one.
fn copy_text(string: &Option<String>) -> (res: Option<String>)
    ensures
        text_of(res) == text_of(*string),
{
    match string {
        Some(string) => Some(string.clone()),
        None => None,
    }
}

impl Clone for Config {
    fn clone(&self) -> (res: Self)
        ensures
            res@ == self@,
    {
        Config {
            listen: self.listen,
            api_base: self.api_base.clone(),
            rooms: self.rooms.clone(),
            reconnect_window: self.reconnect_window,
            playing_reconnect_window: self.playing_reconnect_window,
            auth_timeout: self.auth_timeout,
            http_timeout: self.http_timeout,
            maintenance_grace: self.maintenance_grace,
            config_poll_interval: self.config_poll_interval,
            maintenance_notice: self.maintenance_notice.clone(),
            welcome_message: copy_text(&self.welcome_message),
            hidden_room_prefixes: copy_texts(&self.hidden_room_prefixes),
            http_port: self.http_port,
            admin_token: copy_text(&self.admin_token),
            persist_dir: self.persist_dir.clone(),
            proxy_protocol: self.proxy_protocol,
            memory_guard_bytes: self.memory_guard_bytes,
            per_conn_mem_bytes: self.per_conn_mem_bytes,
            max_authed_connections: self.max_authed_connections,
        }
    }
}

/// The configuration by default.
pub open spec fn default_config() -> ConfigView {
    ConfigView {
        ip: IpAddress::V4 { a: 0, b: 0, c: 0, d: 0 },
        port: 12346,
        api_base: "https://phira.5wyxi.com"@,
        monitors: seq![2i32],
        reconnect_window: 10,
        playing_reconnect_window: 60,
        auth_timeout: 10,
        http_timeout: 5,
        maintenance_grace: 10,
        config_poll_interval: 2,
        maintenance_notice: "服务器维护中，房间即将关闭，请稍后再来"@,
        welcome_message: None,
        hidden_room_prefixes: Seq::empty(),
        http_port: None,
        admin_token: None,
        persist_dir: "./data"@,
        proxy_protocol: false,
        memory_guard_bytes: 0,
        per_conn_mem_bytes: 0,
        max_authed_connections: 0,
    }
}

impl Default for Config {
    fn default() -> (res: Self)
        ensures
            res@ == default_config(),
    {
        let mut monitors: Vec<i32> = Vec::new();
        monitors.push(2);
        let res = Config {
            listen: ListenAddr::new(IpAddress::V4 { a: 0, b: 0, c: 0, d: 0 }, 12346),
            api_base: "https://phira.5wyxi.com".to_owned(),
            rooms: RoomConfig { monitors },
            reconnect_window: 10,
            playing_reconnect_window: 60,
            auth_timeout: 10,
            http_timeout: 5,
            maintenance_grace: 10,
            config_poll_interval: 2,
            maintenance_notice: "服务器维护中，房间即将关闭，请稍后再来".to_owned(),
            welcome_message: None,
            hidden_room_prefixes: Vec::new(),
            http_port: None,
            admin_token: None,
            persist_dir: "./data".to_owned(),
            proxy_protocol: false,
            memory_guard_bytes: 0,
            per_conn_mem_bytes: 0,
            max_authed_connections: 0,
        };
        assert(res@ =~= default_config());
        res
    }
}

/// Why there is no configuration.
#[allow(inconsistent_fields)]
#[derive(Debug, PartialEq, Eq)]
pub enum ConfigError {
    /// The environment says something that makes no sense.
    InvalidEnv {
        /// The name of the variable.
        name: &'static str,
        /// What it says.
        value: String,
    },
    /// The configuration file cannot be read.
    ReadFile {
        /// The file.
        path: String,
        /// Why not.
        source: String,
    },
    /// The configuration file makes no sense.
    InvalidYaml {
        /// The file.
        path: String,
        /// What is wrong with it.
        msg: String,
    },
}

/// The mathematical content of a [`ConfigError`].
#[allow(inconsistent_fields)]
#[verifier::ext_equal]
pub enum ConfigErrorView {
    InvalidEnv { name: Seq<char>, value: Seq<char> },
    ReadFile { path: Seq<char>, source: Seq<char> },
    InvalidYaml { path: Seq<char>, msg: Seq<char> },
}

impl View for ConfigError {
    type V = ConfigErrorView;

    open spec fn view(&self) -> ConfigErrorView {
        match self {
            ConfigError::InvalidEnv { name, value } => ConfigErrorView::InvalidEnv {
                name: name@,
                value: value@,
            },
            ConfigError::ReadFile { path, source } => ConfigErrorView::ReadFile {
                path: path@,
                source: source@,
            },
            ConfigError::InvalidYaml { path, msg } => ConfigErrorView::InvalidYaml {
                path: path@,
                msg: msg@,
            },
        }
    }
}

impl ConfigErrorView {
    /// The error in words.
    pub open spec fn words(self) -> Seq<char> {
        match self {
            ConfigErrorView::InvalidEnv { name, value } => "invalid env var "@ + name + ": "@
                + value,
            ConfigErrorView::ReadFile { path, source } => "config file "@ + path + ": "@ + source,
            ConfigErrorView::InvalidYaml { path, msg } => "config file "@ + path + ": "@ + msg,
        }
    }
}

fn in_words(first: &str, what: &str, why: &str) -> (res: String)
    ensures
        res@ == first@ + what@ + ": "@ + why@,
{
    let mut res: String = text::join(first, what);
    res.append(": ");
    res.append(why);
    res
}

impl ConfigError {
    /// The error in words.
    pub fn message(&self) -> (res: String)
        ensures
            res@ == self@.words(),
    {
        match self {
            ConfigError::InvalidEnv { name, value } => in_words(
                "invalid env var ",
                name,
                value.as_str(),
            ),
            ConfigError::ReadFile { path, source } => in_words(
                "config file ",
                path.as_str(),
                source.as_str(),
            ),
            ConfigError::InvalidYaml { path, msg } => in_words(
                "config file ",
                path.as_str(),
                msg.as_str(),
            ),
        }
    }
}

/// An address as the configuration file gives it.
#[derive(Debug, PartialEq, Eq)]
pub struct ListenText {
    /// The text.
    pub text: String,
    /// The address that it stands for, if it stands for one.
    pub addr: Option<ListenAddr>,
}

/// What a configuration file says. What it does not say stays as it is by default.
#[derive(Debug, PartialEq, Eq)]
pub struct YamlConfig {
    /// Where the server listens.
    pub listen: Option<ListenText>,
    /// Where the API is.
    pub api_base: Option<String>,
    /// Who may watch.
    pub monitors: Option<Vec<i32>>,
    /// How long a lost connection is waited for, in seconds.
    pub reconnect_window: Option<u64>,
    /// How long a connection that was lost during a game is waited for, in seconds.
    pub playing_reconnect_window: Option<u64>,
    /// How long a client may take to log in, in seconds.
    pub auth_timeout: Option<u64>,
    /// How long a request to the API may take, in seconds.
    pub http_timeout: Option<u64>,
    /// How long the server waits before it goes down for maintenance, in seconds.
    pub maintenance_grace: Option<u64>,
    /// How often the configuration file is looked at, in seconds.
    pub config_poll_interval: Option<u64>,
    /// What users are told before the server goes down.
    pub maintenance_notice: Option<String>,
    /// What users are told when they log in.
    pub welcome_message: Option<String>,
    /// Rooms whose ids start with one of these are not listed.
    pub hidden_room_prefixes: Option<Vec<String>>,
    /// The port of the list of rooms.
    pub http_port: Option<u16>,
    /// Whether a proxy stands before the server and says who connects.
    pub proxy_protocol: Option<bool>,
    /// What an administrator has to show.
    pub admin_token: Option<String>,
    /// Where the administration keeps its files.
    pub persist_dir: Option<String>,
    /// How many mebibytes may be under way in all.
    pub memory_guard_mb: Option<usize>,
    /// How many mebibytes may wait for one connection.
    pub per_conn_mem_mb: Option<usize>,
    /// How many users may be logged in.
    pub max_authed_connections: Option<usize>,
}

/// What was said, or else what it was before.
pub open spec fn said_or<T>(said: Option<T>, before: T) -> T {
    match said {
        Some(value) => value,
        None => before,
    }
}

/// What was said, or else what it was before.
pub open spec fn said_text_or(said: Option<String>, before: Seq<char>) -> Seq<char> {
    match said {
        Some(value) => value@,
        None => before,
    }
}

/// A number of mebibytes in bytes, or else what it was before.
pub open spec fn bytes_or(mebibytes: Option<usize>, before: usize) -> usize {
    match mebibytes {
        Some(n) => (n * MEBIBYTE) as usize,
        None => before,
    }
}

impl YamlConfig {
    /// A file that says nothing.
    pub fn empty() -> (res: Self)
        ensures
            res.says_nothing(),
    {
        YamlConfig {
            listen: None,
            api_base: None,
            monitors: None,
            reconnect_window: None,
            playing_reconnect_window: None,
            auth_timeout: None,
            http_timeout: None,
            maintenance_grace: None,
            config_poll_interval: None,
            maintenance_notice: None,
            welcome_message: None,
            hidden_room_prefixes: None,
            http_port: None,
            proxy_protocol: None,
            admin_token: None,
            persist_dir: None,
            memory_guard_mb: None,
            per_conn_mem_mb: None,
            max_authed_connections: None,
        }
    }

    /// Whether the file says nothing.
    pub open spec fn says_nothing(self) -> bool {
        &&& self.listen is None
        &&& self.api_base is None
        &&& self.monitors is None
        &&& self.reconnect_window is None
        &&& self.playing_reconnect_window is None
        &&& self.auth_timeout is None
        &&& self.http_timeout is None
        &&& self.maintenance_grace is None
        &&& self.config_poll_interval is None
        &&& self.maintenance_notice is None
        &&& self.welcome_message is None
        &&& self.hidden_room_prefixes is None
        &&& self.http_port is None
        &&& self.proxy_protocol is None
        &&& self.admin_token is None
        &&& self.persist_dir is None
        &&& self.memory_guard_mb is None
        &&& self.per_conn_mem_mb is None
        &&& self.max_authed_connections is None
    }

    /// Whether its numbers of mebibytes can be given in bytes.
    pub open spec fn fits(self) -> bool {
        &&& self.memory_guard_mb matches Some(n) ==> n * MEBIBYTE <= usize::MAX
        &&& self.per_conn_mem_mb matches Some(n) ==> n * MEBIBYTE <= usize::MAX
    }

    /// Whether its numbers of mebibytes can be given in bytes.
    pub fn is_in_range(&self) -> (res: bool)
        ensures
            res == self.fits(),
    {
        let limit: usize = usize::MAX / MEBIBYTE;
        let guard: bool = match self.memory_guard_mb {
            Some(n) => n <= limit,
            None => true,
        };
        let queue: bool = match self.per_conn_mem_mb {
            Some(n) => n <= limit,
            None => true,
        };
        guard && queue
    }

    /// Whether the address in the file, if there is one, stands for an address.
    pub open spec fn has_good_address(self) -> bool {
        self.listen matches Some(listen) ==> listen.addr is Some
    }

    /// Whether the file can be taken over, or is refused for its address before its numbers of
    /// mebibytes are looked at.
    pub open spec fn can_be_taken(self) -> bool {
        self.has_good_address() ==> self.fits()
    }

    /// Whether the file can be taken over, or is refused for its address before its numbers of
    /// mebibytes are looked at.
    pub fn is_takeable(&self) -> (res: bool)
        ensures
            res == self.can_be_taken(),
    {
        match &self.listen {
            Some(ListenText { text: _, addr: None }) => true,
            _ => self.is_in_range(),
        }
    }

    /// A configuration with what the file says.
    pub open spec fn over(self, before: ConfigView) -> ConfigView {
        ConfigView {
            ip: match self.listen {
                Some(ListenText { text: _, addr: Some(addr) }) => addr.host(),
                _ => before.ip,
            },
            port: match self.listen {
                Some(ListenText { text: _, addr: Some(addr) }) => addr.at_port(),
                _ => before.port,
            },
            api_base: said_text_or(self.api_base, before.api_base),
            monitors: match self.monitors {
                Some(monitors) => monitors@,
                None => before.monitors,
            },
            reconnect_window: said_or(self.reconnect_window, before.reconnect_window),
            playing_reconnect_window: said_or(self.playing_reconnect_window, before.playing_reconnect_window),
            auth_timeout: said_or(self.auth_timeout, before.auth_timeout),
            http_timeout: said_or(self.http_timeout, before.http_timeout),
            maintenance_grace: said_or(self.maintenance_grace, before.maintenance_grace),
            config_poll_interval: said_or(self.config_poll_interval, before.config_poll_interval),
            maintenance_notice: said_text_or(self.maintenance_notice, before.maintenance_notice),
            welcome_message: match self.welcome_message {
                Some(message) => Some(message@),
                None => before.welcome_message,
            },
            hidden_room_prefixes: match self.hidden_room_prefixes {
                Some(prefixes) => texts(prefixes@),
                None => before.hidden_room_prefixes,
            },
            http_port: match self.http_port {
                Some(port) => Some(port),
                None => before.http_port,
            },
            admin_token: match self.admin_token {
                Some(token) => Some(token@),
                None => before.admin_token,
            },
            persist_dir: said_text_or(self.persist_dir, before.persist_dir),
            proxy_protocol: said_or(self.proxy_protocol, before.proxy_protocol),
            memory_guard_bytes: bytes_or(self.memory_guard_mb, before.memory_guard_bytes),
            per_conn_mem_bytes: bytes_or(self.per_conn_mem_mb, before.per_conn_mem_bytes),
            max_authed_connections: said_or(
                self.max_authed_connections,
                before.max_authed_connections,
            ),
        }
    }
}

fn take<T: Copy>(said: Option<T>, value: &mut T)
    ensures
        *final(value) == said_or(said, *old(value)),
{
    if let Some(new) = said {
        *value = new;
    }
}

fn take_text(said: Option<String>, value: &mut String)
    ensures
        final(value)@ == said_text_or(said, old(value)@),
{
    if let Some(new) = said {
        *value = new;
    }
}

fn take_optional_text(said: Option<String>, value: &mut Option<String>)
    ensures
        text_of(*final(value)) == match said {
            Some(new) => Some(new@),
            None => text_of(*old(value)),
        },
{
    if let Some(new) = said {
        *value = Some(new);
    }
}

fn take_mebibytes(said: Option<usize>, value: &mut usize)
    requires
        said matches Some(n) ==> n * MEBIBYTE <= usize::MAX,
    ensures
        *final(value) == bytes_or(said, *old(value)),
{
    if let Some(n) = said {
        *value = n * MEBIBYTE;
    }
}

/// What is said of a configuration file: where it was read from, or else where it would be.
pub open spec fn named_path(path: Option<&str>) -> Seq<char> {
    match path {
        Some(path) => path@,
        None => DEFAULT_CONFIG_PATH@,
    }
}

fn path_or_default(path: Option<&str>) -> (res: String)
    ensures
        res@ == named_path(path),
{
    match path {
        Some(path) => path.to_owned(),
        None => DEFAULT_CONFIG_PATH.to_owned(),
    }
}

/// Why the text of a configuration file is refused, if it is: because it cannot be understood,
/// or because of the address in it.
pub open spec fn yaml_error(
    yaml: Result<YamlConfig, String>,
    path: Option<&str>,
) -> Option<ConfigErrorView> {
    match yaml {
        Err(msg) => Some(ConfigErrorView::InvalidYaml { path: named_path(path), msg: msg@ }),
        Ok(file) => match file.listen {
            Some(ListenText { text, addr: None }) => Some(
                ConfigErrorView::InvalidYaml {
                    path: named_path(path),
                    msg: "invalid listen address: "@ + text@,
                },
            ),
            _ => None,
        },
    }
}

/// What the environment says.
#[derive(Debug, PartialEq, Eq)]
pub struct EnvVars {
    /// `R0SEMI_MP_PORT`: the port to listen at.
    pub port: Option<String>,
    /// `R0SEMI_MP_API_BASE`: where the API is.
    pub api_base: Option<String>,
    /// `R0SEMI_MP_ADMIN_TOKEN`: what an administrator has to show.
    pub admin_token: Option<String>,
    /// `R0SEMI_MP_PERSIST_DIR`: where the administration keeps its files.
    pub persist_dir: Option<String>,
}

impl EnvVars {
    /// Why the environment is refused, if it is.
    pub open spec fn error(self) -> Option<ConfigErrorView> {
        match self.port {
            Some(port) if port_of(port@) is None => Some(
                ConfigErrorView::InvalidEnv { name: "R0SEMI_MP_PORT"@, value: port@ },
            ),
            _ => None,
        }
    }

    /// A configuration with what the environment says.
    pub open spec fn over(self, before: ConfigView) -> ConfigView {
        ConfigView {
            port: match self.port {
                Some(port) => said_or(port_of(port@), before.port),
                None => before.port,
            },
            api_base: said_text_or(self.api_base, before.api_base),
            admin_token: match self.admin_token {
                Some(token) => Some(token@),
                None => before.admin_token,
            },
            persist_dir: said_text_or(self.persist_dir, before.persist_dir),
            ..before
        }
    }
}

/// Whether a character is a decimal digit.
pub open spec fn is_digit(c: char) -> bool {
    '0' <= c <= '9'
}

/// The number that decimal digits stand for.
pub open spec fn number(digits: Seq<char>) -> nat
    decreases digits.len(),
{
    if digits.len() == 0 {
        0
    } else {
        number(digits.drop_last()) * 10 + (digits.last() as nat - '0' as nat) as nat
    }
}

/// The digits of a number, after the sign that it may have.
pub open spec fn unsigned(text: Seq<char>) -> Seq<char> {
    if text.len() > 0 && text[0] == '+' {
        text.drop_first()
    } else {
        text
    }
}

/// The port that a text stands for: a number that is not too large, in one digit or more, after
/// an optional plus sign.
pub open spec fn port_of(text: Seq<char>) -> Option<u16> {
    let digits = unsigned(text);
    if digits.len() > 0 && (forall|i: int| 0 <= i < digits.len() ==> is_digit(#[trigger] digits[i]))
        && number(digits) <= u16::MAX {
        Some(number(digits) as u16)
    } else {
        None
    }
}

proof fn lemma_number_grows(digits: Seq<char>, n: int)
    requires
        0 <= n <= digits.len(),
    ensures
        number(digits.take(n)) <= number(digits),
    decreases digits.len() - n,
{
    if n < digits.len() {
        lemma_number_grows(digits, n + 1);
        assert(digits.take(n + 1).drop_last() =~= digits.take(n));
    } else {
        assert(digits.take(n) =~= digits);
    }
}

fn digit_value(c: char) -> (res: Option<u32>)
    ensures
        match res {
            Some(d) => is_digit(c) && d == c as nat - '0' as nat && d < 10,
            None => !is_digit(c),
        },
{
    if '0' <= c && c <= '9' {
        Some(c as u32 - '0' as u32)
    } else {
        None
    }
}

/// The port that a text stands for, if it stands for one.
pub fn parse_port(text: &str) -> (res: Option<u16>)
    ensures
        res == port_of(text@),
{
    let mut first: bool = true;
    let mut signed: bool = false;
    let mut count: bool = false;
    let mut sum: u32 = 0;
    let ghost digits = unsigned(text@);
    for c in walk: text.chars()
        invariant
            walk.seq() == text@,
            first == (walk.index() == 0),
            digits == unsigned(text@),
            signed ==> text@.len() > 0 && text@[0] == '+',
            !signed && walk.index() > 0 ==> text@[0] != '+',
            first ==> !signed,
            sum <= u16::MAX,
            count <==> walk.index() > if signed {
                1int
            } else {
                0int
            },
            ({
                let done = if signed {
                    walk.index() - 1
                } else {
                    walk.index() as int
                };
                &&& 0 <= done
                &&& walk.index() > 0 ==> done <= digits.len()
                &&& walk.index() > 0 ==> sum == number(digits.take(done))
                &&& walk.index() == 0 ==> sum == 0
                &&& walk.index() > 0 ==> forall|i: int|
                    0 <= i < done ==> is_digit(#[trigger] digits[i])
            }),
    {
        if first && c == '+' {
            signed = true;
            first = false;
            assert(digits.take(0) =~= Seq::empty());
        } else {
            let ghost done = if signed {
                walk.index() - 1
            } else {
                walk.index() as int
            };
            first = false;
            assert(digits[done] == c);
            assert(digits.take(0) =~= Seq::empty());
            assert(digits.take(done + 1).drop_last() =~= digits.take(done));
            match digit_value(c) {
                Some(d) => {
                    sum = sum * 10 + d;
                    count = true;
                },
                None => {
                    return None;
                },
            }
            if sum > 65_535 {
                proof {
                    lemma_number_grows(digits, done + 1);
                }
                return None;
            }
        }
    }
    proof {
        assert(digits.take(digits.len() as int) =~= digits);
        if text@.len() == 0 {
            assert(digits =~= text@);
        }
    }
    if count {
        Some(sum as u16)
    } else {
        None
    }
}

/// The configuration, or why there is none: the file has precedence over what is so by default,
/// and the environment over the file.
pub open spec fn loaded(
    env: EnvVars,
    yaml: Option<Result<YamlConfig, String>>,
    path: Option<&str>,
) -> Result<ConfigView, ConfigErrorView> {
    let read = match yaml {
        Some(yaml) => match yaml_error(yaml, path) {
            Some(e) => Err(e),
            None => Ok(yaml->Ok_0.over(default_config())),
        },
        None => Ok(default_config()),
    };
    match (read, env.error()) {
        (Err(e), _) => Err(e),
        (Ok(_), Some(e)) => Err(e),
        (Ok(config), None) => Ok(env.over(config)),
    }
}

impl Config {
    /// The configuration without a file.
    pub fn load_from(env: EnvVars) -> (res: Result<Self, ConfigError>)
        ensures
            match res {
                Ok(config) => loaded(env, None, None) == Ok::<_, ConfigErrorView>(config@),
                Err(e) => loaded(env, None, None) == Err::<ConfigView, _>(e@),
            },
    {
        Self::load_from_yaml(env, None, None)
    }

    /// The configuration, or why there is none: the file, if there is one, has precedence over
    /// what is so by default, and the environment over the file.
    ///
    /// `yaml` is what the file says, or why its text cannot be understood.
    pub fn load_from_yaml(
        env: EnvVars,
        yaml: Option<Result<YamlConfig, String>>,
        path: Option<&str>,
    ) -> (res: Result<Self, ConfigError>)
        requires
            yaml matches Some(Ok(file)) ==> file.can_be_taken(),
        ensures
            match res {
                Ok(config) => loaded(env, yaml, path) == Ok::<_, ConfigErrorView>(config@),
                Err(e) => loaded(env, yaml, path) == Err::<ConfigView, _>(e@),
            },
    {
        let mut config: Config = Config::default();
        if let Some(yaml) = yaml {
            match config.apply_yaml(yaml, path) {
                Ok(()) => {},
                Err(e) => {
                    return Err(e);
                },
            }
        }
        let ghost read = config@;
        if let Some(port) = env.port {
            match parse_port(port.as_str()) {
                Some(number) => {
                    config.listen = ListenAddr::new(config.listen.ip(), number);
                },
                None => {
                    return Err(ConfigError::InvalidEnv { name: "R0SEMI_MP_PORT", value: port });
                },
            }
        }
        take_text(env.api_base, &mut config.api_base);
        take_optional_text(env.admin_token, &mut config.admin_token);
        take_text(env.persist_dir, &mut config.persist_dir);
        assert(config@ =~= env.over(read));
        Ok(config)
    }

    /// The configuration by what came of reading the file, or why there is none: a file that is
    /// not there says nothing, and one that cannot be read is an error.
    ///
    /// `read` is what the text of the file says, if there is a file, or why it cannot be read.
    pub fn load_from_read(
        env: EnvVars,
        read: Result<Option<Result<YamlConfig, String>>, String>,
        path: &str,
    ) -> (res: Result<Self, ConfigError>)
        requires
            read matches Ok(Some(Ok(file))) ==> file.can_be_taken(),
        ensures
            match read {
                Err(why) => res is Err && res->Err_0@ == (ConfigErrorView::ReadFile {
                    path: path@,
                    source: why@,
                }),
                Ok(yaml) => match res {
                    Ok(config) => loaded(env, yaml, Some(path)) == Ok::<_, ConfigErrorView>(
                        config@,
                    ),
                    Err(e) => loaded(env, yaml, Some(path)) == Err::<ConfigView, _>(e@),
                },
            },
    {
        match read {
            Ok(yaml) => Self::load_from_yaml(env, yaml, Some(path)),
            Err(why) => Err(ConfigError::ReadFile { path: path.to_owned(), source: why }),
        }
    }

    /// Takes over what a configuration file says. Where the file is refused nothing changes.
    ///
    /// `yaml` is what the file says, or why its text cannot be understood.
    pub fn apply_yaml(&mut self, yaml: Result<YamlConfig, String>, path: Option<&str>) -> (res:
        Result<(), ConfigError>)
        requires
            yaml matches Ok(file) ==> file.can_be_taken(),
        ensures
            match yaml_error(yaml, path) {
                Some(e) => res is Err && res->Err_0@ == e && *final(self) == *old(self),
                None => res is Ok && final(self)@ == yaml->Ok_0.over(old(self)@),
            },
    {
        let ghost before = self@;
        let file: YamlConfig = match yaml {
            Ok(file) => file,
            Err(msg) => {
                return Err(ConfigError::InvalidYaml { path: path_or_default(path), msg });
            },
        };
        if let Some(listen) = file.listen {
            match listen.addr {
                Some(addr) => {
                    self.listen = addr;
                },
                None => {
                    return Err(
                        ConfigError::InvalidYaml {
                            path: path_or_default(path),
                            msg: text::join("invalid listen address: ", listen.text.as_str()),
                        },
                    );
                },
            }
        }
        take_text(file.api_base, &mut self.api_base);
        if let Some(monitors) = file.monitors {
            self.rooms = RoomConfig { monitors };
        }
        take(file.reconnect_window, &mut self.reconnect_window);
        take(file.playing_reconnect_window, &mut self.playing_reconnect_window);
        take(file.auth_timeout, &mut self.auth_timeout);
        take(file.http_timeout, &mut self.http_timeout);
        take(file.maintenance_grace, &mut self.maintenance_grace);
        take(file.config_poll_interval, &mut self.config_poll_interval);
        take_text(file.maintenance_notice, &mut self.maintenance_notice);
        take_optional_text(file.welcome_message, &mut self.welcome_message);
        if let Some(prefixes) = file.hidden_room_prefixes {
            self.hidden_room_prefixes = prefixes;
        }
        if let Some(port) = file.http_port {
            self.http_port = Some(port);
        }
        take(file.proxy_protocol, &mut self.proxy_protocol);
        take_optional_text(file.admin_token, &mut self.admin_token);
        take_text(file.persist_dir, &mut self.persist_dir);
        take_mebibytes(file.memory_guard_mb, &mut self.memory_guard_bytes);
        take_mebibytes(file.per_conn_mem_mb, &mut self.per_conn_mem_bytes);
        take(file.max_authed_connections, &mut self.max_authed_connections);
        assert(self@ =~= file.over(before));
        Ok(())
    }

    /// How long to wait for a lost connection of a user, in seconds, by the state of the user's
    /// room.
    pub fn dangle_window(&self, state: Option<RoomState>) -> (res: u64)
        ensures
            res == if state == Some(RoomState::Playing) {
                self.playing_reconnect_window
            } else {
                self.reconnect_window
            },
    {
        window_for(state, self.reconnect_window, self.playing_reconnect_window)
    }
}

/// A configuration file that says nothing changes nothing.
pub proof fn empty_file_changes_nothing(file: YamlConfig, before: ConfigView)
    requires
        file.says_nothing(),
    ensures
        file.over(before) == before,
{
}

/// The environment has precedence over the file, and the file over what is so by default.
pub proof fn environment_comes_before_the_file(
    env: EnvVars,
    file: YamlConfig,
    path: Option<&str>,
)
    requires
        file.has_good_address(),
        env.error() is None,
    ensures
        loaded(env, Some(Ok(file)), path) matches Ok(config) && {
            &&& config.api_base == match (env.api_base, file.api_base) {
                (Some(base), _) => base@,
                (None, Some(base)) => base@,
                (None, None) => default_config().api_base,
            }
            &&& config.persist_dir == match (env.persist_dir, file.persist_dir) {
                (Some(dir), _) => dir@,
                (None, Some(dir)) => dir@,
                (None, None) => default_config().persist_dir,
            }
            &&& config.admin_token == match (env.admin_token, file.admin_token) {
                (Some(token), _) => Some(token@),
                (None, Some(token)) => Some(token@),
                (None, None) => None,
            }
            &&& config.port == match (env.port, file.listen) {
                (Some(port), _) => port_of(port@)->0,
                (None, Some(listen)) => listen.addr->0.at_port(),
                (None, None) => default_config().port,
            }
            &&& config.ip == match file.listen {
                Some(listen) => listen.addr->0.host(),
                None => default_config().ip,
            }
        },
{
}

} // verus!
