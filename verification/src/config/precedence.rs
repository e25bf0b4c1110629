//! Laws of the configuration: what it is by default, and what comes before what, field by field.

use vstd::prelude::*;

use super::{
    Config, ConfigErrorView, ConfigView, EnvVars, IpAddress, ListenText, YamlConfig,
};

verus! {

/// What the server does where no one says anything.
pub proof fn defaults_are_known()
    ensures
        ({
            let config = super::default_config();
            &&& config.ip == (IpAddress::V4 { a: 0, b: 0, c: 0, d: 0 })
            &&& config.port == 12346
            &&& config.api_base == "https://phira.5wyxi.com"@
            &&& config.monitors == seq![2i32]
            &&& config.reconnect_window == 10
            &&& config.playing_reconnect_window == 60
            &&& config.auth_timeout == 10
            &&& config.http_timeout == 5
            &&& config.maintenance_grace == 10
            &&& config.config_poll_interval == 2
            &&& config.maintenance_notice == "服务器维护中，房间即将关闭，请稍后再来"@
            &&& config.welcome_message is None
            &&& config.hidden_room_prefixes.len() == 0
            &&& config.http_port is None
            &&& config.admin_token is None
            &&& config.persist_dir == "./data"@
            &&& !config.proxy_protocol
            &&& config.memory_guard_bytes == 0
            &&& config.per_conn_mem_bytes == 0
            &&& config.max_authed_connections == 0
        }),
        super::DEFAULT_CONFIG_PATH@ == "server_config.yml"@,
        super::MEBIBYTE == 1024 * 1024,
{
}

/// What the file says holds, and what it does not say stays as it was, each thing by itself.
pub proof fn files_are_taken_over_field_by_field(file: YamlConfig, before: ConfigView)
    requires
        file.memory_guard_mb matches Some(n) ==> n * 0x10_0000 <= usize::MAX,
        file.per_conn_mem_mb matches Some(n) ==> n * 0x10_0000 <= usize::MAX,
    ensures
        ({
            let after = file.over(before);
            &&& match file.listen {
                Some(ListenText { addr: Some(addr), .. }) => after.ip == addr.host() && after.port
                    == addr.at_port(),
                _ => after.ip == before.ip && after.port == before.port,
            }
            &&& match file.api_base {
                Some(text) => after.api_base == text@,
                None => after.api_base == before.api_base,
            }
            &&& match file.monitors {
                Some(users) => after.monitors == users@,
                None => after.monitors == before.monitors,
            }
            &&& match file.reconnect_window {
                Some(value) => after.reconnect_window == value,
                None => after.reconnect_window == before.reconnect_window,
            }
            &&& match file.playing_reconnect_window {
                Some(value) => after.playing_reconnect_window == value,
                None => after.playing_reconnect_window == before.playing_reconnect_window,
            }
            &&& match file.auth_timeout {
                Some(value) => after.auth_timeout == value,
                None => after.auth_timeout == before.auth_timeout,
            }
            &&& match file.http_timeout {
                Some(value) => after.http_timeout == value,
                None => after.http_timeout == before.http_timeout,
            }
            &&& match file.maintenance_grace {
                Some(value) => after.maintenance_grace == value,
                None => after.maintenance_grace == before.maintenance_grace,
            }
            &&& match file.config_poll_interval {
                Some(value) => after.config_poll_interval == value,
                None => after.config_poll_interval == before.config_poll_interval,
            }
            &&& match file.proxy_protocol {
                Some(value) => after.proxy_protocol == value,
                None => after.proxy_protocol == before.proxy_protocol,
            }
            &&& match file.max_authed_connections {
                Some(value) => after.max_authed_connections == value,
                None => after.max_authed_connections == before.max_authed_connections,
            }
            &&& match file.maintenance_notice {
                Some(text) => after.maintenance_notice == text@,
                None => after.maintenance_notice == before.maintenance_notice,
            }
            &&& match file.welcome_message {
                Some(text) => after.welcome_message == Some(text@),
                None => after.welcome_message == before.welcome_message,
            }
            &&& match file.hidden_room_prefixes {
                Some(prefixes) => {
                    &&& after.hidden_room_prefixes.len() == prefixes@.len()
                    &&& forall|i: int|
                        0 <= i < prefixes@.len() ==> (#[trigger] after.hidden_room_prefixes[i])
                            == prefixes@[i]@
                },
                None => after.hidden_room_prefixes == before.hidden_room_prefixes,
            }
            &&& match file.http_port {
                Some(port) => after.http_port == Some(port),
                None => after.http_port == before.http_port,
            }
            &&& match file.admin_token {
                Some(text) => after.admin_token == Some(text@),
                None => after.admin_token == before.admin_token,
            }
            &&& match file.persist_dir {
                Some(text) => after.persist_dir == text@,
                None => after.persist_dir == before.persist_dir,
            }
            &&& match file.memory_guard_mb {
                Some(n) => after.memory_guard_bytes == n * 0x10_0000,
                None => after.memory_guard_bytes == before.memory_guard_bytes,
            }
            &&& match file.per_conn_mem_mb {
                Some(n) => after.per_conn_mem_bytes == n * 0x10_0000,
                None => after.per_conn_mem_bytes == before.per_conn_mem_bytes,
            }
        }),
{
}

/// What the environment says holds, and nothing else changes.
pub proof fn the_environment_says_four_things(env: EnvVars, before: ConfigView)
    ensures
        ({
            let after = env.over(before);
            &&& match env.port {
                Some(text) => match super::port_of(text@) {
                    Some(port) => after.port == port,
                    None => after.port == before.port,
                },
                None => after.port == before.port,
            }
            &&& match env.api_base {
                Some(text) => after.api_base == text@,
                None => after.api_base == before.api_base,
            }
            &&& match env.admin_token {
                Some(text) => after.admin_token == Some(text@),
                None => after.admin_token == before.admin_token,
            }
            &&& match env.persist_dir {
                Some(text) => after.persist_dir == text@,
                None => after.persist_dir == before.persist_dir,
            }
            &&& (ConfigView {
                port: before.port,
                api_base: before.api_base,
                admin_token: before.admin_token,
                persist_dir: before.persist_dir,
                ..after
            }) == before
        }),
{
}

/// The environment is refused if and only if it says a port that is none.
pub proof fn only_bad_ports_are_refused(env: EnvVars)
    ensures
        env.error() == match env.port {
            Some(text) => match super::port_of(text@) {
                Some(_) => None,
                None => Some(
                    ConfigErrorView::InvalidEnv { name: "R0SEMI_MP_PORT"@, value: text@ },
                ),
            },
            None => None,
        },
{
}

/// A file is refused if and only if it cannot be understood, or has an address in it that is none.
pub proof fn files_are_refused_for_their_address(
    yaml: Result<YamlConfig, String>,
    path: Option<&str>,
)
    ensures
        ({
            let named = match path {
                Some(path) => path@,
                None => "server_config.yml"@,
            };
            super::yaml_error(yaml, path) == match yaml {
                Err(why) => Some(ConfigErrorView::InvalidYaml { path: named, msg: why@ }),
                Ok(file) => match file.listen {
                    Some(listen) => match listen.addr {
                        Some(_) => None,
                        None => Some(
                            ConfigErrorView::InvalidYaml {
                                path: named,
                                msg: "invalid listen address: "@ + listen.text@,
                            },
                        ),
                    },
                    None => None,
                },
            }
        }),
{
}

/// The file is looked at before the environment: what is wrong with the file is told first. Where
/// nothing is wrong, the environment comes over the file, and the file over what is so by default.
pub proof fn files_are_looked_at_first(
    env: EnvVars,
    yaml: Option<Result<YamlConfig, String>>,
    path: Option<&str>,
)
    ensures
        ({
            let res = super::loaded(env, yaml, path);
            match yaml {
                None => match env.error() {
                    Some(e) => res == Err::<ConfigView, _>(e),
                    None => res == Ok::<_, ConfigErrorView>(env.over(super::default_config())),
                },
                Some(yaml) => match (super::yaml_error(yaml, path), env.error()) {
                    (Some(e), _) => res == Err::<ConfigView, _>(e),
                    (None, Some(e)) => res == Err::<ConfigView, _>(e),
                    (None, None) => yaml is Ok && res == Ok::<_, ConfigErrorView>(
                        env.over(yaml->Ok_0.over(super::default_config())),
                    ),
                },
            }
        }),
{
}

/// A file can be taken over if its address is none, or its numbers of mebibytes can be given in
/// bytes.
pub proof fn files_of_this_size_can_be_taken(file: YamlConfig)
    ensures
        ({
            let fits = (file.memory_guard_mb matches Some(n) ==> n * 0x10_0000 <= usize::MAX) && (
            file.per_conn_mem_mb matches Some(n) ==> n * 0x10_0000 <= usize::MAX);
            &&& file.fits() == fits
            &&& file.can_be_taken() == (fits || (file.listen matches Some(listen)
                && listen.addr is None))
        }),
{
}

/// The digits of a number count ten times less from left to right.
pub proof fn digits_count_by_their_place(digits: Seq<char>, c: char)
    requires
        '0' <= c <= '9',
    ensures
        super::number(Seq::empty()) == 0,
        super::number(digits.push(c)) == 10 * super::number(digits) + (c as int - 48),
{
    assert(digits.push(c).drop_last() =~= digits);
}

/// A text without the plus sign in front of it, if there is one.
pub open spec fn after_sign(text: Seq<char>) -> Seq<char> {
    if text.len() > 0 && text[0] == '+' {
        text.skip(1)
    } else {
        text
    }
}

/// Whether a text is made of digits, and of at least one.
pub open spec fn is_made_of_digits(text: Seq<char>) -> bool {
    text.len() > 0 && forall|i: int| 0 <= i < text.len() ==> '0' <= #[trigger] text[i] <= '9'
}

/// A port is any number of digits that stand for at most 65535, with or without a plus sign;
/// nothing else is one.
pub proof fn ports_are_small_numbers(text: Seq<char>)
    ensures
        match super::port_of(text) {
            Some(port) => is_made_of_digits(after_sign(text)) && port == super::number(
                after_sign(text),
            ),
            None => !is_made_of_digits(after_sign(text)) || super::number(after_sign(text))
                > 65535,
        },
{
    let digits = after_sign(text);
    assert(digits =~= super::unsigned(text));
    let all = forall|i: int| 0 <= i < digits.len() ==> super::is_digit(#[trigger] digits[i]);
    if is_made_of_digits(digits) {
        assert forall|i: int| 0 <= i < digits.len() implies super::is_digit(
            #[trigger] digits[i],
        ) by {
        }
    }
    if all && digits.len() > 0 {
        assert forall|i: int| 0 <= i < digits.len() implies '0' <= #[trigger] digits[i] <= '9' by {
            assert(super::is_digit(digits[i]));
        }
    }
}

proof fn lemma_decimal_is_number(n: nat)
    ensures
        super::number(crate::text::decimal(n)) == n,
        crate::text::decimal(n).len() > 0,
        forall|i: int|
            0 <= i < crate::text::decimal(n).len() ==> '0' <= (
            #[trigger] crate::text::decimal(n)[i]) <= '9',
    decreases n,
{
    crate::text::laws::digits_are_in_order(n % 10);
    let c = crate::text::digit(n % 10);
    if n < 10 {
        digits_count_by_their_place(Seq::empty(), c);
        assert(Seq::<char>::empty().push(c) =~= seq![c]);
    } else {
        lemma_decimal_is_number(n / 10);
        digits_count_by_their_place(crate::text::decimal(n / 10), c);
    }
}

/// Every port is read back from its digits.
pub proof fn ports_are_read_back(port: u16)
    ensures
        super::port_of(crate::text::decimal(port as nat)) == Some(port),
        super::port_of(seq!['+'] + crate::text::decimal(port as nat)) == Some(port),
{
    let digits = crate::text::decimal(port as nat);
    lemma_decimal_is_number(port as nat);
    let signed = seq!['+'] + digits;
    assert(signed.skip(1) =~= digits);
    ports_are_small_numbers(digits);
    ports_are_small_numbers(signed);
    assert('0' <= digits[0] <= '9');
}

/// The digits of a number in decimal stand for the number.
pub proof fn decimals_stand_for_their_numbers(n: nat)
    ensures
        super::number(crate::text::decimal(n)) == n,
{
    lemma_decimal_is_number(n);
}

/// What went wrong, in words.
pub proof fn errors_have_words(a: Seq<char>, b: Seq<char>)
    ensures
        (ConfigErrorView::InvalidEnv { name: a, value: b }).words() == "invalid env var "@ + a
            + ": "@ + b,
        (ConfigErrorView::ReadFile { path: a, source: b }).words() == "config file "@ + a + ": "@
            + b,
        (ConfigErrorView::InvalidYaml { path: a, msg: b }).words() == "config file "@ + a + ": "@
            + b,
{
}

/// A host has many addresses, of which zero stands for all.
pub proof fn zero_stands_for_every_address(
    a: u8,
    b: u8,
    c: u8,
    d: u8,
    high: u64,
    low: u64,
    flow: u32,
    scope: u32,
)
    ensures
        (IpAddress::V4 { a, b, c, d }).unspecified() == ((a, b, c, d) == (0u8, 0u8, 0u8, 0u8)),
        (IpAddress::V6 { high, low, flowinfo: flow, scope_id: scope }).unspecified() == ((high, low)
            == (0u64, 0u64)),
{
}

/// What a configuration says, field by field.
pub proof fn configurations_say_what_they_hold(config: Config)
    ensures
        ({
            let view = config@;
            &&& view.ip == config.listen.host()
            &&& view.port == config.listen.at_port()
            &&& view.api_base == config.api_base@
            &&& view.monitors == config.rooms.monitors@
            &&& view.reconnect_window == config.reconnect_window
            &&& view.playing_reconnect_window == config.playing_reconnect_window
            &&& view.auth_timeout == config.auth_timeout
            &&& view.http_timeout == config.http_timeout
            &&& view.maintenance_grace == config.maintenance_grace
            &&& view.config_poll_interval == config.config_poll_interval
            &&& view.http_port == config.http_port
            &&& view.proxy_protocol == config.proxy_protocol
            &&& view.memory_guard_bytes == config.memory_guard_bytes
            &&& view.per_conn_mem_bytes == config.per_conn_mem_bytes
            &&& view.max_authed_connections == config.max_authed_connections
            &&& view.maintenance_notice == config.maintenance_notice@
            &&& view.persist_dir == config.persist_dir@
            &&& match config.welcome_message {
                Some(text) => view.welcome_message == Some(text@),
                None => view.welcome_message is None,
            }
            &&& match config.admin_token {
                Some(text) => view.admin_token == Some(text@),
                None => view.admin_token is None,
            }
            &&& view.hidden_room_prefixes.len() == config.hidden_room_prefixes@.len()
            &&& forall|i: int|
                0 <= i < view.hidden_room_prefixes.len() ==> (
                #[trigger] view.hidden_room_prefixes[i]) == config.hidden_room_prefixes@[i]@
        }),
{
}

/// A file says nothing if and only if it says nothing of each thing.
pub proof fn empty_files_say_nothing(file: YamlConfig)
    ensures
        file.says_nothing() <==> file == (YamlConfig {
            listen: None,
            api_base: None,
            monitors: None,
            reconnect_window: None,
            playing_reconnect_window: None,
            auth_timeout: None,
            http_timeout: None,
            maintenance_grace: None,
            config_poll_interval: None,
            maintenance_notice: None,
            welcome_message: None,
            hidden_room_prefixes: None,
            http_port: None,
            proxy_protocol: None,
            admin_token: None,
            persist_dir: None,
            memory_guard_mb: None,
            per_conn_mem_mb: None,
            max_authed_connections: None,
        }),
{
}

} // verus!
