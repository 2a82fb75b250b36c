//! The server's settings, read from the environment's variables.
//!
//! No signing keys, API keys or passwords are defaulted here.

use crate::find::{first_where, lemma_first_is, lemma_first_none};

use crate::metrics::DEFAULT_GAME_LABEL_LIMIT;
use crate::public_ip::{advertise_host_needs_public, loopback_host};
use crate::text::{
    blank, cat3, cut_last, listed, lowered, opt_view, parse, parsed, pieces, rsplit_once, same,
    split, stripped, strip_prefix, trim, trim_lower, trimmed, views,
};
use crate::ws_lobby::input::octet;
use vstd::prelude::*;
use vstd::string::*;

verus! {

/// Local database where none is named.
pub const DEFAULT_DATABASE_URL: &'static str = "sqlite:recomp-net-server.db?mode=rwc";

/// The protocol magic `RNET`.
pub const DEFAULT_PROTOCOL_MAGIC: u32 = 0x524E_4554;

/// One variable of the environment.
pub struct Var {
    pub name: String,
    pub value: String,
}

/// The environment's variables.
pub struct Env {
    pub vars: Vec<Var>,
}

impl View for Env {
    type V = Seq<(Seq<char>, Seq<char>)>;

    open spec fn view(&self) -> Seq<(Seq<char>, Seq<char>)> {
        self.vars@.map_values(|v: Var| (v.name@, v.value@))
    }
}

/// The value of the variable `name`.
pub open spec fn var(e: Seq<(Seq<char>, Seq<char>)>, name: Seq<char>) -> Option<Seq<char>> {
    match first_where(e, |v: (Seq<char>, Seq<char>)| v.0 == name) {
        Some(i) => Some(e[i].1),
        None => None,
    }
}

/// A value that is not empty.
pub open spec fn filled(v: Option<Seq<char>>) -> Option<Seq<char>> {
    match v {
        Some(s) => if s.len() > 0 {
            Some(s)
        } else {
            None
        },
        None => None,
    }
}

/// A value that is not blank.
pub open spec fn said(v: Option<Seq<char>>) -> Option<Seq<char>> {
    match v {
        Some(s) => if trimmed(s).len() > 0 {
            Some(s)
        } else {
            None
        },
        None => None,
    }
}

pub open spec fn or_text(v: Option<Seq<char>>, default: Seq<char>) -> Seq<char> {
    match v {
        Some(s) => s,
        None => default,
    }
}

/// Whether a value means yes.
pub open spec fn truthy(s: Seq<char>) -> bool {
    let t = lowered(trimmed(s));
    t == "1"@ || t == "true"@ || t == "yes"@ || t == "on"@
}

/// A switch, as it stands where nothing is said of it.
pub open spec fn switch(v: Option<Seq<char>>, default: bool) -> bool {
    match said(v) {
        Some(s) => truthy(s),
        None => default,
    }
}

/// A number up to `max`; an error where the value is no such number.
pub open spec fn small(e: Seq<(Seq<char>, Seq<char>)>, name: Seq<char>, max: int, default: int) -> Option<
    int,
> {
    match filled(var(e, name)) {
        Some(s) => parsed(s, 10, max),
        None => Some(default),
    }
}

/// A number of 64 bits; the default where the value is none.
pub open spec fn whole(e: Seq<(Seq<char>, Seq<char>)>, name: Seq<char>, default: int) -> int {
    match var(e, name) {
        Some(s) => match parsed(s, 10, u64::MAX as int) {
            Some(n) => n,
            None => default,
        },
        None => default,
    }
}

/// A number of 32 bits in decimal, or in hexadecimal behind `0x`.
pub open spec fn magic_of(s: Seq<char>) -> Option<int> {
    let t = trimmed(s);
    match stripped(t, "0x"@) {
        Some(h) => parsed(h, 16, u32::MAX as int),
        None => match stripped(t, "0X"@) {
            Some(h) => parsed(h, 16, u32::MAX as int),
            None => parsed(t, 10, u32::MAX as int),
        },
    }
}

pub open spec fn magic(e: Seq<(Seq<char>, Seq<char>)>) -> Option<int> {
    match filled(var(e, "LOBBY_PROTOCOL_MAGIC"@)) {
        Some(s) => magic_of(s),
        None => Some(DEFAULT_PROTOCOL_MAGIC as int),
    }
}

/// The trimmed items that are not blank.
pub open spec fn items(parts: Seq<Seq<char>>) -> Seq<Seq<char>>
    decreases parts.len(),
{
    if parts.len() == 0 {
        Seq::empty()
    } else if trimmed(parts.last()).len() > 0 {
        items(parts.drop_last()).push(trimmed(parts.last()))
    } else {
        items(parts.drop_last())
    }
}

pub open spec fn game_list(e: Seq<(Seq<char>, Seq<char>)>) -> Seq<Seq<char>> {
    match said(var(e, "LOBBY_GAME_ALLOWLIST"@)) {
        Some(s) => items(pieces(s, ',')),
        None => Seq::empty(),
    }
}

/// The numbers among the items.
pub open spec fn numbers(parts: Seq<Seq<char>>) -> Seq<u64>
    decreases parts.len(),
{
    if parts.len() == 0 {
        Seq::empty()
    } else {
        match parsed(trimmed(parts.last()), 10, u64::MAX as int) {
            Some(n) => numbers(parts.drop_last()).push(n as u64),
            None => numbers(parts.drop_last()),
        }
    }
}

/// The ladder of cooldowns: one minute flat where nothing is said of it.
pub open spec fn dodge_ladder(e: Seq<(Seq<char>, Seq<char>)>) -> Seq<u64> {
    match var(e, "AUTOMATCH_DODGE_COOLDOWNS"@) {
        Some(s) => numbers(pieces(s, ',')),
        None => seq![60u64],
    }
}

pub open spec fn label_limit(e: Seq<(Seq<char>, Seq<char>)>) -> int {
    let n = whole(e, "METRICS_GAME_LABEL_LIMIT"@, DEFAULT_GAME_LABEL_LIMIT as int);
    if n < 1 {
        1
    } else if n > 1024 {
        1024
    } else {
        n
    }
}

pub open spec fn relay_bind(e: Seq<(Seq<char>, Seq<char>)>) -> Seq<char> {
    or_text(var(e, "INPUT_RELAY_BIND"@), "0.0.0.0:8777"@)
}

/// The port that the relay binds, by its text.
pub open spec fn bind_port(e: Seq<(Seq<char>, Seq<char>)>) -> int {
    match cut_last(relay_bind(e), ':') {
        Some((_, p)) => match parsed(p, 10, 65535) {
            Some(n) => n,
            None => 8777,
        },
        None => 8777,
    }
}

/// The first of the three variables that names a host.
pub open spec fn advertise_host(e: Seq<(Seq<char>, Seq<char>)>) -> Seq<char> {
    match said(var(e, "INPUT_RELAY_ADVERTISE_HOST"@)) {
        Some(s) => s,
        None => match said(var(e, "PUBLIC_HOST"@)) {
            Some(s) => s,
            None => or_text(said(var(e, "LOBBY_PUBLIC_HOST"@)), Seq::empty()),
        },
    }
}

pub struct Config {
    pub bind_addr: String,
    pub database_url: Option<String>,
    /// Whether JWT signing must be configured.
    pub require_auth: bool,
    pub jwt_secret_current: Option<String>,
    pub jwt_secret_previous: Option<String>,
    pub default_input_delay: u8,
    pub default_slot_count: u8,
    pub room_idle_secs: u64,
    pub heartbeat_timeout_secs: u64,
    pub protocol_magic: u32,
    /// Empty: any game id that is not empty. Otherwise those listed.
    pub game_allowlist: Vec<String>,
    /// Ceiling on distinct `game` label values when no allowlist is set.
    pub metrics_game_label_limit: usize,
    pub input_relay_enabled: bool,
    pub input_relay_bind: String,
    /// Host string written into launch endpoints.
    pub input_relay_advertise_host: String,
    pub input_relay_advertise_port: u16,
    /// Private host for lobbies whose members are all on the LAN.
    pub input_relay_lan_host: String,
    /// Peers that appear as this address come through the NAT hairpin.
    pub input_relay_lan_gateway: String,
    pub input_relay_allow_loopback: bool,
    pub geoip_db_path: Option<String>,
    /// Trust `X-Forwarded-For` for the client's address.
    pub trust_proxy_header: bool,
    pub discord_client_id: Option<String>,
    pub discord_client_secret: Option<String>,
    pub discord_redirect_url: Option<String>,
    /// Whether it takes an account to chat, to host and to sit down.
    pub discord_required: bool,
    /// When set, a login must be a member of this guild.
    pub discord_guild_id: Option<String>,
    /// What a client without an account may do.
    pub guest_can_chat: bool,
    pub guest_can_host: bool,
    pub chat_filter_enabled: bool,
    pub chat_filter_extra_path: Option<String>,
    /// Where a filed report is also written as a file. Empty: nowhere.
    pub chat_report_dump_dir: String,
    pub automatch_rulesets_path: String,
    /// Live tickets before the queue is full.
    pub automatch_queue_max: u64,
    pub automatch_accept_secs: u64,
    pub automatch_start_delay_secs: u64,
    pub automatch_rematch_cooldown_secs: u64,
    /// Seconds of cooldown by strikes in a day.
    pub automatch_dodge_cooldowns: Vec<u64>,
    pub automatch_retention_days: u64,
}

#[verifier::ext_equal]
pub ghost struct ConfigView {
    pub bind_addr: Seq<char>,
    pub database_url: Option<Seq<char>>,
    pub require_auth: bool,
    pub jwt_secret_current: Option<Seq<char>>,
    pub jwt_secret_previous: Option<Seq<char>>,
    pub default_input_delay: u8,
    pub default_slot_count: u8,
    pub room_idle_secs: u64,
    pub heartbeat_timeout_secs: u64,
    pub protocol_magic: u32,
    pub game_allowlist: Seq<Seq<char>>,
    pub metrics_game_label_limit: usize,
    pub input_relay_enabled: bool,
    pub input_relay_bind: Seq<char>,
    pub input_relay_advertise_host: Seq<char>,
    pub input_relay_advertise_port: u16,
    pub input_relay_lan_host: Seq<char>,
    pub input_relay_lan_gateway: Seq<char>,
    pub input_relay_allow_loopback: bool,
    pub geoip_db_path: Option<Seq<char>>,
    pub trust_proxy_header: bool,
    pub discord_client_id: Option<Seq<char>>,
    pub discord_client_secret: Option<Seq<char>>,
    pub discord_redirect_url: Option<Seq<char>>,
    pub discord_required: bool,
    pub discord_guild_id: Option<Seq<char>>,
    pub guest_can_chat: bool,
    pub guest_can_host: bool,
    pub chat_filter_enabled: bool,
    pub chat_filter_extra_path: Option<Seq<char>>,
    pub chat_report_dump_dir: Seq<char>,
    pub automatch_rulesets_path: Seq<char>,
    pub automatch_queue_max: u64,
    pub automatch_accept_secs: u64,
    pub automatch_start_delay_secs: u64,
    pub automatch_rematch_cooldown_secs: u64,
    pub automatch_dodge_cooldowns: Seq<u64>,
    pub automatch_retention_days: u64,
}

impl View for Config {
    type V = ConfigView;

    open spec fn view(&self) -> ConfigView {
        ConfigView {
            bind_addr: self.bind_addr@,
            database_url: opt_view(self.database_url),
            require_auth: self.require_auth,
            jwt_secret_current: opt_view(self.jwt_secret_current),
            jwt_secret_previous: opt_view(self.jwt_secret_previous),
            default_input_delay: self.default_input_delay,
            default_slot_count: self.default_slot_count,
            room_idle_secs: self.room_idle_secs,
            heartbeat_timeout_secs: self.heartbeat_timeout_secs,
            protocol_magic: self.protocol_magic,
            game_allowlist: views(self.game_allowlist@),
            metrics_game_label_limit: self.metrics_game_label_limit,
            input_relay_enabled: self.input_relay_enabled,
            input_relay_bind: self.input_relay_bind@,
            input_relay_advertise_host: self.input_relay_advertise_host@,
            input_relay_advertise_port: self.input_relay_advertise_port,
            input_relay_lan_host: self.input_relay_lan_host@,
            input_relay_lan_gateway: self.input_relay_lan_gateway@,
            input_relay_allow_loopback: self.input_relay_allow_loopback,
            geoip_db_path: opt_view(self.geoip_db_path),
            trust_proxy_header: self.trust_proxy_header,
            discord_client_id: opt_view(self.discord_client_id),
            discord_client_secret: opt_view(self.discord_client_secret),
            discord_redirect_url: opt_view(self.discord_redirect_url),
            discord_required: self.discord_required,
            discord_guild_id: opt_view(self.discord_guild_id),
            guest_can_chat: self.guest_can_chat,
            guest_can_host: self.guest_can_host,
            chat_filter_enabled: self.chat_filter_enabled,
            chat_filter_extra_path: opt_view(self.chat_filter_extra_path),
            chat_report_dump_dir: self.chat_report_dump_dir@,
            automatch_rulesets_path: self.automatch_rulesets_path@,
            automatch_queue_max: self.automatch_queue_max,
            automatch_accept_secs: self.automatch_accept_secs,
            automatch_start_delay_secs: self.automatch_start_delay_secs,
            automatch_rematch_cooldown_secs: self.automatch_rematch_cooldown_secs,
            automatch_dodge_cooldowns: self.automatch_dodge_cooldowns@,
            automatch_retention_days: self.automatch_retention_days,
        }
    }
}

/// Every setting of an environment without an error.
pub open spec fn settings(e: Seq<(Seq<char>, Seq<char>)>) -> ConfigView {
    ConfigView {
        bind_addr: or_text(var(e, "BIND_ADDR"@), "0.0.0.0:8765"@),
        database_url: filled(var(e, "DATABASE_URL"@)),
        require_auth: switch(var(e, "REQUIRE_AUTH"@), false),
        jwt_secret_current: filled(var(e, "JWT_SECRET_CURRENT"@)),
        jwt_secret_previous: filled(var(e, "JWT_SECRET_PREVIOUS"@)),
        default_input_delay: small(e, "LOBBY_DEFAULT_INPUT_DELAY"@, 255, 2)->0 as u8,
        default_slot_count: small(e, "LOBBY_DEFAULT_SLOT_COUNT"@, 255, 2)->0 as u8,
        room_idle_secs: whole(e, "LOBBY_ROOM_IDLE_SECS"@, 600) as u64,
        heartbeat_timeout_secs: whole(e, "LOBBY_HEARTBEAT_TIMEOUT_SECS"@, 30) as u64,
        protocol_magic: magic(e)->0 as u32,
        game_allowlist: game_list(e),
        metrics_game_label_limit: label_limit(e) as usize,
        input_relay_enabled: switch(var(e, "INPUT_RELAY_ENABLED"@), true),
        input_relay_bind: relay_bind(e),
        input_relay_advertise_host: advertise_host(e),
        input_relay_advertise_port: small(e, "INPUT_RELAY_ADVERTISE_PORT"@, 65535, bind_port(e))->0 as u16,
        input_relay_lan_host: or_text(said(var(e, "INPUT_RELAY_LAN_HOST"@)), Seq::empty()),
        input_relay_lan_gateway: or_text(said(var(e, "INPUT_RELAY_LAN_GATEWAY"@)), Seq::empty()),
        input_relay_allow_loopback: switch(var(e, "INPUT_RELAY_ALLOW_LOOPBACK"@), false),
        geoip_db_path: filled(var(e, "GEOIP_DB_PATH"@)),
        trust_proxy_header: switch(var(e, "TRUST_PROXY_HEADER"@), false),
        discord_client_id: said(var(e, "DISCORD_CLIENT_ID"@)),
        discord_client_secret: said(var(e, "DISCORD_CLIENT_SECRET"@)),
        discord_redirect_url: said(var(e, "DISCORD_REDIRECT_URL"@)),
        discord_required: switch(var(e, "DISCORD_REQUIRED"@), false),
        discord_guild_id: said(var(e, "DISCORD_GUILD_ID"@)),
        guest_can_chat: switch(var(e, "GUEST_CAN_CHAT"@), true),
        guest_can_host: switch(var(e, "GUEST_CAN_HOST"@), true),
        chat_filter_enabled: switch(var(e, "CHAT_FILTER"@), true),
        chat_filter_extra_path: filled(var(e, "CHAT_FILTER_EXTRA_PATH"@)),
        chat_report_dump_dir: or_text(var(e, "CHAT_REPORT_DUMP_DIR"@), "data/reports"@),
        automatch_rulesets_path: or_text(var(e, "AUTOMATCH_RULESETS_PATH"@), "data/automatch_rulesets.toml"@),
        automatch_queue_max: whole(e, "AUTOMATCH_QUEUE_MAX"@, 256) as u64,
        automatch_accept_secs: whole(e, "AUTOMATCH_ACCEPT_SECS"@, 15) as u64,
        automatch_start_delay_secs: whole(e, "AUTOMATCH_START_DELAY_SECS"@, 3) as u64,
        automatch_rematch_cooldown_secs: whole(e, "AUTOMATCH_REMATCH_COOLDOWN_SECS"@, 300) as u64,
        automatch_dodge_cooldowns: dodge_ladder(e),
        automatch_retention_days: whole(e, "AUTOMATCH_RETENTION_DAYS"@, 30) as u64,
    }
}

/// The first error of an environment, if any.
pub open spec fn config_error(e: Seq<(Seq<char>, Seq<char>)>) -> Option<Seq<char>> {
    if switch(var(e, "REQUIRE_AUTH"@), false) && filled(var(e, "JWT_SECRET_CURRENT"@)) is None {
        Some(
            "REQUIRE_AUTH is set but JWT_SECRET_CURRENT is missing. Set JWT_SECRET_CURRENT via environment or secrets manager (see docs/SECURITY.md)."@,
        )
    } else if small(e, "LOBBY_DEFAULT_INPUT_DELAY"@, 255, 2) is None {
        Some("LOBBY_DEFAULT_INPUT_DELAY must be a u8"@)
    } else if small(e, "LOBBY_DEFAULT_SLOT_COUNT"@, 255, 2) is None {
        Some("LOBBY_DEFAULT_SLOT_COUNT must be a u8"@)
    } else if !(2 <= small(e, "LOBBY_DEFAULT_SLOT_COUNT"@, 255, 2)->0 <= 8) {
        Some("LOBBY_DEFAULT_SLOT_COUNT must be between 2 and 8"@)
    } else if magic(e) is None {
        Some("LOBBY_PROTOCOL_MAGIC must be a u32 (hex or decimal)"@)
    } else if small(e, "INPUT_RELAY_ADVERTISE_PORT"@, 65535, bind_port(e)) is None {
        Some("INPUT_RELAY_ADVERTISE_PORT must be a u16"@)
    } else {
        None
    }
}

pub fn parse_bool_env(raw: &str) -> (r: bool)
    ensures
        r == truthy(raw@),
{
    let t = trim_lower(raw);
    same(t.as_str(), "1") || same(t.as_str(), "true") || same(t.as_str(), "yes") || same(
        t.as_str(),
        "on",
    )
}

impl Env {
    pub fn get<'a>(&'a self, name: &str) -> (r: Option<&'a String>)
        ensures
            match (r, var(self@, name@)) {
                (Some(a), Some(b)) => a@ == b,
                (None, None) => true,
                _ => false,
            },
    {
        let ghost all = self@;
        let ghost p = |v: (Seq<char>, Seq<char>)| v.0 == name@;
        let mut i: usize = 0;
        while i < self.vars.len()
            invariant
                i <= self.vars@.len(),
                all == self@,
                p == (|v: (Seq<char>, Seq<char>)| v.0 == name@),
                forall|k: int| 0 <= k < i ==> !p(#[trigger] all[k]),
            decreases self.vars@.len() - i,
        {
            proof {
                assert(all[i as int].0 == self.vars@[i as int].name@);
            }
            if same(self.vars[i].name.as_str(), name) {
                proof {
                    lemma_first_is(all, p, i as int);
                }
                return Some(&self.vars[i].value);
            }
            i = i + 1;
        }
        proof {
            lemma_first_none(all, p);
        }
        None
    }

    pub fn filled(&self, name: &str) -> (r: Option<String>)
        ensures
            opt_view(r) == filled(var(self@, name@)),
    {
        match self.get(name) {
            Some(s) => if s.as_str().is_empty() {
                None
            } else {
                Some(s.clone())
            },
            None => None,
        }
    }

    pub fn said(&self, name: &str) -> (r: Option<String>)
        ensures
            opt_view(r) == said(var(self@, name@)),
    {
        match self.get(name) {
            Some(s) => if blank(s.as_str()) {
                None
            } else {
                Some(s.clone())
            },
            None => None,
        }
    }

    fn said_or_empty(&self, name: &str) -> (r: String)
        ensures
            r@ == or_text(said(var(self@, name@)), Seq::empty()),
    {
        match self.said(name) {
            Some(s) => s,
            None => String::new(),
        }
    }

    fn text_or(&self, name: &str, default: &str) -> (r: String)
        ensures
            r@ == or_text(var(self@, name@), default@),
    {
        match self.get(name) {
            Some(s) => s.clone(),
            None => default.to_owned(),
        }
    }

    fn switch(&self, name: &str, default: bool) -> (r: bool)
        ensures
            r == switch(var(self@, name@), default),
    {
        match self.said(name) {
            Some(s) => parse_bool_env(s.as_str()),
            None => default,
        }
    }

    fn small(&self, name: &str, max: u64, default: u64) -> (r: Option<u64>)
        requires
            default <= max,
        ensures
            match (r, small(self@, name@, max as int, default as int)) {
                (Some(a), Some(b)) => a == b && a <= max,
                (None, None) => true,
                _ => false,
            },
    {
        match self.filled(name) {
            Some(s) => parse(s.as_str(), 10, max),
            None => Some(default),
        }
    }

    pub fn whole(&self, name: &str, default: u64) -> (r: u64)
        ensures
            r == whole(self@, name@, default as int),
    {
        match self.get(name) {
            Some(s) => match parse(s.as_str(), 10, 0xffff_ffff_ffff_ffff) {
                Some(n) => n,
                None => default,
            },
            None => default,
        }
    }

    fn magic(&self) -> (r: Option<u64>)
        ensures
            match (r, magic(self@)) {
                (Some(a), Some(b)) => a == b && a <= u32::MAX,
                (None, None) => true,
                _ => false,
            },
    {
        match self.filled("LOBBY_PROTOCOL_MAGIC") {
            Some(s) => {
                let t = trim(s.as_str());
                match strip_prefix(t.as_str(), "0x") {
                    Some(h) => parse(h.as_str(), 16, 0xffff_ffff),
                    None => match strip_prefix(t.as_str(), "0X") {
                        Some(h) => parse(h.as_str(), 16, 0xffff_ffff),
                        None => parse(t.as_str(), 10, 0xffff_ffff),
                    },
                }
            },
            None => Some(DEFAULT_PROTOCOL_MAGIC as u64),
        }
    }

    fn game_list(&self) -> (r: Vec<String>)
        ensures
            views(r@) == game_list(self@),
    {
        let mut out: Vec<String> = Vec::new();
        proof {
            assert(views(out@) =~= Seq::<Seq<char>>::empty());
        }
        let s = match self.said("LOBBY_GAME_ALLOWLIST") {
            Some(s) => s,
            None => {
                return out;
            },
        };
        let parts = split(s.as_str(), ',');
        let ghost all = views(parts@);
        let mut i: usize = 0;
        proof {
            assert(all.take(0) =~= Seq::<Seq<char>>::empty());
        }
        while i < parts.len()
            invariant
                i <= parts@.len(),
                all == views(parts@),
                views(out@) == items(all.take(i as int)),
            decreases parts@.len() - i,
        {
            proof {
                let t = all.take(i + 1);
                assert(t.drop_last() =~= all.take(i as int));
                assert(t.last() == parts@[i as int]@);
            }
            let item = trim(parts[i].as_str());
            if !item.as_str().is_empty() {
                let ghost before = out@;
                out.push(item);
                proof {
                    assert(views(out@) =~= views(before).push(item@));
                }
            }
            i = i + 1;
        }
        proof {
            assert(all.take(parts@.len() as int) =~= all);
        }
        out
    }

    fn dodge_ladder(&self) -> (r: Vec<u64>)
        ensures
            r@ == dodge_ladder(self@),
    {
        let mut out: Vec<u64> = Vec::new();
        let s = match self.get("AUTOMATCH_DODGE_COOLDOWNS") {
            Some(s) => s,
            None => {
                out.push(60);
                proof {
                    assert(out@ =~= seq![60u64]);
                }
                return out;
            },
        };
        let parts = split(s.as_str(), ',');
        let ghost all = views(parts@);
        let mut i: usize = 0;
        proof {
            assert(all.take(0) =~= Seq::<Seq<char>>::empty());
        }
        while i < parts.len()
            invariant
                i <= parts@.len(),
                all == views(parts@),
                out@ == numbers(all.take(i as int)),
            decreases parts@.len() - i,
        {
            proof {
                let t = all.take(i + 1);
                assert(t.drop_last() =~= all.take(i as int));
                assert(t.last() == parts@[i as int]@);
            }
            let item = trim(parts[i].as_str());
            if let Some(n) = parse(item.as_str(), 10, 0xffff_ffff_ffff_ffff) {
                out.push(n);
            }
            i = i + 1;
        }
        proof {
            assert(all.take(parts@.len() as int) =~= all);
        }
        out
    }

    fn label_limit(&self) -> (r: usize)
        ensures
            r == label_limit(self@),
    {
        let n: u64 = self.whole("METRICS_GAME_LABEL_LIMIT", DEFAULT_GAME_LABEL_LIMIT as u64);
        if n < 1 {
            1
        } else if n > 1024 {
            1024
        } else {
            n as usize
        }
    }

    fn bind_port(&self) -> (r: u64)
        ensures
            r == bind_port(self@),
            r <= 65535,
    {
        let bind = self.text_or("INPUT_RELAY_BIND", "0.0.0.0:8777");
        match rsplit_once(bind.as_str(), ':') {
            Some((_, p)) => match parse(p.as_str(), 10, 65535) {
                Some(n) => n,
                None => 8777,
            },
            None => 8777,
        }
    }

    fn advertise_host(&self) -> (r: String)
        ensures
            r@ == advertise_host(self@),
    {
        match self.said("INPUT_RELAY_ADVERTISE_HOST") {
            Some(s) => s,
            None => match self.said("PUBLIC_HOST") {
                Some(s) => s,
                None => self.said_or_empty("LOBBY_PUBLIC_HOST"),
            },
        }
    }
}

/// `<a.b.c>.1` for an IPv4 host.
pub open spec fn guessed_gateway(host: Seq<char>) -> Option<Seq<char>> {
    let p = pieces(host, '.');
    if p.len() == 4 && octet(p[0]) is Some && octet(p[1]) is Some && octet(p[2]) is Some && octet(
        p[3],
    ) is Some {
        Some(p[0] + "."@ + p[1] + "."@ + p[2] + ".1"@)
    } else {
        None
    }
}

fn is_octet(s: &str) -> (r: bool)
    ensures
        r == (octet(s@) is Some),
{
    parse(s, 10, 255).is_some()
}

/// Guesses `<a.b.c>.1` from an IPv4 LAN host (common home-router convention).
pub fn guess_lan_gateway_from_host(lan_host: &str) -> (r: Option<String>)
    ensures
        opt_view(r) == guessed_gateway(lan_host@),
{
    let p = split(lan_host, '.');
    proof {
        assert(views(p@).len() == p@.len());
    }
    if p.len() != 4 {
        return None;
    }
    proof {
        assert(views(p@)[0] == p@[0]@);
        assert(views(p@)[1] == p@[1]@);
        assert(views(p@)[2] == p@[2]@);
        assert(views(p@)[3] == p@[3]@);
    }
    if is_octet(p[0].as_str()) && is_octet(p[1].as_str()) && is_octet(p[2].as_str()) && is_octet(
        p[3].as_str(),
    ) {
        let mut out = cat3(p[0].as_str(), ".", p[1].as_str());
        out.append(".");
        out.append(p[2].as_str());
        out.append(".1");
        Some(out)
    } else {
        None
    }
}

impl ConfigView {
    /// The address that hairpinned peers appear as.
    pub open spec fn gateway(self) -> Option<Seq<char>> {
        if trimmed(self.input_relay_lan_gateway).len() > 0 {
            Some(trimmed(self.input_relay_lan_gateway))
        } else {
            guessed_gateway(trimmed(self.input_relay_lan_host))
        }
    }

    /// Whether the relay's host has to be asked of the network.
    pub open spec fn needs_discovery(self) -> bool {
        self.input_relay_enabled && loopback_host(self.input_relay_advertise_host)
            && !self.input_relay_allow_loopback
    }

    /// The settings with a relay host in any case that needs no discovery.
    pub open spec fn relay_settled(self) -> ConfigView {
        if self.input_relay_advertise_host.len() == 0 && !self.needs_discovery() {
            ConfigView { input_relay_advertise_host: "127.0.0.1"@, ..self }
        } else {
            self
        }
    }

    /// Whether a title may be hosted.
    pub open spec fn allows(self, game: Seq<char>) -> bool {
        if self.game_allowlist.len() == 0 {
            game.len() > 0
        } else {
            self.game_allowlist.contains(game)
        }
    }
}

impl Config {
    /// The settings of an environment, or its first error.
    pub fn from_env(env: &Env) -> (r: Result<Config, String>)
        ensures
            match (r, config_error(env@)) {
                (Ok(c), None) => c@ == settings(env@),
                (Err(a), Some(b)) => a@ == b,
                _ => false,
            },
    {
        let require_auth = env.switch("REQUIRE_AUTH", false);
        let jwt_secret_current = env.filled("JWT_SECRET_CURRENT");
        if require_auth && jwt_secret_current.is_none() {
            return Err(
                "REQUIRE_AUTH is set but JWT_SECRET_CURRENT is missing. Set JWT_SECRET_CURRENT via environment or secrets manager (see docs/SECURITY.md).".to_owned(),
            );
        }
        let input_delay: u64 = match env.small("LOBBY_DEFAULT_INPUT_DELAY", 255, 2) {
            Some(n) => n,
            None => {
                return Err("LOBBY_DEFAULT_INPUT_DELAY must be a u8".to_owned());
            },
        };
        let slot_count: u64 = match env.small("LOBBY_DEFAULT_SLOT_COUNT", 255, 2) {
            Some(n) => n,
            None => {
                return Err("LOBBY_DEFAULT_SLOT_COUNT must be a u8".to_owned());
            },
        };
        if slot_count < 2 || slot_count > 8 {
            return Err("LOBBY_DEFAULT_SLOT_COUNT must be between 2 and 8".to_owned());
        }
        let protocol_magic: u64 = match env.magic() {
            Some(n) => n,
            None => {
                return Err("LOBBY_PROTOCOL_MAGIC must be a u32 (hex or decimal)".to_owned());
            },
        };
        let advertise_port: u64 = match env.small(
            "INPUT_RELAY_ADVERTISE_PORT",
            65535,
            env.bind_port(),
        ) {
            Some(n) => n,
            None => {
                return Err("INPUT_RELAY_ADVERTISE_PORT must be a u16".to_owned());
            },
        };
        let c = Config {
            bind_addr: env.text_or("BIND_ADDR", "0.0.0.0:8765"),
            database_url: env.filled("DATABASE_URL"),
            require_auth,
            jwt_secret_current,
            jwt_secret_previous: env.filled("JWT_SECRET_PREVIOUS"),
            default_input_delay: input_delay as u8,
            default_slot_count: slot_count as u8,
            room_idle_secs: env.whole("LOBBY_ROOM_IDLE_SECS", 600),
            heartbeat_timeout_secs: env.whole("LOBBY_HEARTBEAT_TIMEOUT_SECS", 30),
            protocol_magic: protocol_magic as u32,
            game_allowlist: env.game_list(),
            metrics_game_label_limit: env.label_limit(),
            input_relay_enabled: env.switch("INPUT_RELAY_ENABLED", true),
            input_relay_bind: env.text_or("INPUT_RELAY_BIND", "0.0.0.0:8777"),
            input_relay_advertise_host: env.advertise_host(),
            input_relay_advertise_port: advertise_port as u16,
            input_relay_lan_host: env.said_or_empty("INPUT_RELAY_LAN_HOST"),
            input_relay_lan_gateway: env.said_or_empty("INPUT_RELAY_LAN_GATEWAY"),
            input_relay_allow_loopback: env.switch("INPUT_RELAY_ALLOW_LOOPBACK", false),
            geoip_db_path: env.filled("GEOIP_DB_PATH"),
            trust_proxy_header: env.switch("TRUST_PROXY_HEADER", false),
            discord_client_id: env.said("DISCORD_CLIENT_ID"),
            discord_client_secret: env.said("DISCORD_CLIENT_SECRET"),
            discord_redirect_url: env.said("DISCORD_REDIRECT_URL"),
            discord_required: env.switch("DISCORD_REQUIRED", false),
            discord_guild_id: env.said("DISCORD_GUILD_ID"),
            guest_can_chat: env.switch("GUEST_CAN_CHAT", true),
            guest_can_host: env.switch("GUEST_CAN_HOST", true),
            chat_filter_enabled: env.switch("CHAT_FILTER", true),
            chat_filter_extra_path: env.filled("CHAT_FILTER_EXTRA_PATH"),
            chat_report_dump_dir: env.text_or("CHAT_REPORT_DUMP_DIR", "data/reports"),
            automatch_rulesets_path: env.text_or("AUTOMATCH_RULESETS_PATH", "data/automatch_rulesets.toml"),
            automatch_queue_max: env.whole("AUTOMATCH_QUEUE_MAX", 256),
            automatch_accept_secs: env.whole("AUTOMATCH_ACCEPT_SECS", 15),
            automatch_start_delay_secs: env.whole("AUTOMATCH_START_DELAY_SECS", 3),
            automatch_rematch_cooldown_secs: env.whole("AUTOMATCH_REMATCH_COOLDOWN_SECS", 300),
            automatch_dodge_cooldowns: env.dodge_ladder(),
            automatch_retention_days: env.whole("AUTOMATCH_RETENTION_DAYS", 30),
        };
        proof {
            assert(c@ =~= settings(env@));
        }
        Ok(c)
    }

    /// The variables that a Discord login still needs, where some of it is
    /// configured.
    pub fn discord_missing(&self) -> (r: Vec<String>)
        ensures
            views(r@) == missing_for_discord(self@),
    {
        let mut out: Vec<String> = Vec::new();
        proof {
            assert(views(out@) =~= Seq::<Seq<char>>::empty());
        }
        if self.discord_client_id.is_none() && self.discord_client_secret.is_none()
            && self.discord_redirect_url.is_none() {
            return out;
        }
        note_missing(&mut out, &self.discord_client_id, "DISCORD_CLIENT_ID");
        note_missing(&mut out, &self.discord_client_secret, "DISCORD_CLIENT_SECRET");
        note_missing(&mut out, &self.discord_redirect_url, "DISCORD_REDIRECT_URL");
        note_missing(&mut out, &self.jwt_secret_current, "JWT_SECRET_CURRENT");
        proof {
            assert(views(out@) =~= missing_for_discord(self@));
        }
        out
    }

    /// Hairpin / gateway address used to reject false "all peers local" picks.
    pub fn effective_input_relay_lan_gateway(&self) -> (r: Option<String>)
        ensures
            opt_view(r) == self@.gateway(),
    {
        let explicit = trim(self.input_relay_lan_gateway.as_str());
        if !explicit.as_str().is_empty() {
            return Some(explicit);
        }
        let host = trim(self.input_relay_lan_host.as_str());
        guess_lan_gateway_from_host(host.as_str())
    }

    /// Settles the relay's host where that needs no network, and tells whether
    /// it has to be discovered.
    pub fn resolve_input_relay_advertise(&mut self) -> (r: bool)
        ensures
            r == old(self)@.needs_discovery(),
            final(self)@ == old(self)@.relay_settled(),
    {
        if !self.input_relay_enabled {
            if self.input_relay_advertise_host.as_str().is_empty() {
                self.input_relay_advertise_host = "127.0.0.1".to_owned();
            }
            return false;
        }
        if !advertise_host_needs_public(self.input_relay_advertise_host.as_str()) {
            proof {
                crate::public_ip::lemma_empty_is_loopback(self@.input_relay_advertise_host);
            }
            return false;
        }
        if self.input_relay_allow_loopback {
            if self.input_relay_advertise_host.as_str().is_empty() {
                self.input_relay_advertise_host = "127.0.0.1".to_owned();
            }
            return false;
        }
        true
    }

    /// Takes the discovered address as the relay's host, unless nobody else
    /// could dial it.
    pub fn use_public_host(&mut self, ip: &str) -> (r: bool)
        ensures
            r == !loopback_host(ip@),
            final(self)@ == (if r {
                ConfigView { input_relay_advertise_host: ip@, ..old(self)@ }
            } else {
                old(self)@
            }),
            r ==> !loopback_host(final(self)@.input_relay_advertise_host),
    {
        if advertise_host_needs_public(ip) {
            return false;
        }
        self.input_relay_advertise_host = ip.to_owned();
        true
    }

    pub fn effective_database_url(&self) -> (r: String)
        ensures
            r@ == (match filled(self@.database_url) {
                Some(s) => s,
                None => DEFAULT_DATABASE_URL@,
            }),
    {
        match &self.database_url {
            Some(s) => if s.as_str().is_empty() {
                DEFAULT_DATABASE_URL.to_owned()
            } else {
                s.clone()
            },
            None => DEFAULT_DATABASE_URL.to_owned(),
        }
    }

    /// The keys that a session token may be signed with, the current first.
    pub fn jwt_verification_keys(&self) -> (r: Vec<String>)
        ensures
            views(r@) == verification_keys(self@),
    {
        let mut keys: Vec<String> = Vec::new();
        if let Some(s) = &self.jwt_secret_current {
            keys.push(s.clone());
        }
        if let Some(s) = &self.jwt_secret_previous {
            keys.push(s.clone());
        }
        proof {
            assert(views(keys@) =~= verification_keys(self@));
        }
        keys
    }

    pub fn game_allowed(&self, game_id: &str) -> (r: bool)
        ensures
            r == self@.allows(game_id@),
    {
        if self.game_allowlist.len() == 0 {
            proof {
                assert(self@.game_allowlist.len() == 0);
            }
            return !game_id.is_empty();
        }
        proof {
            assert(self@.game_allowlist.len() > 0);
        }
        listed(&self.game_allowlist, game_id)
    }
}

pub open spec fn verification_keys(c: ConfigView) -> Seq<Seq<char>> {
    (match c.jwt_secret_current {
        Some(s) => seq![s],
        None => Seq::empty(),
    }) + (match c.jwt_secret_previous {
        Some(s) => seq![s],
        None => Seq::empty(),
    })
}

/// `name` where the setting is not there.
pub open spec fn if_missing(v: Option<Seq<char>>, name: Seq<char>) -> Seq<Seq<char>> {
    if v is None {
        seq![name]
    } else {
        Seq::empty()
    }
}

/// What a Discord login still needs: nothing where none of it is configured.
pub open spec fn missing_for_discord(c: ConfigView) -> Seq<Seq<char>> {
    if c.discord_client_id is None && c.discord_client_secret is None && c.discord_redirect_url
        is None {
        Seq::empty()
    } else {
        if_missing(c.discord_client_id, "DISCORD_CLIENT_ID"@) + if_missing(
            c.discord_client_secret,
            "DISCORD_CLIENT_SECRET"@,
        ) + if_missing(c.discord_redirect_url, "DISCORD_REDIRECT_URL"@) + if_missing(
            c.jwt_secret_current,
            "JWT_SECRET_CURRENT"@,
        )
    }
}

fn note_missing(out: &mut Vec<String>, v: &Option<String>, name: &str)
    ensures
        views(final(out)@) == views(old(out)@) + if_missing(opt_view(*v), name@),
{
    let ghost before = out@;
    if v.is_none() {
        out.push(name.to_owned());
    }
    proof {
        assert(views(out@) =~= views(before) + if_missing(opt_view(*v), name@));
    }
}

// -------------------------------------------------------------------- laws

/// An empty environment is no error, requires no sign-in and trusts no proxy
/// header: what is not configured behaves as if it did not exist.
pub proof fn law_nothing_configured(e: Seq<(Seq<char>, Seq<char>)>)
    requires
        e.len() == 0,
    ensures
        config_error(e) is None,
        !settings(e).require_auth,
        !settings(e).discord_required,
        !settings(e).trust_proxy_header,
        settings(e).guest_can_chat,
        settings(e).guest_can_host,
        settings(e).chat_filter_enabled,
        missing_for_discord(settings(e)) == Seq::<Seq<char>>::empty(),
        forall|g: Seq<char>| g.len() > 0 ==> #[trigger] settings(e).allows(g),
{
    assert forall|n: Seq<char>| #[trigger] var(e, n) is None by {}
}

/// Where a sign-in is required there is a key to sign sessions with.
pub proof fn law_required_auth_has_a_key(e: Seq<(Seq<char>, Seq<char>)>)
    requires
        config_error(e) is None,
        settings(e).require_auth,
    ensures
        verification_keys(settings(e)).len() > 0,
        2 <= settings(e).default_slot_count <= 8,
{
}

/// A variable has the value that it is first given, and none where it is given
/// none.
pub proof fn law_the_first_setting_counts(
    e: Seq<(Seq<char>, Seq<char>)>,
    name: &str,
    i: int,
)
    requires
        0 <= i <= e.len(),
        forall|k: int| 0 <= k < i ==> (#[trigger] e[k]).0 != name@,
        i < e.len() ==> e[i].0 == name@,
    ensures
        var(e, name@) == if i < e.len() {
            Some(e[i].1)
        } else {
            None
        },
{
    if i < e.len() {
        lemma_first_is(e, |v: (Seq<char>, Seq<char>)| v.0 == name@, i);
    } else {
        lemma_first_none(e, |v: (Seq<char>, Seq<char>)| v.0 == name@);
    }
}

} // verus!
