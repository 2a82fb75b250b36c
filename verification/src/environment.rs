//! What the environment comes to, setting by setting.

use vstd::prelude::*;
use vstd::string::*;

use crate::config::{
    advertise_host, filled, game_list, items, missing_for_discord, numbers, said, settings, switch,
    truthy, var, whole, ConfigView,
};
use crate::spelling::{
    law_a_written_number_is_read, law_trimming_takes_off_the_ends, lemma_decimal_digits,
};
use crate::text::{decimal, digit_in, is_white, pieces, trimmed};

verus! {

/// Whether the number `v` is what the variable `name` says in decimal, and
/// `default` where nothing is said.
pub open spec fn says_number(
    e: Seq<(Seq<char>, Seq<char>)>,
    name: Seq<char>,
    default: int,
    v: u64,
) -> bool {
    &&& var(e, name) is None ==> v == default
    &&& forall|n: u64| var(e, name) == Some(#[trigger] decimal(n as nat)) ==> v == n
}

proof fn lemma_says_number(e: Seq<(Seq<char>, Seq<char>)>, name: Seq<char>, default: int)
    requires
        0 <= default <= u64::MAX,
    ensures
        says_number(e, name, default, whole(e, name, default) as u64),
{
    assert forall|n: u64| var(e, name) == Some(#[trigger] decimal(n as nat)) implies whole(
        e,
        name,
        default,
    ) as u64 == n by {
        law_a_written_number_is_read(n as nat, u64::MAX as int);
    }
}

/// Each number is read from its own variable, and stands at its own default.
pub proof fn law_numbers_are_read_by_name(e: Seq<(Seq<char>, Seq<char>)>)
    ensures
        ({
            let c = settings(e);
            &&& says_number(e, "LOBBY_ROOM_IDLE_SECS"@, 600, c.room_idle_secs)
            &&& says_number(e, "LOBBY_HEARTBEAT_TIMEOUT_SECS"@, 30, c.heartbeat_timeout_secs)
            &&& says_number(e, "AUTOMATCH_QUEUE_MAX"@, 256, c.automatch_queue_max)
            &&& says_number(e, "AUTOMATCH_ACCEPT_SECS"@, 15, c.automatch_accept_secs)
            &&& says_number(e, "AUTOMATCH_START_DELAY_SECS"@, 3, c.automatch_start_delay_secs)
            &&& says_number(
                e,
                "AUTOMATCH_REMATCH_COOLDOWN_SECS"@,
                300,
                c.automatch_rematch_cooldown_secs,
            )
            &&& says_number(e, "AUTOMATCH_RETENTION_DAYS"@, 30, c.automatch_retention_days)
        }),
{
    lemma_says_number(e, "LOBBY_ROOM_IDLE_SECS"@, 600);
    lemma_says_number(e, "LOBBY_HEARTBEAT_TIMEOUT_SECS"@, 30);
    lemma_says_number(e, "AUTOMATCH_QUEUE_MAX"@, 256);
    lemma_says_number(e, "AUTOMATCH_ACCEPT_SECS"@, 15);
    lemma_says_number(e, "AUTOMATCH_START_DELAY_SECS"@, 3);
    lemma_says_number(e, "AUTOMATCH_REMATCH_COOLDOWN_SECS"@, 300);
    lemma_says_number(e, "AUTOMATCH_RETENTION_DAYS"@, 30);
}

/// Whether the switch `v` is what the variable `name` says, and `default` where
/// nothing is said.
pub open spec fn says_switch(
    e: Seq<(Seq<char>, Seq<char>)>,
    name: Seq<char>,
    default: bool,
    v: bool,
) -> bool {
    &&& var(e, name) is None ==> v == default
    &&& var(e, name) == Some("1"@) ==> v
    &&& var(e, name) == Some("true"@) ==> v
    &&& var(e, name) == Some("yes"@) ==> v
    &&& var(e, name) == Some("on"@) ==> v
    &&& var(e, name) == Some("0"@) ==> !v
    &&& var(e, name) == Some("false"@) ==> !v
    &&& var(e, name) == Some("no"@) ==> !v
    &&& var(e, name) == Some("off"@) ==> !v
}

proof fn lemma_plain(s: Seq<char>)
    requires
        s.len() > 0,
        forall|i: int| 0 <= i < s.len() ==> 'a' <= #[trigger] s[i] <= 'z' || '0' <= s[i] <= '9',
    ensures
        trimmed(s) == s,
        crate::text::lowered(s) == s,
{
    let x = Seq::<char>::empty();
    assert(x + s + x =~= s);
    assert(!is_white(s[0]) && !is_white(s[s.len() - 1]));
    law_trimming_takes_off_the_ends(x, s, x);
    assert(crate::text::lowered(s) =~= s);
}

proof fn lemma_answers()
    ensures
        trimmed("1"@).len() > 0 && truthy("1"@),
        trimmed("true"@).len() > 0 && truthy("true"@),
        trimmed("yes"@).len() > 0 && truthy("yes"@),
        trimmed("on"@).len() > 0 && truthy("on"@),
        trimmed("0"@).len() > 0 && !truthy("0"@),
        trimmed("false"@).len() > 0 && !truthy("false"@),
        trimmed("no"@).len() > 0 && !truthy("no"@),
        trimmed("off"@).len() > 0 && !truthy("off"@),
{
    reveal_strlit("1");
    reveal_strlit("true");
    reveal_strlit("yes");
    reveal_strlit("on");
    reveal_strlit("0");
    reveal_strlit("false");
    reveal_strlit("no");
    reveal_strlit("off");
    lemma_plain("1"@);
    lemma_plain("true"@);
    lemma_plain("yes"@);
    lemma_plain("on"@);
    lemma_plain("0"@);
    lemma_plain("false"@);
    lemma_plain("no"@);
    lemma_plain("off"@);
    assert("0"@[0] != "1"@[0]);
    assert("no"@[0] != "on"@[0]);
    assert("off"@[0] != "yes"@[0]);
}

proof fn lemma_says_switch(e: Seq<(Seq<char>, Seq<char>)>, name: Seq<char>, default: bool)
    ensures
        says_switch(e, name, default, switch(var(e, name), default)),
{
    lemma_answers();
}

/// Each switch is read from its own variable, and stands at its own default.
pub proof fn law_switches_are_read_by_name(e: Seq<(Seq<char>, Seq<char>)>)
    ensures
        ({
            let c = settings(e);
            &&& says_switch(e, "REQUIRE_AUTH"@, false, c.require_auth)
            &&& says_switch(e, "INPUT_RELAY_ENABLED"@, true, c.input_relay_enabled)
            &&& says_switch(e, "INPUT_RELAY_ALLOW_LOOPBACK"@, false, c.input_relay_allow_loopback)
            &&& says_switch(e, "TRUST_PROXY_HEADER"@, false, c.trust_proxy_header)
            &&& says_switch(e, "DISCORD_REQUIRED"@, false, c.discord_required)
            &&& says_switch(e, "GUEST_CAN_CHAT"@, true, c.guest_can_chat)
            &&& says_switch(e, "GUEST_CAN_HOST"@, true, c.guest_can_host)
            &&& says_switch(e, "CHAT_FILTER"@, true, c.chat_filter_enabled)
        }),
{
    lemma_says_switch(e, "REQUIRE_AUTH"@, false);
    lemma_says_switch(e, "INPUT_RELAY_ENABLED"@, true);
    lemma_says_switch(e, "INPUT_RELAY_ALLOW_LOOPBACK"@, false);
    lemma_says_switch(e, "TRUST_PROXY_HEADER"@, false);
    lemma_says_switch(e, "DISCORD_REQUIRED"@, false);
    lemma_says_switch(e, "GUEST_CAN_CHAT"@, true);
    lemma_says_switch(e, "GUEST_CAN_HOST"@, true);
    lemma_says_switch(e, "CHAT_FILTER"@, true);
}

/// Whether an optional setting is what its variable says, where that is not
/// empty.
pub open spec fn says_text(
    e: Seq<(Seq<char>, Seq<char>)>,
    name: Seq<char>,
    v: Option<Seq<char>>,
) -> bool {
    &&& var(e, name) is None ==> v is None
    &&& var(e, name) == Some(Seq::<char>::empty()) ==> v is None
    &&& var(e, name) is Some && var(e, name)->0.len() > 0 && !is_white(var(e, name)->0[0])
        && !is_white(var(e, name)->0.last()) ==> v == var(e, name)
}

proof fn lemma_says_text(e: Seq<(Seq<char>, Seq<char>)>, name: Seq<char>)
    ensures
        says_text(e, name, filled(var(e, name))),
        says_text(e, name, said(var(e, name))),
{
    let x = Seq::<char>::empty();
    law_trimming_takes_off_the_ends(x, x, x);
    assert(x + x + x =~= x);
    if var(e, name) is Some && var(e, name)->0.len() > 0 {
        let s = var(e, name)->0;
        if !is_white(s[0]) && !is_white(s.last()) {
            assert(x + s + x =~= s);
            law_trimming_takes_off_the_ends(x, s, x);
        }
    }
}

/// Each text is read from its own variable.
pub proof fn law_texts_are_read_by_name(e: Seq<(Seq<char>, Seq<char>)>)
    ensures
        ({
            let c = settings(e);
            &&& says_text(e, "DATABASE_URL"@, c.database_url)
            &&& says_text(e, "JWT_SECRET_CURRENT"@, c.jwt_secret_current)
            &&& says_text(e, "JWT_SECRET_PREVIOUS"@, c.jwt_secret_previous)
            &&& says_text(e, "GEOIP_DB_PATH"@, c.geoip_db_path)
            &&& says_text(e, "DISCORD_CLIENT_ID"@, c.discord_client_id)
            &&& says_text(e, "DISCORD_CLIENT_SECRET"@, c.discord_client_secret)
            &&& says_text(e, "DISCORD_REDIRECT_URL"@, c.discord_redirect_url)
            &&& says_text(e, "DISCORD_GUILD_ID"@, c.discord_guild_id)
            &&& says_text(e, "CHAT_FILTER_EXTRA_PATH"@, c.chat_filter_extra_path)
            &&& var(e, "BIND_ADDR"@) is Some ==> c.bind_addr == var(e, "BIND_ADDR"@)->0
            &&& var(e, "BIND_ADDR"@) is None ==> c.bind_addr == "0.0.0.0:8765"@
            &&& var(e, "INPUT_RELAY_BIND"@) is Some ==> c.input_relay_bind == var(
                e,
                "INPUT_RELAY_BIND"@,
            )->0
            &&& var(e, "INPUT_RELAY_BIND"@) is None ==> c.input_relay_bind == "0.0.0.0:8777"@
        }),
{
    lemma_says_text(e, "DATABASE_URL"@);
    lemma_says_text(e, "JWT_SECRET_CURRENT"@);
    lemma_says_text(e, "JWT_SECRET_PREVIOUS"@);
    lemma_says_text(e, "GEOIP_DB_PATH"@);
    lemma_says_text(e, "DISCORD_CLIENT_ID"@);
    lemma_says_text(e, "DISCORD_CLIENT_SECRET"@);
    lemma_says_text(e, "DISCORD_REDIRECT_URL"@);
    lemma_says_text(e, "DISCORD_GUILD_ID"@);
    lemma_says_text(e, "CHAT_FILTER_EXTRA_PATH"@);
}

/// The relay's own host name goes before the public one, and that before the
/// lobby's.
pub proof fn law_the_nearest_host_name_counts(e: Seq<(Seq<char>, Seq<char>)>)
    ensures
        ({
            let own = said(var(e, "INPUT_RELAY_ADVERTISE_HOST"@));
            let public = said(var(e, "PUBLIC_HOST"@));
            let lobby = said(var(e, "LOBBY_PUBLIC_HOST"@));
            &&& own is Some ==> advertise_host(e) == own->0
            &&& own is None && public is Some ==> advertise_host(e) == public->0
            &&& own is None && public is None && lobby is Some ==> advertise_host(e) == lobby->0
            &&& own is None && public is None && lobby is None ==> advertise_host(e).len() == 0
            &&& settings(e).input_relay_advertise_host == advertise_host(e)
        }),
{
}

proof fn lemma_items_in(parts: Seq<Seq<char>>, g: Seq<char>)
    ensures
        items(parts).contains(g) <==> g.len() > 0 && exists|i: int|
            0 <= i < parts.len() && trimmed(#[trigger] parts[i]) == g,
    decreases parts.len(),
{
    if parts.len() > 0 {
        let rest = parts.drop_last();
        lemma_items_in(rest, g);
        let before = items(rest);
        let last = trimmed(parts.last());
        if items(parts).contains(g) {
            let k = choose|k: int| 0 <= k < items(parts).len() && items(parts)[k] == g;
            if k < before.len() {
                assert(before[k] == g);
                assert(before.contains(g));
                let i = choose|i: int| 0 <= i < rest.len() && trimmed(#[trigger] rest[i]) == g;
                assert(parts[i] == rest[i]);
            } else {
                assert(trimmed(parts[parts.len() - 1]) == g);
            }
        }
        if g.len() > 0 && exists|i: int| 0 <= i < parts.len() && trimmed(#[trigger] parts[i]) == g {
            let i = choose|i: int| 0 <= i < parts.len() && trimmed(#[trigger] parts[i]) == g;
            if i == parts.len() - 1 {
                assert(items(parts)[before.len() as int] == g);
            } else {
                assert(rest[i] == parts[i]);
                assert(before.contains(g));
                let k = choose|k: int| 0 <= k < before.len() && before[k] == g;
                assert(items(parts)[k] == g);
            }
        }
    }
}

/// With a list of games those on it are allowed, whatever white space stands
/// around their names, and no others; without one any game with a name is.
pub proof fn law_listed_games_are_allowed(
    e: Seq<(Seq<char>, Seq<char>)>,
    list: Seq<char>,
    g: Seq<char>,
)
    requires
        var(e, "LOBBY_GAME_ALLOWLIST"@) == Some(list),
        game_list(e).len() > 0,
    ensures
        settings(e).allows(g) <==> g.len() > 0 && exists|k: int|
            0 <= k < pieces(list, ',').len() && trimmed(#[trigger] pieces(list, ',')[k]) == g,
{
    lemma_items_in(pieces(list, ','), g);
}

/// A ladder that is written down is the one that counts, step by step.
pub proof fn law_the_written_ladder_counts(parts: Seq<Seq<char>>, steps: Seq<u64>)
    requires
        parts.len() == steps.len(),
        forall|i: int| 0 <= i < parts.len() ==> #[trigger] parts[i] == decimal(steps[i] as nat),
    ensures
        numbers(parts) == steps,
    decreases parts.len(),
{
    if parts.len() > 0 {
        let n = steps.last();
        assert(parts[parts.len() - 1] == decimal(n as nat));
        law_the_written_ladder_counts(parts.drop_last(), steps.drop_last());
        lemma_decimal_digits(n as nat);
        let s = decimal(n as nat);
        assert(digit_in(s[0], 10) && digit_in(s[s.len() - 1], 10));
        lemma_plain_digits(s);
        law_a_written_number_is_read(n as nat, u64::MAX as int);
        assert(steps.drop_last().push(n) =~= steps);
    } else {
        assert(numbers(parts) =~= steps);
    }
}

proof fn lemma_plain_digits(s: Seq<char>)
    requires
        s.len() > 0,
        crate::text::all_digits(s, 10),
    ensures
        trimmed(s) == s,
{
    assert forall|i: int| 0 <= i < s.len() implies 'a' <= #[trigger] s[i] <= 'z' || '0' <= s[i]
        <= '9' by {
        assert(digit_in(s[i], 10));
    }
    lemma_plain(s);
}

/// A Discord login that is configured in part names what it lacks, and one that
/// is configured in full, or not at all, lacks nothing.
pub proof fn law_what_a_login_lacks_is_named(c: ConfigView)
    ensures
        ({
            let some = c.discord_client_id is Some || c.discord_client_secret is Some
                || c.discord_redirect_url is Some;
            let lacks = missing_for_discord(c);
            &&& lacks.contains("DISCORD_CLIENT_ID"@) <==> some && c.discord_client_id is None
            &&& lacks.contains("DISCORD_CLIENT_SECRET"@) <==> some && c.discord_client_secret is None
            &&& lacks.contains("DISCORD_REDIRECT_URL"@) <==> some && c.discord_redirect_url is None
            &&& lacks.contains("JWT_SECRET_CURRENT"@) <==> some && c.jwt_secret_current is None
        }),
{
    reveal_strlit("DISCORD_CLIENT_ID");
    reveal_strlit("DISCORD_CLIENT_SECRET");
    reveal_strlit("DISCORD_REDIRECT_URL");
    reveal_strlit("JWT_SECRET_CURRENT");
    let some = c.discord_client_id is Some || c.discord_client_secret is Some
        || c.discord_redirect_url is Some;
    if some {
        let a = crate::config::if_missing(c.discord_client_id, "DISCORD_CLIENT_ID"@);
        let b = crate::config::if_missing(c.discord_client_secret, "DISCORD_CLIENT_SECRET"@);
        let d = crate::config::if_missing(c.discord_redirect_url, "DISCORD_REDIRECT_URL"@);
        let j = crate::config::if_missing(c.jwt_secret_current, "JWT_SECRET_CURRENT"@);
        let m = missing_for_discord(c);
        assert(m == a + b + d + j);
        if a.len() > 0 {
            assert(m[0] == "DISCORD_CLIENT_ID"@);
        }
        if b.len() > 0 {
            assert(m[a.len() as int] == "DISCORD_CLIENT_SECRET"@);
        }
        if d.len() > 0 {
            assert(m[(a.len() + b.len()) as int] == "DISCORD_REDIRECT_URL"@);
        }
        if j.len() > 0 {
            assert(m[(a.len() + b.len() + d.len()) as int] == "JWT_SECRET_CURRENT"@);
        }
        assert("DISCORD_CLIENT_ID"@.len() == 17 && "DISCORD_CLIENT_SECRET"@.len() == 21
            && "DISCORD_REDIRECT_URL"@.len() == 20 && "JWT_SECRET_CURRENT"@.len() == 18);
    }
}

} // verus!
