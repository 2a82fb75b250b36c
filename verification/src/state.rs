//! Everything the server holds.

use crate::automatch::queue::Queue;
use crate::automatch::rulesets::Rulesets;
use crate::challenges::ChallengeStore;
use crate::chat_filter::ChatFilter;
use crate::config::Config;
use crate::discord_auth::{finished, LoginStore};
use crate::input_relay::{InputRelay, RelayView, SessionView};
use crate::metrics::{
    active_step, counts_view, input_relay_session_closed, input_relay_session_opened, level,
    match_starts_by_game, plain, points, raised_by, set_gauges, set_input_relay_sessions,
    set_input_relay_sessions_active, set_matches_by_game, starts_on, totals, GameCount, MatchTotals, Metrics, MetricsView, Point, PointView, StatsSnapshot, Totals,
    SURFACE_HTTP, SURFACE_WS,
};
use crate::rooms::{running, titles, RoomRegistry};
use crate::signal::SignalStore;
use crate::tally::{law_tally_adds_up, tally};
use crate::turn_credentials::TurnCredentialConfig;
use crate::ws_lobby::dispatch::{LobbyState, World};
use crate::ws_lobby::hub::{lobby_titles, started_lobbies, WsLobbyHub};
use crate::ws_lobby::matching::for_two;
use vstd::prelude::*;
use vstd::string::*;

verus! {

pub struct AppState {
    pub config: Config,
    pub rooms: RoomRegistry,
    pub signals: SignalStore,
    pub ws_lobby: WsLobbyHub,
    /// The input relay's sessions.
    pub input_relay: InputRelay,
    /// Logins in flight, by the pairing code that the launcher polls with.
    pub discord_logins: LoginStore,
    /// Nonces that devices may prove their keys against.
    pub discord_challenges: ChallengeStore,
    pub automatch: Queue,
    pub rulesets: Rulesets,
    pub chat_filter: ChatFilter,
    pub turn: Option<TurnCredentialConfig>,
    pub metrics: Metrics,
    /// Verbose logs were asked for.
    pub debug: bool,
}

impl AppState {
    pub open spec fn wf(&self) -> bool {
        &&& self.ws_lobby.wf()
        &&& self.input_relay@.wf()
        &&& self.signals.wf()
        &&& self.chat_filter@.wf()
        &&& for_two(self.rulesets@)
    }

    /// What lobby messages change.
    pub open spec fn lobbies(&self) -> LobbyState {
        LobbyState {
            hub: self.ws_lobby.inner@,
            relay: self.input_relay@,
            queue: self.automatch@,
        }
    }

    /// What lobby messages only read.
    pub open spec fn world(&self) -> World {
        World {
            rules: self.rulesets@,
            config: self.config@,
            filter: self.chat_filter@,
            turn: self.turn,
        }
    }

    /// Nothing differs but what lobby messages change.
    pub open spec fn same_rest(self, before: AppState) -> bool {
        &&& self.ws_lobby.table == before.ws_lobby.table
        &&& self.ws_lobby.geoip == before.ws_lobby.geoip
        &&& self == (AppState {
            ws_lobby: self.ws_lobby,
            input_relay: self.input_relay,
            automatch: self.automatch,
            ..before
        })
    }

    /// Parks a failed login, so that the launcher's poll ends.
    pub fn discord_logins_finish_err(&mut self, code: &str, why: &str)
        ensures
            *final(self) == (AppState { discord_logins: final(self).discord_logins, ..*old(self) }),
            final(self).discord_logins@ == finished(old(self).discord_logins@, code@, Err(why@)),
    {
        self.discord_logins.fail(code, why);
    }
}

// ---------------------------------------------------------------- the stats

/// What goes on right now.
pub struct LiveCounts {
    pub ws_clients: usize,
    pub ws_lobbies: usize,
    pub ws_matches: usize,
    pub ws_lobbies_by_game: Vec<GameCount>,
    pub ws_matches_by_game: Vec<GameCount>,
    pub http_rooms: usize,
    pub http_rooms_running: usize,
    pub http_rooms_by_game: Vec<GameCount>,
    pub http_rooms_running_by_game: Vec<GameCount>,
    pub input_relay_sessions: usize,
    pub input_relay_sessions_active: usize,
}

/// Whether `l` counts what a server holds.
pub open spec fn counts(l: LiveCounts, s: AppState, now: u64) -> bool {
    let hub = s.ws_lobby.inner@;
    let rooms = s.rooms@;
    &&& l.ws_clients == hub.clients.len()
    &&& l.ws_lobbies == hub.lobbies.len()
    &&& l.ws_matches == started_lobbies(hub.lobbies).len()
    &&& counts_view(l.ws_lobbies_by_game@) == tally(lobby_titles(hub.lobbies))
    &&& counts_view(l.ws_matches_by_game@) == tally(lobby_titles(started_lobbies(hub.lobbies)))
    &&& l.http_rooms == rooms.len()
    &&& l.http_rooms_running == running(rooms).len()
    &&& counts_view(l.http_rooms_by_game@) == tally(titles(rooms))
    &&& counts_view(l.http_rooms_running_by_game@) == tally(titles(running(rooms)))
    &&& l.input_relay_sessions == s.input_relay@.sessions.len()
    &&& l.input_relay_sessions_active == crate::input_relay::flowing_count(
        s.input_relay@.sessions,
        now,
    )
}

/// Counts what goes on right now.
pub fn live_counts(state: &AppState, now: u64) -> (r: LiveCounts)
    ensures
        counts(r, *state, now),
{
    let (input_relay_sessions, input_relay_sessions_active) = state.input_relay.session_counts(now);
    LiveCounts {
        ws_clients: state.ws_lobby.client_count(),
        ws_lobbies: state.ws_lobby.lobby_count(),
        ws_matches: state.ws_lobby.match_count(),
        ws_lobbies_by_game: state.ws_lobby.counts_by_game(),
        ws_matches_by_game: state.ws_lobby.match_counts_by_game(),
        http_rooms: state.rooms.len(),
        http_rooms_running: state.rooms.running_count(),
        http_rooms_by_game: state.rooms.counts_by_game(),
        http_rooms_running_by_game: state.rooms.running_counts_by_game(),
        input_relay_sessions,
        input_relay_sessions_active,
    }
}

fn extend(out: &mut Vec<Point>, more: Vec<Point>)
    ensures
        points(final(out)@) == points(old(out)@) + points(more@),
{
    let ghost added = more@;
    let mut more = more;
    out.append(&mut more);
    proof {
        assert(points(out@) =~= points(old(out)@) + points(added));
    }
}

/// The gauges that some counts make, and the metrics after them.
pub open spec fn gauge_step(m: MetricsView, l: LiveCounts) -> (MetricsView, Seq<PointView>) {
    let (m1, ws) = active_step(m, SURFACE_WS@, counts_view(l.ws_matches_by_game@));
    let (m2, http) = active_step(m1, SURFACE_HTTP@, counts_view(l.http_rooms_running_by_game@));
    (
        m2,
        seq![
            level("recomp_ws_clients"@, l.ws_clients as int),
            level("recomp_ws_lobbies"@, l.ws_lobbies as int),
            level("recomp_ws_matches"@, l.ws_matches as int),
            level("recomp_http_rooms"@, l.http_rooms as int),
            level("recomp_http_rooms_running"@, l.http_rooms_running as int),
        ] + ws + http + seq![
            level("recomp_input_relay_sessions"@, l.input_relay_sessions as int),
        ] + seq![
            level("recomp_input_relay_sessions_active"@, l.input_relay_sessions_active as int),
        ],
    )
}

/// Counts what goes on, and sets the gauges by it.
pub fn refresh_gauges(state: &mut AppState, now: u64) -> (r: (Vec<Point>, LiveCounts))
    ensures
        counts(r.1, *old(state), now),
        *final(state) == (AppState { metrics: final(state).metrics, ..*old(state) }),
        (final(state).metrics@, points(r.0@)) == gauge_step(old(state).metrics@, r.1),
{
    let l = live_counts(state, now);
    let mut out = set_gauges(
        l.ws_clients,
        l.ws_lobbies,
        l.ws_matches,
        l.http_rooms,
        l.http_rooms_running,
    );
    proof {
        law_tally_adds_up(lobby_titles(started_lobbies(state.ws_lobby.inner@.lobbies)));
        law_tally_adds_up(titles(running(state.rooms@)));
    }
    let ws = set_matches_by_game(&mut state.metrics, SURFACE_WS, &l.ws_matches_by_game);
    extend(&mut out, ws);
    let http = set_matches_by_game(
        &mut state.metrics,
        SURFACE_HTTP,
        &l.http_rooms_running_by_game,
    );
    extend(&mut out, http);
    extend(&mut out, set_input_relay_sessions(l.input_relay_sessions));
    extend(&mut out, set_input_relay_sessions_active(l.input_relay_sessions_active));
    (out, l)
}

// ------------------------------------------------------- the relay's sessions

/// The ids of the relay's sessions.
pub open spec fn session_ids(relay: RelayView) -> Seq<u32> {
    relay.sessions.map_values(|s: SessionView| s.session_id)
}

/// How many of `a` are not among `b`.
pub open spec fn missing(a: Seq<u32>, b: Seq<u32>) -> nat
    decreases a.len(),
{
    if a.len() == 0 {
        0
    } else if b.contains(a.last()) {
        missing(a.drop_last(), b)
    } else {
        missing(a.drop_last(), b) + 1
    }
}

fn count_missing(a: &Vec<u32>, b: &Vec<u32>) -> (r: usize)
    ensures
        r == missing(a@, b@),
        r <= a@.len(),
{
    let mut n: usize = 0;
    let mut i: usize = 0;
    while i < a.len()
        invariant
            i <= a@.len(),
            n == missing(a@.take(i as int), b@),
            n <= i,
        decreases a@.len() - i,
    {
        let mut there = false;
        let mut j: usize = 0;
        while j < b.len()
            invariant
                i < a@.len(),
                j <= b@.len(),
                there == b@.take(j as int).contains(a@[i as int]),
            decreases b@.len() - j,
        {
            proof {
                let next = b@.take(j + 1);
                assert(next.drop_last() =~= b@.take(j as int));
                if there {
                    let k = choose|k: int|
                        0 <= k < j && #[trigger] b@.take(j as int)[k] == a@[i as int];
                    assert(next[k] == a@[i as int]);
                }
                if b@[j as int] == a@[i as int] {
                    assert(next[j as int] == a@[i as int]);
                }
                if next.contains(a@[i as int]) && b@[j as int] != a@[i as int] {
                    let k = choose|k: int| 0 <= k < next.len() && next[k] == a@[i as int];
                    assert(b@.take(j as int)[k] == a@[i as int]);
                }
            }
            if b[j] == a[i] {
                there = true;
            }
            j = j + 1;
        }
        proof {
            assert(b@.take(b@.len() as int) =~= b@);
            assert(a@.take(i + 1).drop_last() =~= a@.take(i as int));
        }
        if !there {
            n = n + 1;
        }
        i = i + 1;
    }
    proof {
        assert(a@.take(a@.len() as int) =~= a@);
    }
    n
}

/// The ids of the relay's sessions, to hold a later state against.
pub fn relay_sessions(state: &AppState) -> (r: Vec<u32>)
    ensures
        r@ == session_ids(state.input_relay@),
{
    let mut ids: Vec<u32> = Vec::new();
    let mut i: usize = 0;
    while i < state.input_relay.sessions.len()
        invariant
            i <= state.input_relay.sessions@.len(),
            ids@ == session_ids(state.input_relay@).take(i as int),
        decreases state.input_relay.sessions@.len() - i,
    {
        ids.push(state.input_relay.sessions[i].session_id);
        i = i + 1;
        proof {
            assert(ids@ =~= session_ids(state.input_relay@).take(i as int));
        }
    }
    proof {
        assert(ids@ =~= session_ids(state.input_relay@));
    }
    ids
}

/// The metrics after some sessions opened and some closed.
pub open spec fn relay_counted(m: MetricsView, opened: nat, closed: nat) -> MetricsView {
    MetricsView {
        totals: Totals {
            input_relay_sessions_opened: raised_by(
                m.totals.input_relay_sessions_opened,
                opened as u64,
            ),
            input_relay_sessions_closed: raised_by(
                m.totals.input_relay_sessions_closed,
                closed as u64,
            ),
            ..m.totals
        },
        ..m
    }
}

/// `n` counts of one.
pub open spec fn ticks(name: Seq<char>, n: nat) -> Seq<PointView> {
    Seq::new(n, |i: int| plain(name, 1))
}

/// Counts the relay's sessions that opened and closed since `before`.
pub fn note_relay(state: &mut AppState, before: &Vec<u32>) -> (r: Vec<Point>)
    ensures
        *final(state) == (AppState { metrics: final(state).metrics, ..*old(state) }),
        final(state).metrics@ == relay_counted(
            old(state).metrics@,
            missing(session_ids(old(state).input_relay@), before@),
            missing(before@, session_ids(old(state).input_relay@)),
        ),
        points(r@) == ticks(
            "recomp_input_relay_sessions_opened_total"@,
            missing(session_ids(old(state).input_relay@), before@),
        ) + ticks(
            "recomp_input_relay_sessions_closed_total"@,
            missing(before@, session_ids(old(state).input_relay@)),
        ),
{
    let ids = relay_sessions(state);
    let opened = count_missing(&ids, before);
    let closed = count_missing(before, &ids);
    let mut out: Vec<Point> = Vec::new();
    let ghost m0 = state.metrics@;
    let mut i: usize = 0;
    proof {
        assert(points(out@) =~= ticks("recomp_input_relay_sessions_opened_total"@, 0));
        assert(state.metrics@ == relay_counted(m0, 0, 0));
    }
    while i < opened
        invariant
            i <= opened,
            m0 == old(state).metrics@,
            *state == (AppState { metrics: state.metrics, ..*old(state) }),
            state.metrics@ == relay_counted(m0, i as nat, 0),
            points(out@) == ticks("recomp_input_relay_sessions_opened_total"@, i as nat),
        decreases opened - i,
    {
        let one = input_relay_session_opened(&mut state.metrics);
        extend(&mut out, one);
        i = i + 1;
        proof {
            assert(points(out@) =~= ticks(
                "recomp_input_relay_sessions_opened_total"@,
                i as nat,
            ));
        }
    }
    let mut k: usize = 0;
    proof {
        assert(points(out@) =~= ticks("recomp_input_relay_sessions_opened_total"@, opened as nat)
            + ticks("recomp_input_relay_sessions_closed_total"@, 0));
    }
    while k < closed
        invariant
            k <= closed,
            m0 == old(state).metrics@,
            *state == (AppState { metrics: state.metrics, ..*old(state) }),
            state.metrics@ == relay_counted(m0, opened as nat, k as nat),
            points(out@) == ticks("recomp_input_relay_sessions_opened_total"@, opened as nat)
                + ticks("recomp_input_relay_sessions_closed_total"@, k as nat),
        decreases closed - k,
    {
        let one = input_relay_session_closed(&mut state.metrics);
        extend(&mut out, one);
        k = k + 1;
        proof {
            assert(points(out@) =~= ticks(
                "recomp_input_relay_sessions_opened_total"@,
                opened as nat,
            ) + ticks("recomp_input_relay_sessions_closed_total"@, k as nat));
        }
    }
    out
}

// ------------------------------------------------------------ the stats page

pub open spec fn starts_view(v: Seq<(String, MatchTotals)>) -> Seq<(Seq<char>, MatchTotals)> {
    v.map_values(|x: (String, MatchTotals)| (x.0@, x.1))
}

/// Everything the stats page shows. A lobby that has not started waits.
pub fn stats_snapshot(m: &Metrics, live: LiveCounts) -> (r: StatsSnapshot)
    ensures
        r.ws_clients == live.ws_clients,
        r.ws_lobbies == live.ws_lobbies,
        r.ws_lobbies_waiting == (if live.ws_lobbies >= live.ws_matches {
            live.ws_lobbies - live.ws_matches
        } else {
            0
        }),
        r.ws_matches == live.ws_matches,
        r.ws_lobbies_by_game == live.ws_lobbies_by_game,
        r.ws_matches_by_game == live.ws_matches_by_game,
        r.http_rooms == live.http_rooms,
        r.http_rooms_running == live.http_rooms_running,
        r.http_rooms_by_game == live.http_rooms_by_game,
        r.http_rooms_running_by_game == live.http_rooms_running_by_game,
        starts_view(r.ws_match_starts_by_game@) == starts_on(m@.starts, SURFACE_WS@),
        starts_view(r.http_match_starts_by_game@) == starts_on(m@.starts, SURFACE_HTTP@),
        r.input_relay_sessions == live.input_relay_sessions,
        r.input_relay_sessions_active == live.input_relay_sessions_active,
        r.totals == m@.totals,
{
    let ws_lobbies_waiting: usize = if live.ws_lobbies >= live.ws_matches {
        live.ws_lobbies - live.ws_matches
    } else {
        0
    };
    StatsSnapshot {
        ws_clients: live.ws_clients,
        ws_lobbies: live.ws_lobbies,
        ws_lobbies_waiting,
        ws_matches: live.ws_matches,
        ws_lobbies_by_game: live.ws_lobbies_by_game,
        ws_matches_by_game: live.ws_matches_by_game,
        http_rooms: live.http_rooms,
        http_rooms_running: live.http_rooms_running,
        http_rooms_by_game: live.http_rooms_by_game,
        http_rooms_running_by_game: live.http_rooms_running_by_game,
        ws_match_starts_by_game: match_starts_by_game(m, SURFACE_WS),
        http_match_starts_by_game: match_starts_by_game(m, SURFACE_HTTP),
        input_relay_sessions: live.input_relay_sessions,
        input_relay_sessions_active: live.input_relay_sessions_active,
        totals: totals(m),
    }
}

} // verus!
