//! Process-lifetime usage counters, and the series that a scrape reads.
//!
//! Labels stay low-cardinality: result codes, a `surface`, and a bounded `game`
//! label on match-start series only. Game names arrive from clients, so
//! `game_label` normalizes them and folds anything outside the allowlist, or
//! past the limit where there is none, into `other`.

use crate::rooms::RoomError;
use crate::text::{
    chars_of, is_digit, is_lower, is_upper, listed, lower_char, same, string_of, to_lower, trimmed, trim_range,
    views,
};
use crate::ws_lobby::wire::{Event, EventView};
use vstd::prelude::*;
use vstd::string::*;

verus! {

/// Surface label for WebSocket lobbies.
pub const SURFACE_WS: &'static str = "ws";

/// Surface label for HTTP rooms.
pub const SURFACE_HTTP: &'static str = "http";

/// Default ceiling on distinct `game` label values when no allowlist is set.
pub const DEFAULT_GAME_LABEL_LIMIT: usize = 64;

/// Longest normalized game label kept.
pub const GAME_LABEL_MAX_LEN: usize = 48;

/// Fold target for games outside the allowlist or past the cap.
pub const GAME_LABEL_OTHER: &'static str = "other";

/// Fold target for empty or all-punctuation game names.
pub const GAME_LABEL_UNKNOWN: &'static str = "unknown";

// -------------------------------------------------------------- the points

/// One label of a series.
pub struct Label {
    pub key: &'static str,
    pub value: String,
}

/// One change of a series: a counter goes up by `value`, a gauge becomes it.
pub struct Point {
    pub gauge: bool,
    pub name: &'static str,
    pub labels: Vec<Label>,
    pub value: u64,
}

#[verifier::ext_equal]
pub ghost struct PointView {
    pub gauge: bool,
    pub name: Seq<char>,
    pub labels: Seq<(Seq<char>, Seq<char>)>,
    pub value: int,
}

impl View for Point {
    type V = PointView;

    open spec fn view(&self) -> PointView {
        PointView {
            gauge: self.gauge,
            name: self.name@,
            labels: self.labels@.map_values(|l: Label| (l.key@, l.value@)),
            value: self.value as int,
        }
    }
}

pub open spec fn points(v: Seq<Point>) -> Seq<PointView> {
    v.map_values(|p: Point| p@)
}

/// A counter without labels.
pub open spec fn plain(name: Seq<char>, by: int) -> PointView {
    PointView { gauge: false, name, labels: Seq::empty(), value: by }
}

/// A counter with one label.
pub open spec fn tagged(name: Seq<char>, key: Seq<char>, value: Seq<char>) -> PointView {
    PointView { gauge: false, name, labels: seq![(key, value)], value: 1 }
}

/// A gauge without labels.
pub open spec fn level(name: Seq<char>, value: int) -> PointView {
    PointView { gauge: true, name, labels: Seq::empty(), value }
}

/// A series of one game on one surface.
pub open spec fn per_game(
    gauge: bool,
    name: Seq<char>,
    surface: Seq<char>,
    game: Seq<char>,
    value: int,
) -> PointView {
    PointView { gauge, name, labels: seq![("surface"@, surface), ("game"@, game)], value }
}

fn make_plain(gauge: bool, name: &'static str, value: u64) -> (r: Point)
    ensures
        r@ == (PointView { gauge, name: name@, labels: Seq::empty(), value: value as int }),
{
    let r = Point { gauge, name, labels: Vec::new(), value };
    proof {
        assert(r@.labels =~= Seq::<(Seq<char>, Seq<char>)>::empty());
    }
    r
}

fn make_tagged(name: &'static str, key: &'static str, value: &str) -> (r: Point)
    ensures
        r@ == tagged(name@, key@, value@),
{
    let mut labels: Vec<Label> = Vec::new();
    labels.push(Label { key, value: value.to_owned() });
    let r = Point { gauge: false, name, labels, value: 1 };
    proof {
        assert(r@.labels =~= seq![(key@, value@)]);
    }
    r
}

fn make_per_game(gauge: bool, name: &'static str, surface: &str, game: &str, value: u64) -> (r:
    Point)
    ensures
        r@ == per_game(gauge, name@, surface@, game@, value as int),
{
    let mut labels: Vec<Label> = Vec::new();
    labels.push(Label { key: "surface", value: surface.to_owned() });
    labels.push(Label { key: "game", value: game.to_owned() });
    let r = Point { gauge, name, labels, value };
    proof {
        assert(r@.labels =~= seq![("surface"@, surface@), ("game"@, game@)]);
    }
    r
}

fn one(p: Point) -> (r: Vec<Point>)
    ensures
        points(r@) == seq![p@],
{
    let mut v: Vec<Point> = Vec::new();
    v.push(p);
    proof {
        assert(points(v@) =~= seq![p@]);
    }
    v
}

fn add_point(v: &mut Vec<Point>, p: Point)
    ensures
        points(final(v)@) == points(old(v)@).push(p@),
{
    let ghost before = v@;
    v.push(p);
    proof {
        assert(points(v@) =~= points(before).push(p@));
    }
}

// -------------------------------------------------------------- game labels

/// The game labels in use. `strict` where an allowlist pins them.
pub struct GameLabels {
    pub strict: bool,
    pub limit: usize,
    pub known: Vec<String>,
}

#[verifier::ext_equal]
pub ghost struct LabelsView {
    pub strict: bool,
    pub limit: int,
    pub known: Seq<Seq<char>>,
}

impl View for GameLabels {
    type V = LabelsView;

    open spec fn view(&self) -> LabelsView {
        LabelsView { strict: self.strict, limit: self.limit as int, known: views(self.known@) }
    }
}

/// What a character of a name becomes in a label.
pub open spec fn label_char(c: char) -> char {
    if is_digit(c) || is_lower(c) || is_upper(c) {
        lower_char(c)
    } else if c == '.' || c == '-' || c == '_' {
        c
    } else {
        '_'
    }
}

/// The label letters of `s` from `i` on, behind `out`; a run of separators is
/// one, none stands in front, and the label has a longest length.
pub open spec fn label_from(s: Seq<char>, i: int, out: Seq<char>, after_sep: bool) -> Seq<char>
    decreases s.len() - i,
{
    if i >= s.len() || out.len() >= GAME_LABEL_MAX_LEN {
        out
    } else {
        let c = label_char(s[i]);
        if c == '_' {
            if after_sep || out.len() == 0 {
                label_from(s, i + 1, out, after_sep)
            } else {
                label_from(s, i + 1, out.push(c), true)
            }
        } else {
            label_from(s, i + 1, out.push(c), false)
        }
    }
}

/// `s` without separators at its end.
pub open spec fn unpadded(s: Seq<char>) -> Seq<char>
    decreases s.len(),
{
    if s.len() > 0 && (s.last() == '_' || s.last() == '-' || s.last() == '.') {
        unpadded(s.drop_last())
    } else {
        s
    }
}

/// A game name as a label: lower case, `[a-z0-9._-]`, of bounded length.
pub open spec fn normalized(raw: Seq<char>) -> Seq<char> {
    unpadded(label_from(trimmed(raw), 0, Seq::empty(), false))
}

fn to_label_char(c: char) -> (r: char)
    ensures
        r == label_char(c),
{
    if ('0' <= c && c <= '9') || ('a' <= c && c <= 'z') || ('A' <= c && c <= 'Z') {
        to_lower(c)
    } else if c == '.' || c == '-' || c == '_' {
        c
    } else {
        '_'
    }
}

/// Lowercase, strip to `[a-z0-9._-]`, collapse separators, cap the length.
pub fn normalize_game(raw: &str) -> (r: String)
    ensures
        r@ == normalized(raw@),
{
    let v = chars_of(raw);
    let (from, to) = trim_range(&v);
    let ghost s = trimmed(raw@);
    let mut out: Vec<char> = Vec::new();
    let mut after_sep = false;
    let mut i: usize = from;
    while i < to && out.len() < GAME_LABEL_MAX_LEN
        invariant
            from <= i <= to,
            to <= v@.len(),
            v@ == raw@,
            s == trimmed(raw@),
            s == v@.subrange(from as int, to as int),
            label_from(s, 0, Seq::empty(), false) == label_from(s, i - from, out@, after_sep),
        decreases to - i,
    {
        proof {
            assert(s[i - from] == v@[i as int]);
        }
        let c = to_label_char(v[i]);
        if c == '_' {
            if !after_sep && out.len() > 0 {
                after_sep = true;
                out.push(c);
            }
        } else {
            after_sep = false;
            out.push(c);
        }
        i = i + 1;
    }
    let ghost full = out@;
    let mut n: usize = out.len();
    proof {
        assert(full.take(n as int) =~= full);
    }
    while n > 0 && (out[n - 1] == '_' || out[n - 1] == '-' || out[n - 1] == '.')
        invariant
            n <= out@.len(),
            out@ == full,
            unpadded(full) == unpadded(full.take(n as int)),
        decreases n,
    {
        proof {
            assert(full.take(n as int).last() == out@[n - 1]);
            assert(full.take(n as int).drop_last() =~= full.take(n - 1));
        }
        n = n - 1;
    }
    proof {
        if n > 0 {
            assert(full.take(n as int).last() == out@[n - 1]);
        }
        assert(full.take(n as int) =~= full.subrange(0, n as int));
    }
    string_of(&out, 0, n)
}

/// The labels once those of the allowlist are taken in.
pub open spec fn seeded(list: Seq<Seq<char>>) -> Seq<Seq<char>>
    decreases list.len(),
{
    if list.len() == 0 {
        Seq::empty()
    } else {
        let before = seeded(list.drop_last());
        let n = normalized(list.last());
        if n.len() == 0 || before.contains(n) {
            before
        } else {
            before.push(n)
        }
    }
}

/// The labels of a server with this allowlist and this limit.
pub open spec fn fresh_labels(allowlist: Seq<Seq<char>>, limit: int) -> LabelsView {
    LabelsView {
        strict: allowlist.len() > 0,
        limit: if limit < 1 {
            1
        } else {
            limit
        },
        known: seeded(allowlist),
    }
}

/// The label of a name, and the labels after it was asked for.
pub open spec fn label_step(g: LabelsView, raw: Seq<char>) -> (LabelsView, Seq<char>) {
    let n = normalized(raw);
    if n.len() == 0 {
        (g, GAME_LABEL_UNKNOWN@)
    } else if g.known.contains(n) {
        (g, n)
    } else if g.strict || g.known.len() >= g.limit {
        (g, GAME_LABEL_OTHER@)
    } else {
        (LabelsView { known: g.known.push(n), ..g }, n)
    }
}

// --------------------------------------------------------------- the state

/// Lifetime match starts of one game.
#[derive(Clone, Copy, Debug, PartialEq, Eq, Structural)]
pub struct MatchTotals {
    pub starts: u64,
    pub players: u64,
}

/// The match starts of one game on one surface.
pub struct StartRow {
    pub surface: String,
    pub game: String,
    pub totals: MatchTotals,
}

#[verifier::ext_equal]
pub ghost struct StartView {
    pub surface: Seq<char>,
    pub game: Seq<char>,
    pub totals: MatchTotals,
}

impl View for StartRow {
    type V = StartView;

    open spec fn view(&self) -> StartView {
        StartView { surface: self.surface@, game: self.game@, totals: self.totals }
    }
}

/// One game and how many.
pub struct GameCount {
    pub game: String,
    pub n: u64,
}

pub open spec fn counts_view(v: Seq<GameCount>) -> Seq<(Seq<char>, int)> {
    v.map_values(|c: GameCount| (c.game@, c.n as int))
}

/// One game label that is published on a surface.
pub struct ActiveLabel {
    pub surface: String,
    pub game: String,
}

/// The counters since the process started.
#[derive(Clone, Copy, Debug, PartialEq, Eq, Structural)]
pub struct Totals {
    pub ws_connects: u64,
    pub ws_disconnects: u64,
    pub ws_lobby_creates: u64,
    pub ws_lobby_joins: u64,
    pub ws_lobby_join_failures: u64,
    pub ws_lobby_starts: u64,
    pub ws_lobby_destroys: u64,
    pub ws_signals: u64,
    pub http_players_created: u64,
    pub http_room_creates: u64,
    pub http_room_joins: u64,
    pub http_room_join_failures: u64,
    pub http_room_starts: u64,
    pub http_turn_credentials: u64,
    pub input_relay_sessions_opened: u64,
    pub input_relay_sessions_closed: u64,
    pub input_relay_forwards: u64,
    pub input_relay_drops: u64,
}

pub struct Metrics {
    pub totals: Totals,
    pub labels: GameLabels,
    pub starts: Vec<StartRow>,
    /// The labels published as active, so that a game that drops to zero is
    /// zeroed instead of freezing at its last value.
    pub active: Vec<ActiveLabel>,
}

#[verifier::ext_equal]
pub ghost struct MetricsView {
    pub totals: Totals,
    pub labels: LabelsView,
    pub starts: Seq<StartView>,
    pub active: Seq<(Seq<char>, Seq<char>)>,
}

impl View for Metrics {
    type V = MetricsView;

    open spec fn view(&self) -> MetricsView {
        MetricsView {
            totals: self.totals,
            labels: self.labels@,
            starts: self.starts@.map_values(|s: StartRow| s@),
            active: self.active@.map_values(|a: ActiveLabel| (a.surface@, a.game@)),
        }
    }
}

impl Default for Metrics {
    fn default() -> (r: Metrics)
        ensures
            r@ == (MetricsView {
                totals: zero_totals(),
                labels: fresh_labels(Seq::empty(), DEFAULT_GAME_LABEL_LIMIT as int),
                starts: Seq::empty(),
                active: Seq::empty(),
            }),
    {
        let r = Metrics {
            totals: Totals {
                ws_connects: 0,
                ws_disconnects: 0,
                ws_lobby_creates: 0,
                ws_lobby_joins: 0,
                ws_lobby_join_failures: 0,
                ws_lobby_starts: 0,
                ws_lobby_destroys: 0,
                ws_signals: 0,
                http_players_created: 0,
                http_room_creates: 0,
                http_room_joins: 0,
                http_room_join_failures: 0,
                http_room_starts: 0,
                http_turn_credentials: 0,
                input_relay_sessions_opened: 0,
                input_relay_sessions_closed: 0,
                input_relay_forwards: 0,
                input_relay_drops: 0,
            },
            labels: GameLabels {
                strict: false,
                limit: DEFAULT_GAME_LABEL_LIMIT,
                known: Vec::new(),
            },
            starts: Vec::new(),
            active: Vec::new(),
        };
        proof {
            assert(r@.labels.known =~= Seq::<Seq<char>>::empty());
            assert(r@.starts =~= Seq::<StartView>::empty());
            assert(r@.active =~= Seq::<(Seq<char>, Seq<char>)>::empty());
            assert(r@ =~= MetricsView {
                totals: zero_totals(),
                labels: fresh_labels(Seq::empty(), DEFAULT_GAME_LABEL_LIMIT as int),
                starts: Seq::empty(),
                active: Seq::empty(),
            });
        }
        r
    }
}

pub open spec fn zero_totals() -> Totals {
    Totals {
        ws_connects: 0,
        ws_disconnects: 0,
        ws_lobby_creates: 0,
        ws_lobby_joins: 0,
        ws_lobby_join_failures: 0,
        ws_lobby_starts: 0,
        ws_lobby_destroys: 0,
        ws_signals: 0,
        http_players_created: 0,
        http_room_creates: 0,
        http_room_joins: 0,
        http_room_join_failures: 0,
        http_room_starts: 0,
        http_turn_credentials: 0,
        input_relay_sessions_opened: 0,
        input_relay_sessions_closed: 0,
        input_relay_forwards: 0,
        input_relay_drops: 0,
    }
}

/// `n` and one more, as 64 bits count.
pub open spec fn bumped(n: u64) -> u64 {
    raised_by(n, 1)
}

/// `n` and `by` more, as 64 bits count.
pub open spec fn raised_by(n: u64, by: u64) -> u64 {
    if n + by > u64::MAX {
        (n + by - 0x1_0000_0000_0000_0000) as u64
    } else {
        (n + by) as u64
    }
}

fn plus(n: u64, by: u64) -> (r: u64)
    ensures
        r == raised_by(n, by),
{
    if by <= 0xffff_ffff_ffff_ffff - n {
        n + by
    } else {
        by - (0xffff_ffff_ffff_ffff - n) - 1
    }
}

/// Seeds the bounded `game` label set at startup. A non-empty allowlist pins
/// the series to exactly those games; an empty one learns names as matches
/// start, up to `limit`.
pub fn init_game_labels(m: &mut Metrics, allowlist: &Vec<String>, limit: usize)
    ensures
        final(m)@ == (MetricsView {
            labels: fresh_labels(views(allowlist@), limit as int),
            ..old(m)@
        }),
{
    let ghost all = views(allowlist@);
    let mut known: Vec<String> = Vec::new();
    let mut i: usize = 0;
    proof {
        assert(all.take(0) =~= Seq::<Seq<char>>::empty());
        assert(views(known@) =~= Seq::<Seq<char>>::empty());
    }
    while i < allowlist.len()
        invariant
            i <= allowlist@.len(),
            all == views(allowlist@),
            views(known@) == seeded(all.take(i as int)),
        decreases allowlist@.len() - i,
    {
        proof {
            let t = all.take(i + 1);
            assert(t.drop_last() =~= all.take(i as int));
            assert(t.last() == allowlist@[i as int]@);
        }
        let name = normalize_game(allowlist[i].as_str());
        if !name.as_str().is_empty() && !listed(&known, name.as_str()) {
            let ghost before = known@;
            known.push(name);
            proof {
                assert(views(known@) =~= views(before).push(name@));
            }
        }
        i = i + 1;
    }
    proof {
        assert(all.take(allowlist@.len() as int) =~= all);
        assert(all.len() == allowlist@.len());
    }
    m.labels = GameLabels {
        strict: allowlist.len() > 0,
        limit: if limit < 1 {
            1
        } else {
            limit
        },
        known,
    };
    proof {
        assert(m@.labels =~= fresh_labels(all, limit as int));
    }
}

impl GameLabels {
    fn label(&mut self, raw: &str) -> (r: String)
        ensures
            (final(self)@, r@) == label_step(old(self)@, raw@),
    {
        let name = normalize_game(raw);
        if name.as_str().is_empty() {
            return GAME_LABEL_UNKNOWN.to_owned();
        }
        if listed(&self.known, name.as_str()) {
            return name;
        }
        proof {
            assert(self@.known.len() == self.known@.len());
        }
        if self.strict || self.known.len() >= self.limit {
            return GAME_LABEL_OTHER.to_owned();
        }
        let ghost before = self.known@;
        self.known.push(name.clone());
        proof {
            assert(views(self.known@) =~= views(before).push(name@));
        }
        name
    }
}

/// Maps a client-supplied game name onto a bounded label.
pub fn game_label(m: &mut Metrics, raw: &str) -> (r: String)
    ensures
        final(m)@ == (MetricsView { labels: label_step(old(m)@.labels, raw@).0, ..old(m)@ }),
        r@ == label_step(old(m)@.labels, raw@).1,
{
    m.labels.label(raw)
}

// ------------------------------------------------------------ match starts

pub open spec fn row_at(rows: Seq<StartView>, surface: Seq<char>, game: Seq<char>) -> Option<int> {
    crate::find::first_where(rows, |s: StartView| s.surface == surface && s.game == game)
}

/// The rows once a match with `players` players started.
pub open spec fn with_start(rows: Seq<StartView>, surface: Seq<char>, game: Seq<char>, players: u64) -> Seq<
    StartView,
> {
    match row_at(rows, surface, game) {
        Some(i) => rows.update(
            i,
            StartView {
                totals: MatchTotals {
                    starts: bumped(rows[i].totals.starts),
                    players: raised_by(rows[i].totals.players, players),
                },
                ..rows[i]
            },
        ),
        None => rows.push(StartView { surface, game, totals: MatchTotals { starts: 1, players } }),
    }
}

/// What a match start does to the metrics, and what it publishes.
pub open spec fn start_points(m: MetricsView, surface: Seq<char>, game: Seq<char>, players: u64) -> (
    MetricsView,
    Seq<PointView>,
) {
    let (labels, label) = label_step(m.labels, game);
    let first = seq![per_game(false, "recomp_match_starts_total"@, surface, label, 1)];
    (
        MetricsView { labels, starts: with_start(m.starts, surface, label, players), ..m },
        if players > 0 {
            first.push(
                per_game(false, "recomp_match_players_total"@, surface, label, players as int),
            )
        } else {
            first
        },
    )
}

fn note_start(rows: &mut Vec<StartRow>, surface: &str, game: &str, players: u64)
    ensures
        final(rows)@.map_values(|s: StartRow| s@) == with_start(
            old(rows)@.map_values(|s: StartRow| s@),
            surface@,
            game@,
            players,
        ),
{
    let ghost all = rows@.map_values(|s: StartRow| s@);
    let ghost p = |s: StartView| s.surface == surface@ && s.game == game@;
    let n: usize = rows.len();
    let mut i: usize = 0;
    while i < n && !(same(rows[i].surface.as_str(), surface) && same(rows[i].game.as_str(), game))
        invariant
            i <= n,
            n == rows@.len(),
            all == rows@.map_values(|s: StartRow| s@),
            p == (|s: StartView| s.surface == surface@ && s.game == game@),
            forall|k: int| 0 <= k < i ==> !p(#[trigger] all[k]),
        decreases n - i,
    {
        proof {
            assert(all[i as int] == rows@[i as int]@);
        }
        i = i + 1;
    }
    if i == n {
        proof {
            crate::find::lemma_first_none(all, p);
        }
        let row = StartRow {
            surface: surface.to_owned(),
            game: game.to_owned(),
            totals: MatchTotals { starts: 1, players },
        };
        let ghost v = row@;
        rows.push(row);
        proof {
            assert(rows@.map_values(|s: StartRow| s@) =~= all.push(v));
        }
    } else {
        proof {
            assert(all[i as int] == rows@[i as int]@);
            crate::find::lemma_first_is(all, p, i as int);
        }
        let t = rows[i].totals;
        rows[i].totals = MatchTotals { starts: plus(t.starts, 1), players: plus(t.players, players) };
        proof {
            assert(rows@.map_values(|s: StartRow| s@) =~= all.update(
                i as int,
                StartView {
                    totals: MatchTotals {
                        starts: bumped(t.starts),
                        players: raised_by(t.players, players),
                    },
                    ..all[i as int]
                },
            ));
        }
    }
}

/// Records a match start on `surface` for `game` with `players` seated.
pub fn match_started(m: &mut Metrics, surface: &'static str, game: &str, players: usize) -> (r: Vec<
    Point,
>)
    ensures
        (final(m)@, points(r@)) == start_points(old(m)@, surface@, game@, players as u64),
{
    let label = m.labels.label(game);
    note_start(&mut m.starts, surface, label.as_str(), players as u64);
    let mut out = one(make_per_game(false, "recomp_match_starts_total", surface, label.as_str(), 1));
    if players > 0 {
        add_point(
            &mut out,
            make_per_game(
                false,
                "recomp_match_players_total",
                surface,
                label.as_str(),
                players as u64,
            ),
        );
    }
    proof {
        assert(m@ =~= start_points(old(m)@, surface@, game@, players as u64).0);
        assert(points(out@) =~= start_points(old(m)@, surface@, game@, players as u64).1);
    }
    out
}

/// The match starts of one surface.
pub open spec fn starts_on(rows: Seq<StartView>, surface: Seq<char>) -> Seq<(Seq<char>, MatchTotals)>
    decreases rows.len(),
{
    if rows.len() == 0 {
        Seq::empty()
    } else if rows.last().surface == surface {
        starts_on(rows.drop_last(), surface).push((rows.last().game, rows.last().totals))
    } else {
        starts_on(rows.drop_last(), surface)
    }
}

/// Lifetime match starts for one surface, each game label with its totals.
pub fn match_starts_by_game(m: &Metrics, surface: &str) -> (r: Vec<(String, MatchTotals)>)
    ensures
        r@.map_values(|x: (String, MatchTotals)| (x.0@, x.1)) == starts_on(m@.starts, surface@),
{
    let ghost all = m@.starts;
    let mut out: Vec<(String, MatchTotals)> = Vec::new();
    let mut i: usize = 0;
    proof {
        assert(all.take(0) =~= Seq::<StartView>::empty());
        assert(out@.map_values(|x: (String, MatchTotals)| (x.0@, x.1)) =~= Seq::<
            (Seq<char>, MatchTotals),
        >::empty());
    }
    while i < m.starts.len()
        invariant
            i <= m.starts@.len(),
            all == m@.starts,
            out@.map_values(|x: (String, MatchTotals)| (x.0@, x.1)) == starts_on(
                all.take(i as int),
                surface@,
            ),
        decreases m.starts@.len() - i,
    {
        proof {
            let t = all.take(i + 1);
            assert(t.drop_last() =~= all.take(i as int));
            assert(t.last() == m.starts@[i as int]@);
        }
        if same(m.starts[i].surface.as_str(), surface) {
            let ghost before = out@;
            let row = (m.starts[i].game.clone(), m.starts[i].totals);
            out.push(row);
            proof {
                assert(out@.map_values(|x: (String, MatchTotals)| (x.0@, x.1)) =~= before.map_values(
                    |x: (String, MatchTotals)| (x.0@, x.1),
                ).push((row.0@, row.1)));
            }
        }
        i = i + 1;
    }
    proof {
        assert(all.take(m.starts@.len() as int) =~= all);
    }
    out
}

// ---------------------------------------------------------- active matches

/// Whether a count is under a label.
pub open spec fn under(game: Seq<char>) -> spec_fn((Seq<char>, int)) -> bool {
    |x: (Seq<char>, int)| x.0 == game
}

pub open spec fn count_at(f: Seq<(Seq<char>, int)>, game: Seq<char>) -> Option<int> {
    crate::find::first_where(f, under(game))
}

/// The row under a label is the first of that label.
pub proof fn lemma_count_at(f: Seq<(Seq<char>, int)>, game: Seq<char>)
    ensures
        match count_at(f, game) {
            Some(i) => 0 <= i < f.len() && f[i].0 == game && forall|k: int|
                0 <= k < i ==> (#[trigger] f[k]).0 != game,
            None => forall|k: int| 0 <= k < f.len() ==> (#[trigger] f[k]).0 != game,
        },
{
    let p = under(game);
    crate::find::lemma_first_where(f, p);
    match count_at(f, game) {
        Some(i) => {
            assert(p(f[i]));
            assert forall|k: int| 0 <= k < i implies (#[trigger] f[k]).0 != game by {
                assert(!p(f[k]));
            }
        },
        None => {
            assert forall|k: int| 0 <= k < f.len() implies (#[trigger] f[k]).0 != game by {
                assert(!p(f[k]));
            }
        },
    }
}

/// The folded counts with `n` more of one label.
pub open spec fn folded_with(f: Seq<(Seq<char>, int)>, label: Seq<char>, n: int) -> Seq<
    (Seq<char>, int),
> {
    match count_at(f, label) {
        Some(i) => f.update(i, (label, f[i].1 + n)),
        None => f.push((label, n)),
    }
}

/// The counts by label, and the labels after they were asked for.
pub open spec fn folded(g: LabelsView, counts: Seq<(Seq<char>, int)>) -> (
    LabelsView,
    Seq<(Seq<char>, int)>,
)
    decreases counts.len(),
{
    if counts.len() == 0 {
        (g, Seq::empty())
    } else {
        let (g1, f) = folded(g, counts.drop_last());
        let (g2, label) = label_step(g1, counts.last().0);
        (g2, folded_with(f, label, counts.last().1))
    }
}

pub open spec fn sum_of(counts: Seq<(Seq<char>, int)>) -> int
    decreases counts.len(),
{
    if counts.len() == 0 {
        0
    } else {
        sum_of(counts.drop_last()) + counts.last().1
    }
}

/// The gauges of a surface that go to zero: published before, and not counted
/// now.
pub open spec fn zeroed(active: Seq<(Seq<char>, Seq<char>)>, surface: Seq<char>, f: Seq<(Seq<char>, int)>) -> Seq<
    PointView,
>
    decreases active.len(),
{
    if active.len() == 0 {
        Seq::empty()
    } else {
        let rest = zeroed(active.drop_last(), surface, f);
        if active.last().0 == surface && count_at(f, active.last().1) is None {
            rest.push(per_game(true, "recomp_matches_active"@, surface, active.last().1, 0))
        } else {
            rest
        }
    }
}

pub open spec fn active_points(surface: Seq<char>, f: Seq<(Seq<char>, int)>) -> Seq<PointView> {
    f.map_values(|x: (Seq<char>, int)| per_game(true, "recomp_matches_active"@, surface, x.0, x.1))
}

/// The labels published on other surfaces.
pub open spec fn elsewhere(active: Seq<(Seq<char>, Seq<char>)>, surface: Seq<char>) -> Seq<
    (Seq<char>, Seq<char>),
>
    decreases active.len(),
{
    if active.len() == 0 {
        Seq::empty()
    } else if active.last().0 != surface {
        elsewhere(active.drop_last(), surface).push(active.last())
    } else {
        elsewhere(active.drop_last(), surface)
    }
}

/// What live counts do to the metrics of a surface, and what they publish.
pub open spec fn active_step(m: MetricsView, surface: Seq<char>, counts: Seq<(Seq<char>, int)>) -> (
    MetricsView,
    Seq<PointView>,
) {
    let (labels, f) = folded(m.labels, counts);
    (
        MetricsView {
            labels,
            active: elsewhere(m.active, surface) + f.map_values(
                |x: (Seq<char>, int)| (surface, x.0),
            ),
            ..m
        },
        zeroed(m.active, surface, f) + active_points(surface, f),
    )
}

fn find_count(f: &Vec<GameCount>, game: &str) -> (r: Option<usize>)
    ensures
        match (r, count_at(counts_view(f@), game@)) {
            (Some(a), Some(b)) => a == b && a < f@.len(),
            (None, None) => true,
            _ => false,
        },
{
    let ghost all = counts_view(f@);
    let ghost p = under(game@);
    let mut i: usize = 0;
    while i < f.len()
        invariant
            i <= f@.len(),
            all == counts_view(f@),
            p == under(game@),
            forall|k: int| 0 <= k < i ==> !p(#[trigger] all[k]),
        decreases f@.len() - i,
    {
        proof {
            assert(all[i as int] == (f@[i as int].game@, f@[i as int].n as int));
        }
        if same(f[i].game.as_str(), game) {
            proof {
                crate::find::lemma_first_is(all, p, i as int);
            }
            return Some(i);
        }
        i = i + 1;
    }
    proof {
        crate::find::lemma_first_none(all, p);
    }
    None
}

proof fn lemma_sum_update(f: Seq<(Seq<char>, int)>, i: int, x: (Seq<char>, int))
    requires
        0 <= i < f.len(),
    ensures
        sum_of(f.update(i, x)) == sum_of(f) - f[i].1 + x.1,
    decreases f.len(),
{
    let u = f.update(i, x);
    if i == f.len() - 1 {
        assert(u.drop_last() =~= f.drop_last());
    } else {
        assert(u.drop_last() =~= f.drop_last().update(i, x));
        assert(u.last() == f.last());
        lemma_sum_update(f.drop_last(), i, x);
    }
}

proof fn lemma_sum_bound(f: Seq<(Seq<char>, int)>, i: int)
    requires
        0 <= i < f.len(),
        forall|k: int| 0 <= k < f.len() ==> (#[trigger] f[k]).1 >= 0,
    ensures
        sum_of(f) >= f[i].1,
        sum_of(f) >= 0,
    decreases f.len(),
{
    let d = f.drop_last();
    assert forall|k: int| 0 <= k < d.len() implies (#[trigger] d[k]).1 >= 0 by {
        assert(d[k] == f[k]);
    }
    assert(f.last() == f[f.len() - 1]);
    assert(sum_of(f) == sum_of(d) + f.last().1);
    if d.len() > 0 {
        let j = if i < d.len() {
            i
        } else {
            0
        };
        lemma_sum_bound(d, j);
        assert(d[j] == f[j]);
    }
}

proof fn lemma_sum_nonneg(f: Seq<(Seq<char>, int)>)
    requires
        forall|k: int| 0 <= k < f.len() ==> (#[trigger] f[k]).1 >= 0,
    ensures
        sum_of(f) >= 0,
{
    if f.len() > 0 {
        lemma_sum_bound(f, 0);
    }
}

proof fn lemma_sum_take(f: Seq<(Seq<char>, int)>, i: int)
    requires
        0 <= i <= f.len(),
        forall|k: int| 0 <= k < f.len() ==> (#[trigger] f[k]).1 >= 0,
    ensures
        sum_of(f.take(i)) <= sum_of(f),
    decreases f.len(),
{
    if i == f.len() {
        assert(f.take(i) =~= f);
    } else {
        let d = f.drop_last();
        assert forall|k: int| 0 <= k < d.len() implies (#[trigger] d[k]).1 >= 0 by {
            assert(d[k] == f[k]);
        }
        lemma_sum_take(d, i);
        assert(f.take(i) =~= d.take(i));
        assert(f.last() == f[f.len() - 1]);
    }
}

impl Metrics {
    fn fold_counts(&mut self, counts: &Vec<GameCount>) -> (r: Vec<GameCount>)
        requires
            sum_of(counts_view(counts@)) <= u64::MAX,
        ensures
            final(self)@ == (MetricsView {
                labels: folded(old(self)@.labels, counts_view(counts@)).0,
                ..old(self)@
            }),
            counts_view(r@) == folded(old(self)@.labels, counts_view(counts@)).1,
    {
        let ghost all = counts_view(counts@);
        let ghost start = self@;
        let mut f: Vec<GameCount> = Vec::new();
        let mut i: usize = 0;
        proof {
            assert(all.take(0) =~= Seq::<(Seq<char>, int)>::empty());
            assert(counts_view(f@) =~= Seq::<(Seq<char>, int)>::empty());
        }
        while i < counts.len()
            invariant
                i <= counts@.len(),
                all == counts_view(counts@),
                sum_of(all) <= u64::MAX,
                (self@.labels, counts_view(f@)) == folded(start.labels, all.take(i as int)),
                self@ == (MetricsView { labels: self@.labels, ..start }),
                sum_of(counts_view(f@)) == sum_of(all.take(i as int)),
            decreases counts@.len() - i,
        {
            let ghost fv = counts_view(f@);
            proof {
                let t = all.take(i + 1);
                assert(t.drop_last() =~= all.take(i as int));
                assert(t.last() == (counts@[i as int].game@, counts@[i as int].n as int));
                lemma_sum_take(all, i + 1);
                assert forall|k: int| 0 <= k < fv.len() implies (#[trigger] fv[k]).1 >= 0 by {}
                lemma_sum_nonneg(fv);
            }
            let label = self.labels.label(counts[i].game.as_str());
            let n: u64 = counts[i].n;
            match find_count(&f, label.as_str()) {
                Some(k) => {
                    proof {
                        lemma_sum_bound(fv, k as int);
                        assert(fv[k as int] == (f@[k as int].game@, f@[k as int].n as int));
                        lemma_sum_update(fv, k as int, (label@, fv[k as int].1 + n));
                        crate::find::lemma_first_where(fv, under(label@));
                    }
                    f[k].n = f[k].n + n;
                    proof {
                        assert(counts_view(f@) =~= fv.update(
                            k as int,
                            (label@, fv[k as int].1 + n),
                        ));
                    }
                },
                None => {
                    f.push(GameCount { game: label, n });
                    proof {
                        assert(counts_view(f@) =~= fv.push((label@, n as int)));
                        assert(counts_view(f@).drop_last() =~= fv);
                    }
                },
            }
            i = i + 1;
        }
        proof {
            assert(all.take(counts@.len() as int) =~= all);
        }
        f
    }
}

/// Publishes live in-match counts per game for one surface.
pub fn set_matches_by_game(m: &mut Metrics, surface: &'static str, counts: &Vec<GameCount>) -> (r:
    Vec<Point>)
    requires
        sum_of(counts_view(counts@)) <= u64::MAX,
    ensures
        (final(m)@, points(r@)) == active_step(old(m)@, surface@, counts_view(counts@)),
{
    let ghost start = m@;
    let f = m.fold_counts(counts);
    let ghost fv = counts_view(f@);
    let ghost av = m@.active;
    let mut out: Vec<Point> = Vec::new();
    let mut kept: Vec<ActiveLabel> = Vec::new();
    let mut i: usize = 0;
    proof {
        assert(av.take(0) =~= Seq::<(Seq<char>, Seq<char>)>::empty());
        assert(points(out@) =~= Seq::<PointView>::empty());
        assert(kept@.map_values(|a: ActiveLabel| (a.surface@, a.game@)) =~= Seq::<
            (Seq<char>, Seq<char>),
        >::empty());
    }
    while i < m.active.len()
        invariant
            i <= m.active@.len(),
            av == m@.active,
            fv == counts_view(f@),
            points(out@) == zeroed(av.take(i as int), surface@, fv),
            kept@.map_values(|a: ActiveLabel| (a.surface@, a.game@)) == elsewhere(
                av.take(i as int),
                surface@,
            ),
        decreases m.active@.len() - i,
    {
        proof {
            let t = av.take(i + 1);
            assert(t.drop_last() =~= av.take(i as int));
            assert(t.last() == (m.active@[i as int].surface@, m.active@[i as int].game@));
        }
        if same(m.active[i].surface.as_str(), surface) {
            if find_count(&f, m.active[i].game.as_str()).is_none() {
                add_point(
                    &mut out,
                    make_per_game(
                        true,
                        "recomp_matches_active",
                        surface,
                        m.active[i].game.as_str(),
                        0,
                    ),
                );
            }
        } else {
            let ghost before = kept@;
            let a = ActiveLabel {
                surface: m.active[i].surface.clone(),
                game: m.active[i].game.clone(),
            };
            kept.push(a);
            proof {
                assert(kept@.map_values(|a: ActiveLabel| (a.surface@, a.game@))
                    =~= before.map_values(|a: ActiveLabel| (a.surface@, a.game@)).push(
                    (a.surface@, a.game@),
                ));
            }
        }
        i = i + 1;
    }
    proof {
        assert(av.take(m.active@.len() as int) =~= av);
    }
    let ghost z = points(out@);
    let ghost e = kept@.map_values(|a: ActiveLabel| (a.surface@, a.game@));
    let ghost ap = active_points(surface@, fv);
    let ghost al = fv.map_values(|x: (Seq<char>, int)| (surface@, x.0));
    let mut j: usize = 0;
    proof {
        assert(z + ap.take(0) =~= z);
        assert(e + al.take(0) =~= e);
    }
    while j < f.len()
        invariant
            j <= f@.len(),
            fv == counts_view(f@),
            ap == active_points(surface@, fv),
            al == fv.map_values(|x: (Seq<char>, int)| (surface@, x.0)),
            points(out@) == z + ap.take(j as int),
            kept@.map_values(|a: ActiveLabel| (a.surface@, a.game@)) == e + al.take(j as int),
        decreases f@.len() - j,
    {
        add_point(
            &mut out,
            make_per_game(true, "recomp_matches_active", surface, f[j].game.as_str(), f[j].n),
        );
        let ghost before = kept@;
        let a = ActiveLabel { surface: surface.to_owned(), game: f[j].game.clone() };
        kept.push(a);
        proof {
            assert(fv[j as int] == (f@[j as int].game@, f@[j as int].n as int));
            assert(ap.take(j + 1) =~= ap.take(j as int).push(ap[j as int]));
            assert(al.take(j + 1) =~= al.take(j as int).push(al[j as int]));
            assert(z + ap.take(j + 1) =~= (z + ap.take(j as int)).push(ap[j as int]));
            assert(kept@.map_values(|a: ActiveLabel| (a.surface@, a.game@)) =~= before.map_values(
                |a: ActiveLabel| (a.surface@, a.game@),
            ).push((a.surface@, a.game@)));
            assert(e + al.take(j + 1) =~= (e + al.take(j as int)).push(al[j as int]));
        }
        j = j + 1;
    }
    proof {
        assert(ap.take(f@.len() as int) =~= ap);
        assert(al.take(f@.len() as int) =~= al);
    }
    m.active = kept;
    proof {
        assert(m@ =~= active_step(start, surface@, counts_view(counts@)).0);
    }
    out
}

// ----------------------------------------------------------- descriptions

/// What a series is.
pub struct Description {
    pub gauge: bool,
    pub name: &'static str,
    pub text: &'static str,
}

pub open spec fn descriptions() -> Seq<(bool, Seq<char>, Seq<char>)> {
    seq![
        (false, "recomp_ws_connects_total"@, "WebSocket lobby clients that completed welcome"@),
        (false, "recomp_ws_disconnects_total"@, "WebSocket lobby clients that disconnected"@),
        (false, "recomp_ws_lobby_creates_total"@, "Successful WebSocket lobby creates"@),
        (false, "recomp_ws_lobby_joins_total"@, "WebSocket lobby join attempts by result"@),
        (false, "recomp_ws_lobby_starts_total"@, "Successful WebSocket match starts"@),
        (false, "recomp_ws_lobby_destroys_total"@, "WebSocket lobbies destroyed"@),
        (false, "recomp_ws_signals_total"@, "WebSocket ICE signal relay messages"@),
        (false, "recomp_http_players_created_total"@, "HTTP /v1 players created"@),
        (false, "recomp_http_room_creates_total"@, "Successful HTTP /v1 room creates"@),
        (false, "recomp_http_room_joins_total"@, "HTTP /v1 room join attempts by result"@),
        (false, "recomp_http_room_starts_total"@, "HTTP /v1 rooms marked running"@),
        (false, "recomp_http_turn_credentials_total"@, "TURN credentials minted"@),
        (true, "recomp_ws_clients"@, "Currently connected WebSocket lobby clients"@),
        (true, "recomp_ws_lobbies"@, "Currently open WebSocket lobbies"@),
        (true, "recomp_ws_matches"@, "WebSocket lobbies that have started a match"@),
        (true, "recomp_http_rooms"@, "Currently open HTTP /v1 rooms"@),
        (true, "recomp_http_rooms_running"@, "HTTP /v1 rooms marked running"@),
        (false, "recomp_input_relay_sessions_opened_total"@, "Input-relay sessions allocated at match start"@),
        (false, "recomp_input_relay_sessions_closed_total"@, "Input-relay sessions closed (lobby destroy / rematch)"@),
        (false, "recomp_input_relay_forwards_total"@, "Datagrams successfully fan-out to peer seats"@),
        (false, "recomp_input_relay_drops_total"@, "Datagrams dropped by the input relay"@),
        (true, "recomp_input_relay_sessions"@, "Live input-relay sessions (allocated at launch)"@),
        (true, "recomp_input_relay_sessions_active"@, "Input-relay sessions with recent UDP from at least two seats"@),
        (false, "recomp_match_starts_total"@, "Matches started, by surface and bounded game label"@),
        (false, "recomp_match_players_total"@, "Seated players summed over match starts, by surface and game"@),
        (true, "recomp_matches_active"@, "Matches currently in progress, by surface and game"@),
    ]
}

fn describe_one(v: &mut Vec<Description>, gauge: bool, name: &'static str, text: &'static str)
    ensures
        final(v)@.map_values(|d: Description| (d.gauge, d.name@, d.text@)) == old(v)@.map_values(
            |d: Description| (d.gauge, d.name@, d.text@),
        ).push((gauge, name@, text@)),
{
    let ghost before = v@;
    v.push(Description { gauge, name, text });
    proof {
        assert(v@.map_values(|d: Description| (d.gauge, d.name@, d.text@)) =~= before.map_values(
            |d: Description| (d.gauge, d.name@, d.text@),
        ).push((gauge, name@, text@)));
    }
}

/// The series and what each of them is.
pub fn describe() -> (r: Vec<Description>)
    ensures
        r@.map_values(|d: Description| (d.gauge, d.name@, d.text@)) == descriptions(),
{
    let mut v: Vec<Description> = Vec::new();
    describe_one(
        &mut v,
        false,
        "recomp_ws_connects_total",
        "WebSocket lobby clients that completed welcome",
    );
    describe_one(
        &mut v,
        false,
        "recomp_ws_disconnects_total",
        "WebSocket lobby clients that disconnected",
    );
    describe_one(
        &mut v,
        false,
        "recomp_ws_lobby_creates_total",
        "Successful WebSocket lobby creates",
    );
    describe_one(
        &mut v,
        false,
        "recomp_ws_lobby_joins_total",
        "WebSocket lobby join attempts by result",
    );
    describe_one(
        &mut v,
        false,
        "recomp_ws_lobby_starts_total",
        "Successful WebSocket match starts",
    );
    describe_one(
        &mut v,
        false,
        "recomp_ws_lobby_destroys_total",
        "WebSocket lobbies destroyed",
    );
    describe_one(
        &mut v,
        false,
        "recomp_ws_signals_total",
        "WebSocket ICE signal relay messages",
    );
    describe_one(
        &mut v,
        false,
        "recomp_http_players_created_total",
        "HTTP /v1 players created",
    );
    describe_one(
        &mut v,
        false,
        "recomp_http_room_creates_total",
        "Successful HTTP /v1 room creates",
    );
    describe_one(
        &mut v,
        false,
        "recomp_http_room_joins_total",
        "HTTP /v1 room join attempts by result",
    );
    describe_one(
        &mut v,
        false,
        "recomp_http_room_starts_total",
        "HTTP /v1 rooms marked running",
    );
    describe_one(
        &mut v,
        false,
        "recomp_http_turn_credentials_total",
        "TURN credentials minted",
    );
    describe_one(
        &mut v,
        true,
        "recomp_ws_clients",
        "Currently connected WebSocket lobby clients",
    );
    describe_one(
        &mut v,
        true,
        "recomp_ws_lobbies",
        "Currently open WebSocket lobbies",
    );
    describe_one(
        &mut v,
        true,
        "recomp_ws_matches",
        "WebSocket lobbies that have started a match",
    );
    describe_one(
        &mut v,
        true,
        "recomp_http_rooms",
        "Currently open HTTP /v1 rooms",
    );
    describe_one(
        &mut v,
        true,
        "recomp_http_rooms_running",
        "HTTP /v1 rooms marked running",
    );
    describe_one(
        &mut v,
        false,
        "recomp_input_relay_sessions_opened_total",
        "Input-relay sessions allocated at match start",
    );
    describe_one(
        &mut v,
        false,
        "recomp_input_relay_sessions_closed_total",
        "Input-relay sessions closed (lobby destroy / rematch)",
    );
    describe_one(
        &mut v,
        false,
        "recomp_input_relay_forwards_total",
        "Datagrams successfully fan-out to peer seats",
    );
    describe_one(
        &mut v,
        false,
        "recomp_input_relay_drops_total",
        "Datagrams dropped by the input relay",
    );
    describe_one(
        &mut v,
        true,
        "recomp_input_relay_sessions",
        "Live input-relay sessions (allocated at launch)",
    );
    describe_one(
        &mut v,
        true,
        "recomp_input_relay_sessions_active",
        "Input-relay sessions with recent UDP from at least two seats",
    );
    describe_one(
        &mut v,
        false,
        "recomp_match_starts_total",
        "Matches started, by surface and bounded game label",
    );
    describe_one(
        &mut v,
        false,
        "recomp_match_players_total",
        "Seated players summed over match starts, by surface and game",
    );
    describe_one(
        &mut v,
        true,
        "recomp_matches_active",
        "Matches currently in progress, by surface and game",
    );
    proof {
        assert(v@.map_values(|d: Description| (d.gauge, d.name@, d.text@)) =~= descriptions());
    }
    v
}

// -------------------------------------------------------------- the events

pub fn ws_connected(m: &mut Metrics) -> (r: Vec<Point>)
    ensures
        final(m)@ == (MetricsView {
            totals: Totals { ws_connects: bumped(old(m)@.totals.ws_connects), ..old(m)@.totals },
            ..old(m)@
        }),
        points(r@) == seq![plain("recomp_ws_connects_total"@, 1)],
{
    m.totals.ws_connects = plus(m.totals.ws_connects, 1);
    one(make_plain(false, "recomp_ws_connects_total", 1))
}

pub fn ws_disconnected(m: &mut Metrics) -> (r: Vec<Point>)
    ensures
        final(m)@ == (MetricsView {
            totals: Totals { ws_disconnects: bumped(old(m)@.totals.ws_disconnects), ..old(m)@.totals },
            ..old(m)@
        }),
        points(r@) == seq![plain("recomp_ws_disconnects_total"@, 1)],
{
    m.totals.ws_disconnects = plus(m.totals.ws_disconnects, 1);
    one(make_plain(false, "recomp_ws_disconnects_total", 1))
}

pub fn ws_lobby_created(m: &mut Metrics) -> (r: Vec<Point>)
    ensures
        final(m)@ == (MetricsView {
            totals: Totals { ws_lobby_creates: bumped(old(m)@.totals.ws_lobby_creates), ..old(m)@.totals },
            ..old(m)@
        }),
        points(r@) == seq![plain("recomp_ws_lobby_creates_total"@, 1)],
{
    m.totals.ws_lobby_creates = plus(m.totals.ws_lobby_creates, 1);
    one(make_plain(false, "recomp_ws_lobby_creates_total", 1))
}

pub fn ws_lobby_destroyed(m: &mut Metrics) -> (r: Vec<Point>)
    ensures
        final(m)@ == (MetricsView {
            totals: Totals { ws_lobby_destroys: bumped(old(m)@.totals.ws_lobby_destroys), ..old(m)@.totals },
            ..old(m)@
        }),
        points(r@) == seq![plain("recomp_ws_lobby_destroys_total"@, 1)],
{
    m.totals.ws_lobby_destroys = plus(m.totals.ws_lobby_destroys, 1);
    one(make_plain(false, "recomp_ws_lobby_destroys_total", 1))
}

pub fn ws_signal_relayed(m: &mut Metrics) -> (r: Vec<Point>)
    ensures
        final(m)@ == (MetricsView {
            totals: Totals { ws_signals: bumped(old(m)@.totals.ws_signals), ..old(m)@.totals },
            ..old(m)@
        }),
        points(r@) == seq![plain("recomp_ws_signals_total"@, 1)],
{
    m.totals.ws_signals = plus(m.totals.ws_signals, 1);
    one(make_plain(false, "recomp_ws_signals_total", 1))
}

pub fn http_player_created(m: &mut Metrics) -> (r: Vec<Point>)
    ensures
        final(m)@ == (MetricsView {
            totals: Totals { http_players_created: bumped(old(m)@.totals.http_players_created), ..old(m)@.totals },
            ..old(m)@
        }),
        points(r@) == seq![plain("recomp_http_players_created_total"@, 1)],
{
    m.totals.http_players_created = plus(m.totals.http_players_created, 1);
    one(make_plain(false, "recomp_http_players_created_total", 1))
}

pub fn http_room_created(m: &mut Metrics) -> (r: Vec<Point>)
    ensures
        final(m)@ == (MetricsView {
            totals: Totals { http_room_creates: bumped(old(m)@.totals.http_room_creates), ..old(m)@.totals },
            ..old(m)@
        }),
        points(r@) == seq![plain("recomp_http_room_creates_total"@, 1)],
{
    m.totals.http_room_creates = plus(m.totals.http_room_creates, 1);
    one(make_plain(false, "recomp_http_room_creates_total", 1))
}

pub fn http_turn_credentials_issued(m: &mut Metrics) -> (r: Vec<Point>)
    ensures
        final(m)@ == (MetricsView {
            totals: Totals { http_turn_credentials: bumped(old(m)@.totals.http_turn_credentials), ..old(m)@.totals },
            ..old(m)@
        }),
        points(r@) == seq![plain("recomp_http_turn_credentials_total"@, 1)],
{
    m.totals.http_turn_credentials = plus(m.totals.http_turn_credentials, 1);
    one(make_plain(false, "recomp_http_turn_credentials_total", 1))
}

pub fn input_relay_session_opened(m: &mut Metrics) -> (r: Vec<Point>)
    ensures
        final(m)@ == (MetricsView {
            totals: Totals { input_relay_sessions_opened: bumped(old(m)@.totals.input_relay_sessions_opened), ..old(m)@.totals },
            ..old(m)@
        }),
        points(r@) == seq![plain("recomp_input_relay_sessions_opened_total"@, 1)],
{
    m.totals.input_relay_sessions_opened = plus(m.totals.input_relay_sessions_opened, 1);
    one(make_plain(false, "recomp_input_relay_sessions_opened_total", 1))
}

pub fn input_relay_session_closed(m: &mut Metrics) -> (r: Vec<Point>)
    ensures
        final(m)@ == (MetricsView {
            totals: Totals { input_relay_sessions_closed: bumped(old(m)@.totals.input_relay_sessions_closed), ..old(m)@.totals },
            ..old(m)@
        }),
        points(r@) == seq![plain("recomp_input_relay_sessions_closed_total"@, 1)],
{
    m.totals.input_relay_sessions_closed = plus(m.totals.input_relay_sessions_closed, 1);
    one(make_plain(false, "recomp_input_relay_sessions_closed_total", 1))
}

pub fn ws_lobby_join_ok(m: &mut Metrics) -> (r: Vec<Point>)
    ensures
        final(m)@ == (MetricsView {
            totals: Totals { ws_lobby_joins: bumped(old(m)@.totals.ws_lobby_joins), ..old(m)@.totals },
            ..old(m)@
        }),
        points(r@) == seq![tagged("recomp_ws_lobby_joins_total"@, "result"@, "ok"@)],
{
    m.totals.ws_lobby_joins = plus(m.totals.ws_lobby_joins, 1);
    one(make_tagged("recomp_ws_lobby_joins_total", "result", "ok"))
}

pub fn http_room_join_ok(m: &mut Metrics) -> (r: Vec<Point>)
    ensures
        final(m)@ == (MetricsView {
            totals: Totals { http_room_joins: bumped(old(m)@.totals.http_room_joins), ..old(m)@.totals },
            ..old(m)@
        }),
        points(r@) == seq![tagged("recomp_http_room_joins_total"@, "result"@, "ok"@)],
{
    m.totals.http_room_joins = plus(m.totals.http_room_joins, 1);
    one(make_tagged("recomp_http_room_joins_total", "result", "ok"))
}

pub fn ws_lobby_join_fail(m: &mut Metrics, code: &str) -> (r: Vec<Point>)
    ensures
        final(m)@ == (MetricsView {
            totals: Totals { ws_lobby_join_failures: bumped(old(m)@.totals.ws_lobby_join_failures), ..old(m)@.totals },
            ..old(m)@
        }),
        points(r@) == seq![tagged("recomp_ws_lobby_joins_total"@, "result"@, code@)],
{
    m.totals.ws_lobby_join_failures = plus(m.totals.ws_lobby_join_failures, 1);
    one(make_tagged("recomp_ws_lobby_joins_total", "result", code))
}

pub fn http_room_join_fail(m: &mut Metrics, code: &str) -> (r: Vec<Point>)
    ensures
        final(m)@ == (MetricsView {
            totals: Totals { http_room_join_failures: bumped(old(m)@.totals.http_room_join_failures), ..old(m)@.totals },
            ..old(m)@
        }),
        points(r@) == seq![tagged("recomp_http_room_joins_total"@, "result"@, code@)],
{
    m.totals.http_room_join_failures = plus(m.totals.http_room_join_failures, 1);
    one(make_tagged("recomp_http_room_joins_total", "result", code))
}

pub fn input_relay_drop(m: &mut Metrics, reason: &str) -> (r: Vec<Point>)
    ensures
        final(m)@ == (MetricsView {
            totals: Totals { input_relay_drops: bumped(old(m)@.totals.input_relay_drops), ..old(m)@.totals },
            ..old(m)@
        }),
        points(r@) == seq![tagged("recomp_input_relay_drops_total"@, "reason"@, reason@)],
{
    m.totals.input_relay_drops = plus(m.totals.input_relay_drops, 1);
    one(make_tagged("recomp_input_relay_drops_total", "reason", reason))
}

pub fn ws_lobby_started(m: &mut Metrics, game: &str, players: usize) -> (r: Vec<Point>)
    ensures
        ({
            let (after, ps) = start_points(old(m)@, SURFACE_WS@, game@, players as u64);
            &&& final(m)@ == (MetricsView {
                totals: Totals {
                    ws_lobby_starts: bumped(old(m)@.totals.ws_lobby_starts),
                    ..old(m)@.totals
                },
                ..after
            })
            &&& points(r@) == seq![plain("recomp_ws_lobby_starts_total"@, 1)] + ps
        }),
{
    m.totals.ws_lobby_starts = plus(m.totals.ws_lobby_starts, 1);
    let mut out = one(make_plain(false, "recomp_ws_lobby_starts_total", 1));
    let more = match_started(m, SURFACE_WS, game, players);
    let ghost added = points(more@);
    let ghost first = points(out@);
    let mut more = more;
    let ghost a = out@;
    let ghost b = more@;
    out.append(&mut more);
    proof {
        assert(points(out@) =~= first + added);
    }
    out
}

pub fn http_room_started(m: &mut Metrics, game: &str, players: usize) -> (r: Vec<Point>)
    ensures
        ({
            let (after, ps) = start_points(old(m)@, SURFACE_HTTP@, game@, players as u64);
            &&& final(m)@ == (MetricsView {
                totals: Totals {
                    http_room_starts: bumped(old(m)@.totals.http_room_starts),
                    ..old(m)@.totals
                },
                ..after
            })
            &&& points(r@) == seq![plain("recomp_http_room_starts_total"@, 1)] + ps
        }),
{
    m.totals.http_room_starts = plus(m.totals.http_room_starts, 1);
    let mut out = one(make_plain(false, "recomp_http_room_starts_total", 1));
    let more = match_started(m, SURFACE_HTTP, game, players);
    let ghost added = points(more@);
    let ghost first = points(out@);
    let mut more = more;
    let ghost a = out@;
    let ghost b = more@;
    out.append(&mut more);
    proof {
        assert(points(out@) =~= first + added);
    }
    out
}

pub fn input_relay_forwarded(m: &mut Metrics, n: u64) -> (r: Vec<Point>)
    ensures
        final(m)@ == (MetricsView {
            totals: Totals {
                input_relay_forwards: raised_by(old(m)@.totals.input_relay_forwards, n),
                ..old(m)@.totals
            },
            ..old(m)@
        }),
        points(r@) == (if n == 0 {
            Seq::empty()
        } else {
            seq![plain("recomp_input_relay_forwards_total"@, n as int)]
        }),
{
    if n == 0 {
        let r: Vec<Point> = Vec::new();
        proof {
            assert(points(r@) =~= Seq::<PointView>::empty());
        }
        return r;
    }
    m.totals.input_relay_forwards = plus(m.totals.input_relay_forwards, n);
    one(make_plain(false, "recomp_input_relay_forwards_total", n))
}

pub fn set_input_relay_sessions(n: usize) -> (r: Vec<Point>)
    ensures
        points(r@) == seq![level("recomp_input_relay_sessions"@, n as int)],
{
    one(make_plain(true, "recomp_input_relay_sessions", n as u64))
}

pub fn set_input_relay_sessions_active(n: usize) -> (r: Vec<Point>)
    ensures
        points(r@) == seq![level("recomp_input_relay_sessions_active"@, n as int)],
{
    one(make_plain(true, "recomp_input_relay_sessions_active", n as u64))
}

pub fn set_gauges(
    ws_clients: usize,
    ws_lobbies: usize,
    ws_matches: usize,
    http_rooms: usize,
    http_rooms_running: usize,
) -> (r: Vec<Point>)
    ensures
        points(r@) == seq![
            level("recomp_ws_clients"@, ws_clients as int),
            level("recomp_ws_lobbies"@, ws_lobbies as int),
            level("recomp_ws_matches"@, ws_matches as int),
            level("recomp_http_rooms"@, http_rooms as int),
            level("recomp_http_rooms_running"@, http_rooms_running as int),
        ],
{
    let mut out = one(make_plain(true, "recomp_ws_clients", ws_clients as u64));
    add_point(&mut out, make_plain(true, "recomp_ws_lobbies", ws_lobbies as u64));
    add_point(&mut out, make_plain(true, "recomp_ws_matches", ws_matches as u64));
    add_point(&mut out, make_plain(true, "recomp_http_rooms", http_rooms as u64));
    add_point(&mut out, make_plain(true, "recomp_http_rooms_running", http_rooms_running as u64));
    proof {
        assert(points(out@) =~= seq![
            level("recomp_ws_clients"@, ws_clients as int),
            level("recomp_ws_lobbies"@, ws_lobbies as int),
            level("recomp_ws_matches"@, ws_matches as int),
            level("recomp_http_rooms"@, http_rooms as int),
            level("recomp_http_rooms_running"@, http_rooms_running as int),
        ]);
    }
    out
}

/// The counters since the process started.
pub fn totals(m: &Metrics) -> (r: Totals)
    ensures
        r == m@.totals,
{
    m.totals
}

/// Everything the stats page shows.
pub struct StatsSnapshot {
    pub ws_clients: usize,
    pub ws_lobbies: usize,
    pub ws_lobbies_waiting: usize,
    pub ws_matches: usize,
    pub ws_lobbies_by_game: Vec<GameCount>,
    pub ws_matches_by_game: Vec<GameCount>,
    pub http_rooms: usize,
    pub http_rooms_running: usize,
    pub http_rooms_by_game: Vec<GameCount>,
    pub http_rooms_running_by_game: Vec<GameCount>,
    pub ws_match_starts_by_game: Vec<(String, MatchTotals)>,
    pub http_match_starts_by_game: Vec<(String, MatchTotals)>,
    pub input_relay_sessions: usize,
    pub input_relay_sessions_active: usize,
    pub totals: Totals,
}

/// The code of a refusal, as the `result` label has it.
pub open spec fn room_code(e: RoomError) -> Seq<char> {
    match e {
        RoomError::NotFound => "not_found"@,
        RoomError::Full => "full"@,
        RoomError::NotJoinable => "not_joinable"@,
        RoomError::BadJoinCode => "bad_join_code"@,
        RoomError::GameMismatch => "game_mismatch"@,
        RoomError::VersionMismatch => "version_mismatch"@,
        RoomError::AlreadyJoined => "already_joined"@,
        RoomError::NotMember => "not_member"@,
        RoomError::NotHost => "not_host"@,
        RoomError::BadSlotCount => "bad_slot_count"@,
        RoomError::GameNotAllowed => "game_not_allowed"@,
    }
}

pub fn room_error_code(e: &RoomError) -> (r: &'static str)
    ensures
        r@ == room_code(*e),
{
    match e {
        RoomError::NotFound => "not_found",
        RoomError::Full => "full",
        RoomError::NotJoinable => "not_joinable",
        RoomError::BadJoinCode => "bad_join_code",
        RoomError::GameMismatch => "game_mismatch",
        RoomError::VersionMismatch => "version_mismatch",
        RoomError::AlreadyJoined => "already_joined",
        RoomError::NotMember => "not_member",
        RoomError::NotHost => "not_host",
        RoomError::BadSlotCount => "bad_slot_count",
        RoomError::GameNotAllowed => "game_not_allowed",
    }
}

/// Counts an event of the lobby. Queue events have no series.
pub fn count_event(m: &mut Metrics, e: &Event) -> (r: Vec<Point>)
    ensures
        match e@ {
            EventView::LobbyCreated => final(m)@.totals == (Totals {
                ws_lobby_creates: bumped(old(m)@.totals.ws_lobby_creates),
                ..old(m)@.totals
            }) && points(r@) == seq![plain("recomp_ws_lobby_creates_total"@, 1)],
            EventView::LobbyDestroyed => final(m)@.totals == (Totals {
                ws_lobby_destroys: bumped(old(m)@.totals.ws_lobby_destroys),
                ..old(m)@.totals
            }) && points(r@) == seq![plain("recomp_ws_lobby_destroys_total"@, 1)],
            EventView::JoinOk => final(m)@.totals == (Totals {
                ws_lobby_joins: bumped(old(m)@.totals.ws_lobby_joins),
                ..old(m)@.totals
            }) && points(r@) == seq![tagged("recomp_ws_lobby_joins_total"@, "result"@, "ok"@)],
            EventView::JoinFail(code) => final(m)@.totals == (Totals {
                ws_lobby_join_failures: bumped(old(m)@.totals.ws_lobby_join_failures),
                ..old(m)@.totals
            }) && points(r@) == seq![tagged("recomp_ws_lobby_joins_total"@, "result"@, code)],
            EventView::Started(game, n) => final(m)@ == (MetricsView {
                totals: Totals {
                    ws_lobby_starts: bumped(old(m)@.totals.ws_lobby_starts),
                    ..old(m)@.totals
                },
                ..start_points(old(m)@, SURFACE_WS@, game, n as u64).0
            }) && points(r@) == seq![plain("recomp_ws_lobby_starts_total"@, 1)] + start_points(
                old(m)@,
                SURFACE_WS@,
                game,
                n as u64,
            ).1,
            EventView::SignalRelayed => final(m)@.totals == (Totals {
                ws_signals: bumped(old(m)@.totals.ws_signals),
                ..old(m)@.totals
            }) && points(r@) == seq![plain("recomp_ws_signals_total"@, 1)],
            EventView::TurnIssued => final(m)@.totals == (Totals {
                http_turn_credentials: bumped(old(m)@.totals.http_turn_credentials),
                ..old(m)@.totals
            }) && points(r@) == seq![plain("recomp_http_turn_credentials_total"@, 1)],
            _ => final(m)@ == old(m)@ && points(r@) == Seq::<PointView>::empty(),
        },
        !(e@ is Started) ==> final(m)@ == (MetricsView {
            totals: final(m)@.totals,
            ..old(m)@
        }),
{
    match e {
        Event::LobbyCreated => ws_lobby_created(m),
        Event::LobbyDestroyed => ws_lobby_destroyed(m),
        Event::JoinOk => ws_lobby_join_ok(m),
        Event::JoinFail(code) => ws_lobby_join_fail(m, code.as_str()),
        Event::Started(game, n) => ws_lobby_started(m, game.as_str(), *n),
        Event::SignalRelayed => ws_signal_relayed(m),
        Event::TurnIssued => http_turn_credentials_issued(m),
        _ => {
            let r: Vec<Point> = Vec::new();
            proof {
                assert(points(r@) =~= Seq::<PointView>::empty());
            }
            r
        },
    }
}

// -------------------------------------------------------------------- laws

/// Without an allowlist, asking for labels never makes more of them than the
/// limit; with one, never more than the allowlist named.
pub proof fn law_labels_stay_bounded(g: LabelsView, raw: Seq<char>)
    requires
        g.known.len() <= g.limit || g.strict,
    ensures
        ({
            let (g2, label) = label_step(g, raw);
            &&& g2.known.len() <= g2.limit || g2.strict
            &&& g.strict ==> g2 == g
            &&& g2.known.contains(label) || label == GAME_LABEL_OTHER@ || label
                == GAME_LABEL_UNKNOWN@
        }),
{
    let (g2, label) = label_step(g, raw);
    let n = normalized(raw);
    if g2.known.len() > g.known.len() {
        assert(g2.known[g2.known.len() - 1] == n);
    }
}

proof fn lemma_label_from_bound(s: Seq<char>, i: int, out: Seq<char>, after_sep: bool)
    requires
        out.len() <= GAME_LABEL_MAX_LEN,
        forall|k: int| 0 <= k < out.len() ==> label_letter(#[trigger] out[k]),
    ensures
        label_from(s, i, out, after_sep).len() <= GAME_LABEL_MAX_LEN,
        forall|k: int|
            0 <= k < label_from(s, i, out, after_sep).len() ==> label_letter(
                #[trigger] label_from(s, i, out, after_sep)[k],
            ),
    decreases s.len() - i,
{
    if i < s.len() && out.len() < GAME_LABEL_MAX_LEN {
        let c = label_char(s[i]);
        let next = if c == '_' && (after_sep || out.len() == 0) {
            out
        } else {
            out.push(c)
        };
        let sep = if c == '_' {
            if after_sep || out.len() == 0 {
                after_sep
            } else {
                true
            }
        } else {
            false
        };
        assert forall|k: int| 0 <= k < next.len() implies label_letter(#[trigger] next[k]) by {
            if k < out.len() {
                assert(next[k] == out[k]);
            }
        }
        lemma_label_from_bound(s, i + 1, next, sep);
    }
}

proof fn lemma_unpadded(s: Seq<char>)
    ensures
        unpadded(s).len() <= s.len(),
        forall|k: int| 0 <= k < unpadded(s).len() ==> (#[trigger] unpadded(s)[k]) == s[k],
    decreases s.len(),
{
    if s.len() > 0 && (s.last() == '_' || s.last() == '-' || s.last() == '.') {
        lemma_unpadded(s.drop_last());
    }
}

/// A character that a label may hold.
pub open spec fn label_letter(c: char) -> bool {
    is_digit(c) || is_lower(c) || c == '.' || c == '-' || c == '_'
}

/// Whatever a client sends, a label is short and holds nothing but
/// `[a-z0-9._-]`.
pub proof fn law_labels_are_safe(raw: Seq<char>)
    ensures
        normalized(raw).len() <= GAME_LABEL_MAX_LEN,
        forall|k: int| 0 <= k < normalized(raw).len() ==> label_letter(#[trigger] normalized(raw)[k]),
{
    let t = label_from(trimmed(raw), 0, Seq::empty(), false);
    lemma_label_from_bound(trimmed(raw), 0, Seq::empty(), false);
    lemma_unpadded(t);
    assert forall|k: int| 0 <= k < normalized(raw).len() implies label_letter(
        #[trigger] normalized(raw)[k],
    ) by {
        assert(unpadded(t)[k] == t[k]);
    }
}

} // verus!
