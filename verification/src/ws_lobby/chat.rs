//! Chat, names and reports.

use super::input::{if_nonempty, nonempty, or_empty, text_or_empty, InMsg};
use super::model::{
    game_scope_for, unique_display_name, ChatLine, ChatLineView, ClientView, HubInner, HubView,
    LobbyView, SlotView,
};
use super::seats::{lemma_with_lobby_wf, seated_name};
use super::wire::{
    effects, emit_lobby_update, list_msg, lobby_list_json_filtered, lobby_update, nothing, only,
    push_effect, refusal, refuse, send_all, send_to, sent, sent_all, DesyncReport, DesyncView,
    Effect, EffectView,
};
use crate::chat_filter::{apply, masked, ChatFilter, FilterView};
use crate::find::{first_where, lemma_first_is, lemma_first_none, lemma_first_where};
use crate::identity::Player;
use crate::json::{empty_object, Json, JsonView};
use crate::moderation::{ChatReport, ChatReportView, Submitted};
use crate::text::{
    cat3, clean, clean_line, hex_lower, join, joined, lemma_numeral_number, number, numeral,
    opt_view, same, trim, trimmed, views,
};
use vstd::prelude::*;
use vstd::string::*;

verus! {

/// How many relayed lines stay reportable.
pub const CHAT_RING_MAX: usize = 1000;

/// Preceding lines stored with a report.
pub const CHAT_CONTEXT_LINES: usize = 6;

/// Characters of a chat line.
pub const CHAT_MAX_CHARS: usize = 240;

// ----------------------------------------------------------------- the ring

/// The newest lines, as many as the ring holds.
pub open spec fn newest(ring: Seq<ChatLineView>) -> Seq<ChatLineView> {
    if ring.len() > CHAT_RING_MAX {
        ring.skip(ring.len() - CHAT_RING_MAX)
    } else {
        ring
    }
}

impl HubView {
    /// The id of the next line.
    pub open spec fn next_line_id(self) -> Seq<char> {
        numeral(self.next_chat_id as nat, 16)
    }

    /// The hub once a line was relayed.
    pub open spec fn remembering(self, line: ChatLineView) -> HubView {
        HubView {
            chat_ring: newest(self.chat_ring.push(line)),
            next_chat_id: if self.next_chat_id == u64::MAX {
                0
            } else {
                (self.next_chat_id + 1) as u64
            },
            ..self
        }
    }

    /// Where the line `mid` stands in the ring.
    pub open spec fn line_at(self, mid: Seq<char>) -> Option<int> {
        first_where(self.chat_ring, |l: ChatLineView| l.id == mid)
    }

    /// The lines before `at`, from `start` on, of the room that `line` was
    /// said in.
    pub open spec fn context_rows(self, start: int, at: int, line: ChatLineView) -> Seq<Seq<char>>
        decreases at - start,
    {
        if at <= start {
            Seq::empty()
        } else {
            let l = self.chat_ring[at - 1];
            let rest = self.context_rows(start, at - 1, line);
            if l.scope == line.scope && l.lobby_id == line.lobby_id {
                rest.push(l.from_name + ": "@ + l.text)
            } else {
                rest
            }
        }
    }

    /// The line `mid`, with what was said before it in the same room.
    pub open spec fn line_with_context(self, mid: Seq<char>) -> Option<(ChatLineView, Seq<char>)> {
        match self.line_at(mid) {
            Some(at) => {
                let line = self.chat_ring[at];
                let start = if at < CHAT_CONTEXT_LINES {
                    0
                } else {
                    at - CHAT_CONTEXT_LINES
                };
                Some((line, joined(self.context_rows(start, at, line), "\n"@)))
            },
            None => None,
        }
    }

    /// The ring's ids are the numbers given out so far, in rising order.
    pub open spec fn ring_ok(self) -> bool {
        &&& forall|i: int|
            0 <= i < self.chat_ring.len() ==> (#[trigger] self.chat_ring[i]).id == numeral(
                number(self.chat_ring[i].id, 16) as nat,
                16,
            ) && 0 <= number(self.chat_ring[i].id, 16) < self.next_chat_id
        &&& forall|i: int, j: int|
            0 <= i < j < self.chat_ring.len() ==> number((#[trigger] self.chat_ring[i]).id, 16)
                < number((#[trigger] self.chat_ring[j]).id, 16)
    }
}

impl HubInner {
    /// Records a relayed line and hands back its id, which goes out with the
    /// message so a client can later report exactly this one.
    pub fn remember_chat(
        &mut self,
        from_account: &str,
        from_name: &str,
        text: &str,
        scope: &str,
        lobby_id: &str,
        game_name: &str,
    ) -> (r: String)
        ensures
            r@ == old(self)@.next_line_id(),
            final(self)@ == old(self)@.remembering(
                ChatLineView {
                    id: r@,
                    from_account: from_account@,
                    from_name: from_name@,
                    text: text@,
                    scope: scope@,
                    lobby_id: lobby_id@,
                    game_name: game_name@,
                },
            ),
    {
        let id = hex_lower(self.next_chat_id);
        let line = ChatLine {
            id: id.clone(),
            from_account: from_account.to_owned(),
            from_name: from_name.to_owned(),
            text: text.to_owned(),
            scope: scope.to_owned(),
            lobby_id: lobby_id.to_owned(),
            game_name: game_name.to_owned(),
        };
        self.next_chat_id = if self.next_chat_id == u64::MAX {
            0
        } else {
            self.next_chat_id + 1
        };
        let ghost v = line@;
        self.chat_ring.push(line);
        let ghost full = old(self)@.chat_ring.push(v);
        let ghost h = self@;
        proof {
            assert(self@.chat_ring =~= full);
            assert(full.skip(0) =~= full);
        }
        let ghost mut dropped: int = 0;
        while self.chat_ring.len() > CHAT_RING_MAX
            invariant
                0 <= dropped <= full.len(),
                self@.chat_ring == full.skip(dropped),
                self@ == (HubView { chat_ring: full.skip(dropped), ..h }),
                dropped > 0 ==> self@.chat_ring.len() >= CHAT_RING_MAX,
                self.chat_ring@.len() == full.len() - dropped,
            decreases self.chat_ring@.len(),
        {
            let ghost before = self@.chat_ring;
            let _ = self.chat_ring.remove(0);
            proof {
                assert(self@.chat_ring =~= before.skip(1));
                assert(full.skip(dropped).skip(1) =~= full.skip(dropped + 1));
                dropped = dropped + 1;
                assert(self@ =~= (HubView { chat_ring: full.skip(dropped), ..h }));
            }
        }
        proof {
            assert(self@.chat_ring =~= newest(full));
            assert(self@ =~= old(self)@.remembering(v));
        }
        id
    }

    /// The reported line, plus the lines before it from the same room.
    pub fn chat_with_context<'a>(&'a self, message_id: &str) -> (r: Option<(&'a ChatLine, String)>)
        ensures
            match (r, self@.line_with_context(message_id@)) {
                (Some(a), Some(b)) => a.0@ == b.0 && a.1@ == b.1,
                (None, None) => true,
                _ => false,
            },
    {
        let ghost ring = self@.chat_ring;
        let mut at: usize = 0;
        while at < self.chat_ring.len() && !same(self.chat_ring[at].id.as_str(), message_id)
            invariant
                at <= self.chat_ring@.len(),
                ring == self@.chat_ring,
                forall|k: int| 0 <= k < at ==> (#[trigger] ring[k]).id != message_id@,
            decreases self.chat_ring@.len() - at,
        {
            proof {
                assert(ring[at as int] == self.chat_ring@[at as int]@);
            }
            at = at + 1;
        }
        if at == self.chat_ring.len() {
            proof {
                lemma_first_none(ring, |l: ChatLineView| l.id == message_id@);
            }
            return None;
        }
        proof {
            assert(ring[at as int] == self.chat_ring@[at as int]@);
            lemma_first_is(ring, |l: ChatLineView| l.id == message_id@, at as int);
        }
        let line = &self.chat_ring[at];
        let start: usize = if at < CHAT_CONTEXT_LINES {
            0
        } else {
            at - CHAT_CONTEXT_LINES
        };
        let mut rows: Vec<String> = Vec::new();
        let mut i: usize = start;
        proof {
            assert(views(rows@) =~= self@.context_rows(start as int, i as int, line@));
        }
        while i < at
            invariant
                start <= i <= at < self.chat_ring@.len(),
                ring == self@.chat_ring,
                views(rows@) == self@.context_rows(start as int, i as int, line@),
            decreases at - i,
        {
            proof {
                assert(ring[i as int] == self.chat_ring@[i as int]@);
            }
            let l = &self.chat_ring[i];
            if same(l.scope.as_str(), line.scope.as_str()) && same(
                l.lobby_id.as_str(),
                line.lobby_id.as_str(),
            ) {
                let row = cat3(l.from_name.as_str(), ": ", l.text.as_str());
                let ghost before = rows@;
                rows.push(row);
                proof {
                    assert(views(rows@) =~= views(before).push(row@));
                }
            }
            i = i + 1;
        }
        Some((line, join(&rows, "\n")))
    }
}

/// Relaying a line keeps the ids rising, and the line is then found under the
/// id that went out with it, as the server relayed it.
pub proof fn law_relayed_line_is_found(h: HubView, line: ChatLineView)
    requires
        h.ring_ok(),
        h.next_chat_id < u64::MAX,
        line.id == h.next_line_id(),
    ensures
        h.remembering(line).ring_ok(),
        h.remembering(line).line_with_context(line.id) is Some,
        (h.remembering(line).line_with_context(line.id)->0).0 == line,
{
    let h2 = h.remembering(line);
    let full = h.chat_ring.push(line);
    lemma_numeral_number(h.next_chat_id as nat, 16);
    let d = full.len() - h2.chat_ring.len();
    assert forall|i: int| 0 <= i < h2.chat_ring.len() implies (#[trigger] h2.chat_ring[i])
        == full[i + d] by {}
    assert forall|i: int| 0 <= i < h2.chat_ring.len() implies (
    #[trigger] h2.chat_ring[i]).id == numeral(number(h2.chat_ring[i].id, 16) as nat, 16) && 0
        <= number(h2.chat_ring[i].id, 16) < h2.next_chat_id by {
        if i + d < h.chat_ring.len() {
            assert(full[i + d] == h.chat_ring[i + d]);
        }
    }
    assert forall|i: int, j: int| 0 <= i < j < h2.chat_ring.len() implies number(
        (#[trigger] h2.chat_ring[i]).id,
        16,
    ) < number((#[trigger] h2.chat_ring[j]).id, 16) by {
        assert(full[i + d] == h.chat_ring[i + d]);
        if j + d < h.chat_ring.len() {
            assert(full[j + d] == h.chat_ring[j + d]);
        }
    }
    let last = h2.chat_ring.len() - 1;
    assert(h2.chat_ring[last] == line);
    assert forall|k: int| 0 <= k < last implies (#[trigger] h2.chat_ring[k]).id != line.id by {
        assert(number(h2.chat_ring[k].id, 16) < number(h2.chat_ring[last].id, 16));
    }
    lemma_first_is(h2.chat_ring, |l: ChatLineView| l.id == line.id, last);
}

/// The ring never holds more than its size.
pub proof fn law_ring_is_bounded(h: HubView, line: ChatLineView)
    ensures
        h.remembering(line).chat_ring.len() <= CHAT_RING_MAX,
{
}

/// Two lines never share an id while the counter has not run through.
pub proof fn law_line_ids_differ(a: HubView, b: HubView)
    requires
        a.next_chat_id != b.next_chat_id,
    ensures
        a.next_line_id() != b.next_line_id(),
{
    lemma_numeral_number(a.next_chat_id as nat, 16);
    lemma_numeral_number(b.next_chat_id as nat, 16);
}

/// A line whose id has left the ring is found no more.
pub proof fn law_aged_line_is_gone(h: HubView, mid: Seq<char>)
    requires
        forall|i: int| 0 <= i < h.chat_ring.len() ==> (#[trigger] h.chat_ring[i]).id != mid,
    ensures
        h.line_with_context(mid) is None,
{
    lemma_first_none(h.chat_ring, |l: ChatLineView| l.id == mid);
}

// --------------------------------------------------------------- lobby chat

/// A line as it is relayed: one clean line, masked.
pub open spec fn relayed_text(filter: FilterView, text: Seq<char>) -> Seq<char> {
    masked(filter, clean_line(text, CHAT_MAX_CHARS as int))
}

pub open spec fn chat_msg(
    lid: Seq<char>,
    mid: Seq<char>,
    id: Seq<char>,
    account: Seq<char>,
    from: Seq<char>,
    text: Seq<char>,
) -> JsonView {
    empty_object().with("op"@, JsonView::Str("chat"@)).with("lobby_id"@, JsonView::Str(lid)).with(
        "mid"@,
        JsonView::Str(mid),
    ).with("from_player_id"@, JsonView::Str(id)).with("from_account"@, JsonView::Str(account)).with(
        "from"@,
        JsonView::Str(from),
    ).with("text"@, JsonView::Str(text))
}

pub open spec fn chat_step(h: HubView, filter: FilterView, id: Seq<char>, raw: Seq<char>) -> (
    HubView,
    Seq<EffectView>,
) {
    if clean_line(raw, CHAT_MAX_CHARS as int).len() == 0 {
        (h, Seq::empty())
    } else {
        let text = relayed_text(filter, raw);
        match h.lobby_id_of(id) {
            None => (h, refusal(id, "not_in_lobby"@)),
            Some(lid) => match h.lobby(lid) {
                None => (h, Seq::empty()),
                Some(l) => match l.seat_of(id) {
                    None => (h, Seq::empty()),
                    Some(_) => {
                        let account = h.account_of(id);
                        let from = seated_name(l, id);
                        let mid = h.next_line_id();
                        (
                            h.remembering(
                                ChatLineView {
                                    id: mid,
                                    from_account: account,
                                    from_name: from,
                                    text,
                                    scope: "lobby"@,
                                    lobby_id: lid,
                                    game_name: match h.client(id) {
                                        Some(c) => c.game_name,
                                        None => Seq::empty(),
                                    },
                                },
                            ),
                            sent_all(l.member_ids(), chat_msg(lid, mid, id, account, from, text)),
                        )
                    },
                },
            },
        }
    }
}

impl HubInner {
    /// One line from a seated client, echoed to everyone seated including the
    /// sender.
    pub fn handle_chat(&mut self, filter: &ChatFilter, player_id: &str, msg: &InMsg) -> (r: Vec<
        Effect,
    >)
        requires
            old(self)@.wf(),
            filter@.wf(),
        ensures
            final(self)@.wf(),
            (final(self)@, effects(r@)) == chat_step(
                old(self)@,
                filter@,
                player_id@,
                text_or_empty(msg.text),
            ),
    {
        let raw = or_empty(&msg.text);
        let line = clean(raw.as_str(), CHAT_MAX_CHARS);
        if line.as_str().is_empty() {
            return nothing();
        }
        let text = apply(filter, line.as_str());
        let lid = match self.lobby_id_of(player_id) {
            Some(l) => l,
            None => {
                return refuse(player_id, "not_in_lobby");
            },
        };
        let (ids, from) = match self.lobby(lid.as_str()) {
            None => {
                return nothing();
            },
            Some(lobby) => match lobby.seat_of(player_id) {
                None => {
                    return nothing();
                },
                Some(s) => {
                    let from: String = match lobby.seat(s) {
                        Some(c) => match c {
                            Some(x) => x.display_name.clone(),
                            None => String::new(),
                        },
                        None => String::new(),
                    };
                    (lobby.member_ids(), from)
                },
            },
        };
        let account = self.account_of(player_id);
        let game: String = match self.client(player_id) {
            Some(c) => c.game_name.clone(),
            None => String::new(),
        };
        let mid = self.remember_chat(
            account.as_str(),
            from.as_str(),
            text.as_str(),
            "lobby",
            lid.as_str(),
            game.as_str(),
        );
        let fwd = Json::object().with("op", Json::text("chat")).with(
            "lobby_id",
            Json::text(lid.as_str()),
        ).with("mid", Json::text(mid.as_str())).with("from_player_id", Json::text(player_id)).with(
            "from_account",
            Json::text(account.as_str()),
        ).with("from", Json::text(from.as_str())).with("text", Json::text(text.as_str()));
        let mut out = nothing();
        send_all(&mut out, &ids, &fwd);
        proof {
            assert(effects(out@) =~= sent_all(views(ids@), fwd@));
        }
        out
    }
}

// -------------------------------------------------------------- server chat

impl HubView {
    /// The hub with the title `game` on the client `id`, where one is given.
    pub open spec fn playing(self, id: Seq<char>, game: Option<Seq<char>>) -> HubView {
        match (game, self.client(id)) {
            (Some(g), Some(c)) => self.with_client(id, ClientView { game_name: g, ..c }),
            _ => self,
        }
    }

    /// Who hears what is said about `scope`: every client of that title.
    pub open spec fn audience(self, scope: Seq<char>, n: int) -> Seq<Seq<char>>
        decreases n,
    {
        if n <= 0 || n > self.clients.len() {
            Seq::empty()
        } else {
            let c = self.clients[n - 1];
            let rest = self.audience(scope, n - 1);
            if self.game_scope(c.player_id) == scope {
                rest.push(c.player_id)
            } else {
                rest
            }
        }
    }
}

impl HubInner {
    pub fn set_game(&mut self, id: &str, game: Option<String>)
        ensures
            final(self)@ == old(self)@.playing(id@, opt_view(game)),
            final(self)@.lobbies == old(self)@.lobbies,
    {
        match game {
            Some(g) => match self.client_index(id) {
                Some(i) => {
                    self.client_mut(i).game_name = g;
                },
                None => {},
            },
            None => {},
        }
    }

    fn audience(&self, scope: &str) -> (r: Vec<String>)
        ensures
            views(r@) == self@.audience(scope@, self@.clients.len() as int),
    {
        let mut out: Vec<String> = Vec::new();
        let mut i: usize = 0;
        proof {
            assert(views(out@) =~= self@.audience(scope@, 0));
        }
        while i < self.clients.len()
            invariant
                i <= self.clients@.len(),
                views(out@) == self@.audience(scope@, i as int),
            decreases self.clients@.len() - i,
        {
            proof {
                assert(self@.clients[i as int] == self.clients@[i as int]@);
            }
            let s = game_scope_for(self, self.clients[i].player_id.as_str());
            if same(s.as_str(), scope) {
                let ghost before = out@;
                let id = self.clients[i].player_id.clone();
                out.push(id);
                proof {
                    assert(views(out@) =~= views(before).push(id@));
                }
            }
            i = i + 1;
        }
        out
    }
}

pub open spec fn server_chat_msg(
    scope: Seq<char>,
    mid: Seq<char>,
    id: Seq<char>,
    account: Seq<char>,
    from: Seq<char>,
    country: Seq<char>,
    text: Seq<char>,
) -> JsonView {
    empty_object().with("op"@, JsonView::Str("server_chat"@)).with(
        "game_name"@,
        JsonView::Str(scope),
    ).with("mid"@, JsonView::Str(mid)).with("from_player_id"@, JsonView::Str(id)).with(
        "from_account"@,
        JsonView::Str(account),
    ).with("from"@, JsonView::Str(from)).with("country"@, JsonView::Str(country)).with(
        "text"@,
        JsonView::Str(text),
    )
}

pub open spec fn server_chat_step(
    h: HubView,
    filter: FilterView,
    id: Seq<char>,
    raw: Seq<char>,
    game: Option<Seq<char>>,
) -> (HubView, Seq<EffectView>) {
    if clean_line(raw, CHAT_MAX_CHARS as int).len() == 0 {
        (h, Seq::empty())
    } else {
        let text = relayed_text(filter, raw);
        let h1 = h.playing(id, nonempty(game));
        let scope = h1.game_scope(id);
        if scope.len() == 0 {
            (h1, refusal(id, "no_game"@))
        } else {
            let h2 = if h1.client(id)->0.game_name.len() == 0 {
                h1.playing(id, Some(scope))
            } else {
                h1
            };
            let c = h2.client(id)->0;
            let mid = h2.next_line_id();
            (
                h2.remembering(
                    ChatLineView {
                        id: mid,
                        from_account: c.account_id(),
                        from_name: c.display_name,
                        text,
                        scope: "server"@,
                        lobby_id: ""@,
                        game_name: scope,
                    },
                ),
                sent_all(
                    h2.audience(scope, h2.clients.len() as int),
                    server_chat_msg(
                        scope,
                        mid,
                        id,
                        c.account_id(),
                        c.display_name,
                        c.country,
                        text,
                    ),
                ),
            )
        }
    }
}

/// Setting a client's title leaves it findable, with its name.
proof fn lemma_playing_client(h: HubView, id: Seq<char>, game: Seq<char>)
    requires
        h.client(id) is Some,
    ensures
        h.playing(id, Some(game)).client(id) == Some(
            ClientView { game_name: game, ..h.client(id)->0 },
        ),
{
    let p = |c: ClientView| c.player_id == id;
    lemma_first_where(h.clients, p);
    let i = h.client_at(id)->0;
    let n = h.playing(id, Some(game)).clients;
    assert forall|k: int| 0 <= k < i implies !p(#[trigger] n[k]) by {
        assert(!p(h.clients[k]));
    }
    lemma_first_is(n, p, i);
}

impl HubInner {
    /// Per-game chat outside any room: every client of the same title hears
    /// it, seated or not.
    pub fn handle_server_chat(&mut self, filter: &ChatFilter, player_id: &str, msg: &InMsg) -> (r:
        Vec<Effect>)
        requires
            old(self)@.wf(),
            filter@.wf(),
        ensures
            final(self)@.wf(),
            (final(self)@, effects(r@)) == server_chat_step(
                old(self)@,
                filter@,
                player_id@,
                text_or_empty(msg.text),
                opt_view(msg.game_name),
            ),
    {
        let raw = or_empty(&msg.text);
        let line = clean(raw.as_str(), CHAT_MAX_CHARS);
        if line.as_str().is_empty() {
            return nothing();
        }
        let text = apply(filter, line.as_str());
        self.set_game(player_id, if_nonempty(&msg.game_name));
        let ghost h1 = self@;
        let scope = game_scope_for(self, player_id);
        if scope.as_str().is_empty() {
            return refuse(player_id, "no_game");
        }
        let unset: bool = match self.client(player_id) {
            Some(c) => c.game_name.as_str().is_empty(),
            None => false,
        };
        proof {
            assert(h1.client(player_id@) is Some);
            lemma_playing_client(h1, player_id@, scope@);
        }
        if unset {
            self.set_game(player_id, Some(scope.clone()));
        }
        let (account, from, country) = match self.client(player_id) {
            Some(c) => (
                match &c.account {
                    Some(a) => a.id.clone(),
                    None => String::new(),
                },
                c.display_name.clone(),
                c.country.clone(),
            ),
            None => {
                return nothing();
            },
        };
        let ids = self.audience(scope.as_str());
        let mid = self.remember_chat(
            account.as_str(),
            from.as_str(),
            text.as_str(),
            "server",
            "",
            scope.as_str(),
        );
        let fwd = Json::object().with("op", Json::text("server_chat")).with(
            "game_name",
            Json::text(scope.as_str()),
        ).with("mid", Json::text(mid.as_str())).with("from_player_id", Json::text(player_id)).with(
            "from_account",
            Json::text(account.as_str()),
        ).with("from", Json::text(from.as_str())).with("country", Json::text(country.as_str())).with(
            "text",
            Json::text(text.as_str()),
        );
        let mut out = nothing();
        send_all(&mut out, &ids, &fwd);
        proof {
            assert(effects(out@) =~= sent_all(views(ids@), fwd@));
        }
        out
    }
}

/// Everybody who hears a line about a title is of that title.
pub proof fn law_audience_is_the_title(h: HubView, scope: Seq<char>, n: int)
    requires
        0 <= n <= h.clients.len(),
    ensures
        forall|i: int|
            0 <= i < h.audience(scope, n).len() ==> h.game_scope(
                #[trigger] h.audience(scope, n)[i],
            ) == scope,
    decreases n,
{
    if n > 0 {
        law_audience_is_the_title(h, scope, n - 1);
        let rest = h.audience(scope, n - 1);
        assert forall|i: int| 0 <= i < h.audience(scope, n).len() implies h.game_scope(
            #[trigger] h.audience(scope, n)[i],
        ) == scope by {
            if i < rest.len() {
                assert(h.audience(scope, n)[i] == rest[i]);
            }
        }
    }
}

// ----------------------------------------------------------------- identity

/// The seat row of the client `id` under a new name.
pub open spec fn renamed_seat(l: LobbyView, seat: int, name: Seq<char>) -> LobbyView {
    l.with_seat(seat, Some(SlotView { display_name: name, ..l.seat(seat)->0->0 }))
}

/// Gives a client its name and title. A seated client's name is made unique in
/// its room, and its row in the hub follows the seat. The last part is the
/// room that has to be told.
pub open spec fn identity_step(
    h: HubView,
    id: Seq<char>,
    name: Option<Seq<char>>,
    game: Option<Seq<char>>,
    tag: Seq<char>,
) -> (HubView, Seq<char>, Option<Seq<char>>) {
    let h1 = h.renamed(id, name).playing(id, game);
    let (h2, renamed_in) = match (name, h1.lobby_id_of(id)) {
        (Some(n), Some(lid)) => match h1.lobby(lid) {
            Some(l) => {
                let unique = l.unique_name(n, Some(id), tag);
                let (h3, told) = match l.seat_of(id) {
                    Some(seat) => if l.seat(seat)->0->0.display_name != unique {
                        (h1.with_lobby(lid, renamed_seat(l, seat, unique)), Some(lid))
                    } else {
                        (h1, None)
                    },
                    None => (h1, None),
                };
                (h3.renamed(id, Some(unique)), told)
            },
            None => (h1, None),
        },
        _ => (h1, None),
    };
    (
        h2,
        match h2.client(id) {
            Some(c) => c.display_name,
            None => Seq::empty(),
        },
        renamed_in,
    )
}

/// Applies an identity to a connected client.
pub fn apply_identity(
    g: &mut HubInner,
    player_id: &str,
    name: Option<String>,
    game: Option<String>,
    tag: &str,
) -> (r: (String, Option<String>))
    requires
        old(g)@.wf(),
    ensures
        final(g)@.wf(),
        (final(g)@, r.0@, opt_view(r.1)) == identity_step(
            old(g)@,
            player_id@,
            opt_view(name),
            opt_view(game),
            tag@,
        ),
{
    let mut told: Option<String> = None;
    g.rename_client(player_id, crate::text::clone_opt(&name));
    g.set_game(player_id, game);
    let ghost h1 = g@;
    if let Some(n) = name {
        if let Some(lid) = g.lobby_id_of(player_id) {
            if let Some(li) = g.lobby_index(lid.as_str()) {
                proof {
                    assert(g@.lobbies[li as int] == g.lobbies@[li as int]@);
                }
                let ghost l = g@.lobbies[li as int];
                let unique = unique_display_name(&g.lobbies[li], n.as_str(), Some(player_id), tag);
                if let Some(seat) = g.lobbies[li].seat_of(player_id) {
                    let differs: bool = match g.lobbies[li].seat(seat) {
                        Some(c) => match c {
                            Some(s) => !same(s.display_name.as_str(), unique.as_str()),
                            None => false,
                        },
                        None => false,
                    };
                    if differs {
                        let lobby = g.lobby_mut(li);
                        if let Some(mut s) = lobby.put_seat(seat, None) {
                            s.display_name = unique.clone();
                            let _ = lobby.put_seat(seat, Some(s));
                        }
                        proof {
                            let l2 = renamed_seat(l, seat as int, unique@);
                            assert(g@.lobbies[li as int] =~= l2);
                            assert(g@ =~= h1.with_lobby(lid@, l2));
                            lemma_with_lobby_wf(h1, lid@, l2);
                        }
                        told = Some(lid);
                    }
                }
                g.rename_client(player_id, Some(unique));
            }
        }
    }
    let accepted: String = match g.client(player_id) {
        Some(c) => c.display_name.clone(),
        None => String::new(),
    };
    (accepted, told)
}

/// What a `hello` brought along.
pub enum Login {
    /// No session: a guest, as always.
    Guest,
    /// A session that no key of ours signed.
    Invalid,
    /// A valid session for a row that is gone.
    Gone,
    Account(Player),
}

pub open spec fn hello_ok(name: Seq<char>) -> JsonView {
    empty_object().with("op"@, JsonView::Str("hello_ok"@)).with("ok"@, JsonView::Bool(true)).with(
        "display_name"@,
        JsonView::Str(name),
    )
}

pub open spec fn hello_step(h: HubView, id: Seq<char>, msg: InMsg, login: Login, tag: Seq<char>) -> (
    HubView,
    Seq<EffectView>,
) {
    let h1 = match (login, h.client(id)) {
        (Login::Account(p), Some(c)) => h.with_client(
            id,
            ClientView { account: Some(p@), ..c },
        ),
        _ => h,
    };
    let name = match login {
        Login::Account(p) => Some(p.handle@),
        _ => nonempty(opt_view(msg.display_name)),
    };
    let (h2, accepted, told) = identity_step(
        h1,
        id,
        name,
        nonempty(opt_view(msg.game_name)),
        tag,
    );
    (
        h2,
        (if login is Invalid {
            refusal(id, "session_invalid"@)
        } else {
            Seq::empty()
        }) + sent(id, hello_ok(accepted)) + (match told {
            Some(lid) => lobby_update(h2, lid),
            None => Seq::empty(),
        }),
    )
}

impl HubInner {
    /// The identity message: sent first, and again when the player renames. An
    /// account's handle is its name, whatever the client sent.
    pub fn handle_hello(&mut self, player_id: &str, msg: &InMsg, login: Login, tag: &str) -> (r: Vec<
        Effect,
    >)
        requires
            old(self)@.wf(),
        ensures
            final(self)@.wf(),
            (final(self)@, effects(r@)) == hello_step(
                old(self)@,
                player_id@,
                *msg,
                login,
                tag@,
            ),
    {
        let mut out = nothing();
        let name: Option<String> = match login {
            Login::Account(p) => {
                let handle = p.handle.clone();
                if let Some(i) = self.client_index(player_id) {
                    self.client_mut(i).account = Some(p);
                }
                Some(handle)
            },
            Login::Invalid => {
                send_to(&mut out, player_id, super::wire::am_err("session_invalid"));
                if_nonempty(&msg.display_name)
            },
            _ => if_nonempty(&msg.display_name),
        };
        let game = if_nonempty(&msg.game_name);
        let (accepted, told) = apply_identity(self, player_id, name, game, tag);
        send_to(
            &mut out,
            player_id,
            Json::object().with("op", Json::text("hello_ok")).with("ok", Json::flag(true)).with(
                "display_name",
                Json::text(accepted.as_str()),
            ),
        );
        if let Some(lid) = told {
            emit_lobby_update(&mut out, self, lid.as_str());
        }
        proof {
            assert(effects(out@) =~= hello_step(old(self)@, player_id@, *msg, login, tag@).1);
        }
        out
    }
}

/// The version filter of a list request.
pub open spec fn version_filter(v: Option<Seq<char>>) -> Option<Seq<char>> {
    match v {
        Some(s) => nonempty(Some(trimmed(s))),
        None => None,
    }
}

pub open spec fn list_step(
    h: HubView,
    id: Seq<char>,
    game: Option<Seq<char>>,
    version: Option<Seq<char>>,
) -> (HubView, Seq<EffectView>) {
    let h1 = h.playing(id, nonempty(game));
    (h1, sent(id, list_msg(h1, nonempty(game), version_filter(version))))
}

impl HubInner {
    /// The lobby list. The title a client lists for is the title it plays.
    pub fn handle_list(&mut self, player_id: &str, msg: &InMsg) -> (r: Vec<Effect>)
        requires
            old(self)@.wf(),
        ensures
            final(self)@.wf(),
            (final(self)@, effects(r@)) == list_step(
                old(self)@,
                player_id@,
                opt_view(msg.game_name),
                opt_view(msg.game_version),
            ),
    {
        let game = if_nonempty(&msg.game_name);
        self.set_game(player_id, crate::text::clone_opt(&game));
        let version: Option<String> = match &msg.game_version {
            Some(s) => {
                let t = trim(s.as_str());
                if t.as_str().is_empty() {
                    None
                } else {
                    Some(t)
                }
            },
            None => None,
        };
        let g: Option<&str> = match &game {
            Some(s) => Some(s.as_str()),
            None => None,
        };
        let v: Option<&str> = match &version {
            Some(s) => Some(s.as_str()),
            None => None,
        };
        let payload = lobby_list_json_filtered(self, g, v);
        only(player_id, payload)
    }
}

// ------------------------------------------------------------------ reports

/// The first sixteen ids that are not empty.
pub open spec fn named_ids(ids: Seq<Seq<char>>) -> Seq<Seq<char>>
    decreases ids.len(),
{
    if ids.len() == 0 {
        Seq::empty()
    } else {
        let rest = named_ids(ids.drop_last());
        if ids.last().len() == 0 || rest.len() >= 16 {
            rest
        } else {
            rest.push(ids.last())
        }
    }
}

/// The ids that a report names: the list, or else the single id.
pub open spec fn reported_ids(mids: Option<Seq<Seq<char>>>, mid: Option<Seq<char>>) -> Seq<Seq<char>> {
    let list = match mids {
        Some(v) => v,
        None => Seq::empty(),
    };
    if list.len() == 0 {
        match mid {
            Some(m) => named_ids(seq![m]),
            None => Seq::empty(),
        }
    } else {
        named_ids(list)
    }
}

fn keep_named(ids: &Vec<String>) -> (r: Vec<String>)
    ensures
        views(r@) == named_ids(views(ids@)),
{
    let ghost all = views(ids@);
    let mut out: Vec<String> = Vec::new();
    let mut i: usize = 0;
    proof {
        assert(all.take(0) =~= Seq::<Seq<char>>::empty());
        assert(views(out@) =~= Seq::<Seq<char>>::empty());
    }
    while i < ids.len()
        invariant
            i <= ids@.len(),
            all == views(ids@),
            views(out@) == named_ids(all.take(i as int)),
        decreases ids@.len() - i,
    {
        proof {
            let t = all.take(i + 1);
            assert(t.drop_last() =~= all.take(i as int));
            assert(t.last() == ids@[i as int]@);
        }
        if !ids[i].as_str().is_empty() && out.len() < 16 {
            let ghost before = out@;
            let id = ids[i].clone();
            out.push(id);
            proof {
                assert(views(out@) =~= views(before).push(id@));
            }
        }
        i = i + 1;
    }
    proof {
        assert(all.take(ids@.len() as int) =~= all);
    }
    out
}

pub open spec fn opt_views(o: Option<Vec<String>>) -> Option<Seq<Seq<char>>> {
    match o {
        Some(v) => Some(views(v@)),
        None => None,
    }
}

fn ids_of_report(msg: &InMsg) -> (r: Vec<String>)
    ensures
        views(r@) == reported_ids(opt_views(msg.mids), opt_view(msg.mid)),
{
    if let Some(v) = &msg.mids {
        if v.len() > 0 {
            return keep_named(v);
        }
    }
    let mut one: Vec<String> = Vec::new();
    match &msg.mid {
        Some(m) => {
            one.push(m.clone());
            proof {
                assert(views(one@) =~= seq![m@]);
            }
            keep_named(&one)
        },
        None => {
            proof {
                assert(views(one@) =~= Seq::<Seq<char>>::empty());
            }
            one
        },
    }
}

/// The lines of `ids` that are still in the ring, as a transcript.
pub open spec fn transcript_rows(h: HubView, ids: Seq<Seq<char>>) -> Seq<Seq<char>>
    decreases ids.len(),
{
    if ids.len() == 0 {
        Seq::empty()
    } else {
        let rest = transcript_rows(h, ids.drop_last());
        match h.line_with_context(ids.last()) {
            Some((l, _c)) => rest.push(l.from_name + ": "@ + l.text),
            None => rest,
        }
    }
}

fn transcript(h: &HubInner, ids: &Vec<String>) -> (r: Vec<String>)
    ensures
        views(r@) == transcript_rows(h@, views(ids@)),
        r@.len() <= ids@.len(),
{
    let ghost all = views(ids@);
    let mut out: Vec<String> = Vec::new();
    let mut i: usize = 0;
    proof {
        assert(all.take(0) =~= Seq::<Seq<char>>::empty());
        assert(views(out@) =~= Seq::<Seq<char>>::empty());
    }
    while i < ids.len()
        invariant
            i <= ids@.len(),
            out@.len() <= i,
            all == views(ids@),
            views(out@) == transcript_rows(h@, all.take(i as int)),
        decreases ids@.len() - i,
    {
        proof {
            let t = all.take(i + 1);
            assert(t.drop_last() =~= all.take(i as int));
            assert(t.last() == ids@[i as int]@);
        }
        if let Some((l, _)) = h.chat_with_context(ids[i].as_str()) {
            let ghost before = out@;
            let row = cat3(l.from_name.as_str(), ": ", l.text.as_str());
            out.push(row);
            proof {
                assert(views(out@) =~= views(before).push(row@));
            }
        }
        i = i + 1;
    }
    proof {
        assert(all.take(ids@.len() as int) =~= all);
    }
    out
}

/// What the server knows, or else what the client said.
pub open spec fn known_or(known: Seq<char>, said: Option<String>) -> Seq<char> {
    if known.len() == 0 {
        text_or_empty(said)
    } else {
        known
    }
}

fn prefer(known: &str, said: &Option<String>) -> (r: String)
    ensures
        r@ == known_or(known@, *said),
{
    if known.is_empty() {
        or_empty(said)
    } else {
        known.to_owned()
    }
}

/// The report that a `chat_report` files: the words are the server's own, the
/// reporter picks the lines and the category.
pub open spec fn filed_report(
    h: HubView,
    reporter: Seq<char>,
    line: ChatLineView,
    context: Seq<char>,
    ids: Seq<Seq<char>>,
    msg: InMsg,
) -> ChatReportView {
    ChatReportView {
        reporter_id: reporter,
        accused_id: line.from_account,
        message_id: line.id,
        message_text: line.text,
        accused_name: line.from_name,
        context,
        transcript: joined(transcript_rows(h, ids), "\n"@),
        message_count: transcript_rows(h, ids).len() as int,
        scope: known_or(line.scope, msg.scope),
        lobby_id: known_or(line.lobby_id, msg.lobby),
        game_name: known_or(line.game_name, msg.game),
        game_version: text_or_empty(msg.game_version),
        platform: text_or_empty(msg.platform),
        server: text_or_empty(msg.server),
        reason: text_or_empty(msg.reason),
        note: text_or_empty(msg.note),
    }
}

pub open spec fn report_step(h: HubView, id: Seq<char>, msg: InMsg) -> Seq<EffectView> {
    let ids = reported_ids(opt_views(msg.mids), opt_view(msg.mid));
    if ids.len() == 0 {
        refusal(id, "bad_report"@)
    } else {
        match h.client(id) {
            Some(c) => match c.account {
                Some(a) => match h.line_with_context(ids[0]) {
                    None => refusal(id, "message_expired"@),
                    Some((line, context)) => if line.from_account.len() == 0 || line.from_account
                        == a.id {
                        refusal(id, "cannot_report"@)
                    } else {
                        seq![
                            EffectView::Report {
                                from: id,
                                report: filed_report(h, a.id, line, context, ids, msg),
                            },
                        ]
                    },
                },
                None => refusal(id, "need_account"@),
            },
            None => refusal(id, "need_account"@),
        }
    }
}

impl HubInner {
    /// A player reporting somebody's chat line. Both ends need an account.
    pub fn handle_chat_report(&self, player_id: &str, msg: &InMsg) -> (r: Vec<Effect>)
        ensures
            effects(r@) == report_step(self@, player_id@, *msg),
    {
        let ids = ids_of_report(msg);
        if ids.len() == 0 {
            return refuse(player_id, "bad_report");
        }
        proof {
            assert(views(ids@)[0] == ids@[0]@);
        }
        let reporter: String = match self.client(player_id) {
            Some(c) => match &c.account {
                Some(a) => a.id.clone(),
                None => {
                    return refuse(player_id, "need_account");
                },
            },
            None => {
                return refuse(player_id, "need_account");
            },
        };
        let (line, context) = match self.chat_with_context(ids[0].as_str()) {
            Some(x) => x,
            None => {
                return refuse(player_id, "message_expired");
            },
        };
        if line.from_account.as_str().is_empty() || same(
            line.from_account.as_str(),
            reporter.as_str(),
        ) {
            return refuse(player_id, "cannot_report");
        }
        let rows = transcript(self, &ids);
        proof {
            lemma_named_len(match opt_views(msg.mids) {
                Some(v) => v,
                None => Seq::empty(),
            });
            if msg.mid is Some {
                lemma_named_len(seq![msg.mid->0@]);
            }
            assert(ids@.len() == views(ids@).len());
        }
        let report = ChatReport {
            reporter_id: reporter,
            accused_id: line.from_account.clone(),
            message_id: line.id.clone(),
            message_text: line.text.clone(),
            accused_name: line.from_name.clone(),
            context,
            transcript: join(&rows, "\n"),
            message_count: rows.len() as i64,
            scope: prefer(line.scope.as_str(), &msg.scope),
            lobby_id: prefer(line.lobby_id.as_str(), &msg.lobby),
            game_name: prefer(line.game_name.as_str(), &msg.game),
            game_version: or_empty(&msg.game_version),
            platform: or_empty(&msg.platform),
            server: or_empty(&msg.server),
            reason: or_empty(&msg.reason),
            note: or_empty(&msg.note),
        };
        let mut out = nothing();
        push_effect(&mut out, Effect::Report { from: player_id.to_owned(), report });
        proof {
            assert(views(rows@).len() == rows@.len());
            assert(effects(out@) =~= report_step(self@, player_id@, *msg));
        }
        out
    }
}

proof fn lemma_named_len(ids: Seq<Seq<char>>)
    ensures
        named_ids(ids).len() <= 16,
    decreases ids.len(),
{
    if ids.len() > 0 {
        lemma_named_len(ids.drop_last());
    }
}

/// The answer to a report once it was filed. A duplicate is answered like a
/// new one.
pub open spec fn report_answer(id: Seq<char>, mid: Seq<char>, outcome: Submitted) -> Seq<EffectView> {
    match outcome {
        Submitted::RateLimited => refusal(id, "rate_limited"@),
        Submitted::Failed => refusal(id, "report_failed"@),
        _ => sent(
            id,
            empty_object().with("op"@, JsonView::Str("chat_report_ok"@)).with(
                "ok"@,
                JsonView::Bool(true),
            ).with("mid"@, JsonView::Str(mid)),
        ),
    }
}

pub fn report_reply(player_id: &str, mid: &str, outcome: Submitted) -> (r: Vec<Effect>)
    ensures
        effects(r@) == report_answer(player_id@, mid@, outcome),
{
    match outcome {
        Submitted::RateLimited => refuse(player_id, "rate_limited"),
        Submitted::Failed => refuse(player_id, "report_failed"),
        _ => only(
            player_id,
            Json::object().with("op", Json::text("chat_report_ok")).with("ok", Json::flag(true)).with(
                "mid",
                Json::text(mid),
            ),
        ),
    }
}

pub open spec fn desync_step(h: HubView, id: Seq<char>, msg: InMsg) -> Seq<EffectView> {
    match h.client(id) {
        Some(c) => match c.account {
            Some(a) => seq![
                EffectView::Desync {
                    account: a.id,
                    desync: DesyncView {
                        lobby_id: text_or_empty(msg.lobby_id),
                        game_name: c.game_name,
                        game_version: text_or_empty(msg.game_version),
                        disc_fp: text_or_empty(msg.disc_fp),
                        tick: match msg.tick {
                            Some(t) => t,
                            None => 0,
                        },
                        partition: text_or_empty(msg.partition),
                        digest_mine: text_or_empty(msg.mine),
                        digest_theirs: text_or_empty(msg.theirs),
                        role: text_or_empty(msg.role),
                        mod_exempt: text_or_empty(msg.mod_exempt_text),
                    },
                },
            ],
            None => Seq::empty(),
        },
        None => Seq::empty(),
    }
}

impl HubInner {
    /// One peer reporting that the two simulations diverged. Stored, never
    /// judged; an anonymous report is dropped silently.
    pub fn handle_desync_report(&self, player_id: &str, msg: &InMsg) -> (r: Vec<Effect>)
        ensures
            effects(r@) == desync_step(self@, player_id@, *msg),
    {
        let (account, game_name) = match self.client(player_id) {
            Some(c) => match &c.account {
                Some(a) => (a.id.clone(), c.game_name.clone()),
                None => {
                    return nothing();
                },
            },
            None => {
                return nothing();
            },
        };
        let desync = DesyncReport {
            lobby_id: or_empty(&msg.lobby_id),
            game_name,
            game_version: or_empty(&msg.game_version),
            disc_fp: or_empty(&msg.disc_fp),
            tick: match msg.tick {
                Some(t) => t,
                None => 0,
            },
            partition: or_empty(&msg.partition),
            digest_mine: or_empty(&msg.mine),
            digest_theirs: or_empty(&msg.theirs),
            role: or_empty(&msg.role),
            mod_exempt: or_empty(&msg.mod_exempt_text),
        };
        let mut out = nothing();
        push_effect(&mut out, Effect::Desync { account, desync });
        proof {
            assert(effects(out@) =~= desync_step(self@, player_id@, *msg));
        }
        out
    }
}

/// A report is never filed against nobody, nor against its own reporter, and
/// its words are those that the ring holds.
pub proof fn law_reports_are_the_servers_words(h: HubView, id: Seq<char>, msg: InMsg)
    requires
        report_step(h, id, msg).len() == 1,
        report_step(h, id, msg)[0] is Report,
    ensures
        ({
            let r = report_step(h, id, msg)[0]->report;
            &&& r.accused_id.len() > 0
            &&& r.accused_id != r.reporter_id
            &&& exists|i: int|
                0 <= i < h.chat_ring.len() && (#[trigger] h.chat_ring[i]).id == r.message_id
                    && h.chat_ring[i].text == r.message_text && h.chat_ring[i].from_account
                    == r.accused_id
        }),
{
    let ids = reported_ids(opt_views(msg.mids), opt_view(msg.mid));
    lemma_first_where(h.chat_ring, |l: ChatLineView| l.id == ids[0]);
    let at = h.line_at(ids[0])->0;
    assert(h.chat_ring[at].id == ids[0]);
}

} // verus!
