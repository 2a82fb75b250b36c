//! Player identity and the handle a linked account starts with.

use crate::chat_filter::{ChatFilter, FilterView};
use crate::find::{first_where, lemma_first_where};
use crate::names::{acceptable, usable};
use crate::outside::{hex_of, new_uuid, parse_uuid, uuid_shape, uuid_text};
use crate::players::{generate_api_token, hash_api_token, token_digest};
use crate::text::{cat, chars_of, clone_opt, opt_view, string_of};
use crate::ws_lobby::input::{or_empty, text_or_empty};
use vstd::prelude::*;

verus! {

/// What a Discord login tells about an account.
pub struct DiscordProfile {
    /// The snowflake. The key.
    pub id: String,
    /// The unique `@handle`.
    pub username: String,
    /// Discord's display name. Absent on accounts that never set one.
    pub global_name: Option<String>,
    pub avatar: Option<String>,
}

/// A player as the lobby needs to see them. `id` is the text of the row's UUID.
pub struct Player {
    pub id: String,
    pub discord_id: String,
    pub discord_username: String,
    /// Names the account's picture; empty where it has none.
    pub avatar: String,
    /// The seat-table name.
    pub handle: String,
}

pub ghost struct PlayerView {
    pub id: Seq<char>,
    pub discord_id: Seq<char>,
    pub discord_username: Seq<char>,
    pub avatar: Seq<char>,
    pub handle: Seq<char>,
}

impl View for Player {
    type V = PlayerView;

    open spec fn view(&self) -> PlayerView {
        PlayerView {
            id: self.id@,
            discord_id: self.discord_id@,
            discord_username: self.discord_username@,
            avatar: self.avatar@,
            handle: self.handle@,
        }
    }
}

pub open spec fn opt_player(o: Option<Player>) -> Option<PlayerView> {
    match o {
        Some(p) => Some(p@),
        None => None,
    }
}

/// The last `n` characters of `s`, or all of them.
pub open spec fn last_chars(s: Seq<char>, n: int) -> Seq<char> {
    if s.len() <= n {
        s
    } else {
        s.skip(s.len() - n)
    }
}

/// The first of the two Discord names that may be used, or else a neutral name
/// made from the end of the snowflake.
pub open spec fn default_handle(
    filter: FilterView,
    global_name: Option<Seq<char>>,
    username: Seq<char>,
    id: Seq<char>,
) -> Seq<char> {
    match usable(filter, global_name) {
        Some(n) => n,
        None => match usable(filter, Some(username)) {
            Some(n) => n,
            None => "Player-"@ + last_chars(id, 4),
        },
    }
}

/// The handle a freshly linked account starts with.
pub fn default_handle_for(filter: &ChatFilter, p: &DiscordProfile) -> (r: String)
    requires
        filter@.wf(),
    ensures
        r@ == default_handle(filter@, opt_view(p.global_name), p.username@, p.id@),
{
    if let Some(n) = acceptable(filter, clone_opt(&p.global_name)) {
        return n;
    }
    if let Some(n) = acceptable(filter, Some(p.username.clone())) {
        return n;
    }
    let v = chars_of(p.id.as_str());
    let from: usize = if v.len() <= 4 {
        0
    } else {
        v.len() - 4
    };
    let tail = string_of(&v, from, v.len());
    proof {
        assert(tail@ =~= last_chars(p.id@, 4));
    }
    cat("Player-", tail.as_str())
}

/// The handle that a returning account keeps: the stored one where it is not
/// empty, the default otherwise. The flag says whether the default has to be
/// stored.
pub open spec fn returning_handle(stored: Option<Seq<char>>, default: Seq<char>) -> (
    Seq<char>,
    bool,
) {
    match stored {
        Some(h) => if h.len() == 0 {
            (default, true)
        } else {
            (h, false)
        },
        None => (default, true),
    }
}

/// The row that a Discord account already has.
pub struct StoredRow {
    pub id: String,
    pub handle: Option<String>,
}

/// What to write when a login was linked.
pub enum RowWrite {
    /// Refresh the cached Discord names of the row.
    Refresh,
    /// Refresh them, and store the handle: the row has none.
    RefreshHandle,
    /// Insert a row, with this digest of an API token that nobody is told.
    Insert(String),
}

/// A linked player, and what to write for it.
pub struct Linked {
    pub player: Player,
    pub write: RowWrite,
}

/// The player of a login under an id and with a handle.
pub open spec fn linked_player(id: Seq<char>, p: DiscordProfile, handle: Seq<char>) -> PlayerView {
    PlayerView {
        id,
        discord_id: p.id@,
        discord_username: p.username@,
        avatar: text_or_empty(p.avatar),
        handle,
    }
}

/// Whether linking `p` to the row that it has may end in `l`.
pub open spec fn links(
    filter: FilterView,
    p: DiscordProfile,
    existing: Option<StoredRow>,
    l: Linked,
) -> bool {
    let default = default_handle(filter, opt_view(p.global_name), p.username@, p.id@);
    match existing {
        Some(row) => {
            let (handle, store) = returning_handle(opt_view(row.handle), default);
            &&& uuid_text(row.id@) is Some
            &&& l.player@ == linked_player(uuid_text(row.id@)->0, p, handle)
            &&& l.write == (if store {
                RowWrite::RefreshHandle
            } else {
                RowWrite::Refresh
            })
        },
        None => {
            &&& uuid_shape(l.player@.id)
            &&& uuid_text(l.player@.id) == Some(l.player@.id)
            &&& l.player@ == linked_player(l.player@.id, p, default)
            &&& l.write matches RowWrite::Insert(h) && exists|bytes: Seq<u8>|
                bytes.len() == 32 && h@ == token_digest(#[trigger] hex_of(bytes))
        },
    }
}

/// Links a Discord login to a player row, which `existing` is where the
/// snowflake is known. Fails where the row's id is no UUID.
pub fn link_discord(filter: &ChatFilter, p: &DiscordProfile, existing: Option<StoredRow>) -> (r:
    Option<Linked>)
    requires
        filter@.wf(),
    ensures
        match r {
            Some(l) => links(filter@, *p, existing, l),
            None => existing is Some && uuid_text(existing->0.id@) is None,
        },
{
    match existing {
        Some(row) => {
            let id = match parse_uuid(row.id.as_str()) {
                Some(id) => id,
                None => {
                    return None;
                },
            };
            let (handle, store) = match row.handle {
                Some(h) => {
                    if h.as_str().is_empty() {
                        (default_handle_for(filter, p), true)
                    } else {
                        (h, false)
                    }
                },
                None => (default_handle_for(filter, p), true),
            };
            let write = if store {
                RowWrite::RefreshHandle
            } else {
                RowWrite::Refresh
            };
            Some(
                Linked {
                    player: Player {
                        id,
                        discord_id: p.id.clone(),
                        discord_username: p.username.clone(),
                        avatar: or_empty(&p.avatar),
                        handle,
                    },
                    write,
                },
            )
        },
        None => {
            let token = generate_api_token();
            let write = RowWrite::Insert(hash_api_token(token.as_str()));
            Some(
                Linked {
                    player: Player {
                        id: new_uuid(),
                        discord_id: p.id.clone(),
                        discord_username: p.username.clone(),
                        avatar: or_empty(&p.avatar),
                        handle: default_handle_for(filter, p),
                    },
                    write,
                },
            )
        },
    }
}

/// The handle to store when a player asks for `wanted`: a refused or empty one
/// leaves the old handle standing.
pub fn set_handle(filter: &ChatFilter, wanted: String) -> (r: Option<String>)
    requires
        filter@.wf(),
    ensures
        opt_view(r) == usable(filter@, Some(wanted@)),
{
    acceptable(filter, Some(wanted))
}

/// A login that comes back is the same player, and keeps a handle that it has,
/// whatever its Discord names are now.
pub proof fn law_link_keeps_the_player(
    filter: FilterView,
    p: DiscordProfile,
    row: StoredRow,
    l: Linked,
)
    requires
        links(filter, p, Some(row), l),
    ensures
        Some(l.player@.id) == uuid_text(row.id@),
        row.handle matches Some(h) ==> h@.len() > 0 ==> l.player@.handle == h@ && l.write
            == RowWrite::Refresh,
{
}

/// A default handle is never empty.
pub proof fn law_default_handle_nonempty(
    filter: FilterView,
    global_name: Option<Seq<char>>,
    username: Seq<char>,
    id: Seq<char>,
)
    ensures
        default_handle(filter, global_name, username, id).len() > 0,
{
    reveal_strlit("Player-");
}

// ------------------------------------------------------------- the table

/// A row of the players table, as far as a login reads or writes it.
#[verifier::ext_equal]
pub ghost struct RowView {
    pub id: Seq<char>,
    pub discord_id: Seq<char>,
    pub username: Seq<char>,
    pub avatar: Seq<char>,
    pub handle: Option<Seq<char>>,
}

/// Where the row of a Discord account stands.
pub open spec fn row_at(t: Seq<RowView>, discord_id: Seq<char>) -> Option<int> {
    first_where(t, |r: RowView| r.discord_id == discord_id)
}

/// Whether `existing` is what the table has for a Discord account.
pub open spec fn found(t: Seq<RowView>, discord_id: Seq<char>, existing: Option<StoredRow>) -> bool {
    match row_at(t, discord_id) {
        Some(i) => existing matches Some(row) && row.id@ == t[i].id && opt_view(row.handle)
            == t[i].handle,
        None => existing is None,
    }
}

/// The table once a link was written down.
pub open spec fn written(t: Seq<RowView>, l: Linked) -> Seq<RowView> {
    let p = l.player@;
    match (l.write, row_at(t, p.discord_id)) {
        (RowWrite::Insert(_), _) => t.push(
            RowView {
                id: p.id,
                discord_id: p.discord_id,
                username: p.discord_username,
                avatar: p.avatar,
                handle: Some(p.handle),
            },
        ),
        (RowWrite::Refresh, Some(i)) => t.update(
            i,
            RowView { username: p.discord_username, avatar: p.avatar, ..t[i] },
        ),
        (RowWrite::RefreshHandle, Some(i)) => t.update(
            i,
            RowView {
                username: p.discord_username,
                avatar: p.avatar,
                handle: Some(p.handle),
                ..t[i]
            },
        ),
        (_, None) => t,
    }
}

/// The table once the account of a login chose a handle.
pub open spec fn rehandled(t: Seq<RowView>, discord_id: Seq<char>, handle: Seq<char>) -> Seq<RowView> {
    match row_at(t, discord_id) {
        Some(i) => t.update(i, RowView { handle: Some(handle), ..t[i] }),
        None => t,
    }
}

proof fn lemma_row_at(t: Seq<RowView>, discord_id: Seq<char>)
    ensures
        match row_at(t, discord_id) {
            Some(i) => 0 <= i < t.len() && t[i].discord_id == discord_id && forall|k: int|
                0 <= k < i ==> (#[trigger] t[k]).discord_id != discord_id,
            None => forall|k: int| 0 <= k < t.len() ==> (#[trigger] t[k]).discord_id != discord_id,
        },
{
    lemma_first_where(t, |r: RowView| r.discord_id == discord_id);
}

/// A written link has a row, which names the player that was linked.
proof fn lemma_written(t: Seq<RowView>, filter: FilterView, p: DiscordProfile, existing: Option<
    StoredRow,
>, l: Linked)
    requires
        found(t, p.id@, existing),
        links(filter, p, existing, l),
    ensures
        row_at(written(t, l), p.id@) matches Some(i) && uuid_text(written(t, l)[i].id) == Some(
            l.player@.id,
        ) && written(t, l)[i].discord_id == p.id@,
        existing is Some ==> written(t, l).len() == t.len(),
        existing is None ==> written(t, l).len() == t.len() + 1,
{
    lemma_row_at(t, p.id@);
    let t1 = written(t, l);
    lemma_row_at(t1, p.id@);
    match row_at(t, p.id@) {
        Some(i) => {
            assert(t1[i].discord_id == p.id@);
            let j = row_at(t1, p.id@)->0;
            assert(t[j].discord_id == t1[j].discord_id);
            assert(j == i);
        },
        None => {
            assert(t1[t.len() as int].discord_id == p.id@);
            let j = row_at(t1, p.id@)->0;
            if j < t.len() {
                assert(t1[j] == t[j]);
            }
        },
    }
}

/// An account that logs in, chooses a handle and logs in again, whatever its
/// Discord names are by then, is the same player under the chosen handle, and
/// has no second row.
pub proof fn law_a_rename_keeps_identity_and_handle(
    filter: FilterView,
    t: Seq<RowView>,
    p1: DiscordProfile,
    e1: Option<StoredRow>,
    l1: Linked,
    wanted: Seq<char>,
    p2: DiscordProfile,
    e2: Option<StoredRow>,
    l2: Linked,
)
    requires
        found(t, p1.id@, e1),
        links(filter, p1, e1, l1),
        usable(filter, Some(wanted)) is Some,
        p2.id@ == p1.id@,
        ({
            let t2 = rehandled(written(t, l1), p1.id@, usable(filter, Some(wanted))->0);
            found(t2, p2.id@, e2)
        }),
        links(filter, p2, e2, l2),
    ensures
        ({
            let t2 = rehandled(written(t, l1), p1.id@, usable(filter, Some(wanted))->0);
            &&& l2.player@.id == l1.player@.id
            &&& l2.player@.discord_id == p1.id@
            &&& l2.player@.discord_username == p2.username@
            &&& Some(l2.player@.handle) == usable(filter, Some(wanted))
            &&& written(t2, l2).len() == written(t, l1).len()
        }),
{
    let chosen = usable(filter, Some(wanted))->0;
    let t1 = written(t, l1);
    let t2 = rehandled(t1, p1.id@, chosen);
    lemma_written(t, filter, p1, e1, l1);
    lemma_row_at(t1, p1.id@);
    lemma_row_at(t2, p1.id@);
    let i = row_at(t1, p1.id@)->0;
    assert(t2[i].discord_id == p1.id@);
    let j = row_at(t2, p1.id@)->0;
    assert(t1[j].discord_id == t2[j].discord_id);
    assert(j == i);
    assert(chosen.len() > 0);
    lemma_written(t2, filter, p2, e2, l2);
}

/// Whether no two rows are of one player.
pub open spec fn apart(t: Seq<RowView>) -> bool {
    forall|i: int, j: int|
        0 <= i < j < t.len() ==> uuid_text((#[trigger] t[i]).id) != uuid_text((#[trigger] t[j]).id)
}

/// Whether an id that was drawn for a new account is the id of no row. That a
/// drawn id is such a one is left to chance.
pub open spec fn drew_anew(t: Seq<RowView>, existing: Option<StoredRow>, l: Linked) -> bool {
    existing is None ==> forall|i: int|
        0 <= i < t.len() ==> uuid_text((#[trigger] t[i]).id) != Some(l.player@.id)
}

/// A link that is written down leaves the rows of different players.
pub proof fn law_a_link_keeps_players_apart(
    filter: FilterView,
    t: Seq<RowView>,
    p: DiscordProfile,
    existing: Option<StoredRow>,
    l: Linked,
)
    requires
        apart(t),
        found(t, p.id@, existing),
        links(filter, p, existing, l),
        drew_anew(t, existing, l),
    ensures
        apart(written(t, l)),
{
    lemma_row_at(t, p.id@);
    let t1 = written(t, l);
    assert forall|i: int, j: int| 0 <= i < j < t1.len() implies uuid_text((#[trigger] t1[i]).id)
        != uuid_text((#[trigger] t1[j]).id) by {
        assert(t1[i].id == t[i].id);
        if j < t.len() {
            assert(t1[j].id == t[j].id);
        }
    }
}

/// Two accounts, of which one logs in after the other, are two players, each of
/// them known before or new.
pub proof fn law_two_accounts_are_two_players(
    filter: FilterView,
    t: Seq<RowView>,
    p1: DiscordProfile,
    e1: Option<StoredRow>,
    l1: Linked,
    p2: DiscordProfile,
    e2: Option<StoredRow>,
    l2: Linked,
)
    requires
        apart(t),
        found(t, p1.id@, e1),
        links(filter, p1, e1, l1),
        drew_anew(t, e1, l1),
        found(written(t, l1), p2.id@, e2),
        links(filter, p2, e2, l2),
        drew_anew(written(t, l1), e2, l2),
        p1.id@ != p2.id@,
    ensures
        l1.player@.id != l2.player@.id,
{
    let t1 = written(t, l1);
    law_a_link_keeps_players_apart(filter, t, p1, e1, l1);
    lemma_written(t, filter, p1, e1, l1);
    lemma_row_at(t1, p1.id@);
    lemma_row_at(t1, p2.id@);
    let i = row_at(t1, p1.id@)->0;
    if e2 is Some {
        let j = row_at(t1, p2.id@)->0;
        assert(t1[i].discord_id != t1[j].discord_id);
    }
}

/// An account goes by its display name where that may be used, else by its user
/// name where that may be, and else by a neutral one with the last four digits
/// of its id.
pub proof fn law_the_first_usable_name_is_taken(
    filter: FilterView,
    global_name: Option<Seq<char>>,
    username: Seq<char>,
    id: Seq<char>,
)
    requires
        id.len() >= 4,
    ensures
        ({
            let shown = usable(filter, global_name);
            let user = usable(filter, Some(username));
            let handle = default_handle(filter, global_name, username, id);
            &&& shown is Some ==> handle == shown->0
            &&& shown is None && user is Some ==> handle == user->0
            &&& shown is None && user is None ==> handle == "Player-"@ + id.skip(id.len() - 4)
        }),
{
    if id.len() == 4 {
        assert(id.skip(0) =~= id);
    }
}

/// Who comes back keeps the handle that they chose, and gets one where they have
/// none.
pub proof fn law_a_chosen_handle_is_kept(stored: Option<Seq<char>>, default: Seq<char>)
    ensures
        stored is Some && stored->0.len() > 0 ==> returning_handle(stored, default) == (
            stored->0,
            false,
        ),
        stored is None || stored->0.len() == 0 ==> returning_handle(stored, default) == (
            default,
            true,
        ),
{
}

} // verus!
