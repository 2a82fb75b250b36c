//! The rulesets a deployment offers.

use super::floors::{flag_under, get_flag, get_signed, signed_under};
use crate::find::{first_where, lemma_first_is, lemma_first_none, lemma_first_where};
use crate::json::{empty_object, items_view, written, Json, JsonView};
use crate::text::{
    blank, byte_len, cat3, dec_signed, join, joined, longer_than, same, signed_decimal, trimmed, views,
};
use vstd::prelude::*;
use vstd::string::*;

verus! {

/// The ceiling of a caps object's text, the one a host's own caps have.
pub const MAX_CAPS_BYTES: usize = 4096;

/// One queue type: a stored caps object with an id and a label.
pub struct Ruleset {
    pub id: String,
    pub label: String,
    pub game_name: String,
    /// Pin. Empty: any release may queue into this ruleset.
    pub game_version: String,
    pub max_slots: usize,
    pub match_caps: Json,
    /// A short human line for the launcher's picker, derived at load.
    pub caps_summary: String,
    /// The frames of this title that a combined round trip of so many
    /// milliseconds needs.
    pub frames: Vec<u32>,
}

#[verifier::ext_equal]
pub ghost struct RulesetView {
    pub id: Seq<char>,
    pub label: Seq<char>,
    pub game_name: Seq<char>,
    pub game_version: Seq<char>,
    pub max_slots: usize,
    pub match_caps: JsonView,
    pub caps_summary: Seq<char>,
    pub frames: Seq<u32>,
}

impl View for Ruleset {
    type V = RulesetView;

    open spec fn view(&self) -> RulesetView {
        RulesetView {
            id: self.id@,
            label: self.label@,
            game_name: self.game_name@,
            game_version: self.game_version@,
            max_slots: self.max_slots,
            match_caps: self.match_caps@,
            caps_summary: self.caps_summary@,
            frames: self.frames@,
        }
    }
}

/// One entry of the rulesets file.
pub struct RulesetEntry {
    pub id: String,
    pub label: String,
    pub game_name: String,
    pub game_version: String,
    pub max_slots: usize,
    /// Null where the entry has none.
    pub match_caps: Json,
    pub frames: Vec<u32>,
}

#[verifier::ext_equal]
pub ghost struct EntryView {
    pub id: Seq<char>,
    pub label: Seq<char>,
    pub game_name: Seq<char>,
    pub game_version: Seq<char>,
    pub max_slots: usize,
    pub match_caps: JsonView,
    pub frames: Seq<u32>,
}

impl View for RulesetEntry {
    type V = EntryView;

    open spec fn view(&self) -> EntryView {
        EntryView {
            id: self.id@,
            label: self.label@,
            game_name: self.game_name@,
            game_version: self.game_version@,
            max_slots: self.max_slots,
            match_caps: self.match_caps@,
            frames: self.frames@,
        }
    }
}

/// Every ruleset a deployment offers, in the order of its file.
pub struct Rulesets {
    pub all: Vec<Ruleset>,
}

pub open spec fn rulesets_view(v: Seq<Ruleset>) -> Seq<RulesetView> {
    v.map_values(|r: Ruleset| r@)
}

impl View for Rulesets {
    type V = Seq<RulesetView>;

    open spec fn view(&self) -> Seq<RulesetView> {
        rulesets_view(self.all@)
    }
}

/// Whether `all` holds the ruleset `id` of a title.
pub open spec fn has(all: Seq<RulesetView>, game: Seq<char>, id: Seq<char>) -> bool {
    exists|i: int|
        0 <= i < all.len() && (#[trigger] all[i]).game_name == game && all[i].id == id
}

/// Why an entry is refused beside those that were taken before it.
pub open spec fn refusal_of(e: EntryView, seen: Seq<RulesetView>) -> Option<Seq<char>> {
    if trimmed(e.id).len() == 0 {
        Some("empty id"@)
    } else if trimmed(e.game_name).len() == 0 {
        Some("empty game_name"@)
    } else if has(seen, e.game_name, e.id) {
        Some("duplicate (game_name, id)"@)
    } else if e.max_slots != 2 {
        Some("max_slots must be 2 in v1"@)
    } else if !(e.match_caps is Null) && !e.match_caps.is_object() {
        Some("match_caps must be a table"@)
    } else if e.match_caps.get("mods"@) is Some {
        Some("match_caps.mods is not supported in v1 (vanilla only)"@)
    } else if byte_len(written(e.match_caps)) > MAX_CAPS_BYTES {
        Some("match_caps too large"@)
    } else {
        None
    }
}

/// What the picker says of the delay.
pub open spec fn delay_words(caps: JsonView) -> Seq<char> {
    match signed_under(caps, "input_delay"@) {
        Some(d) => "Delay "@ + signed_decimal(d) + "+"@,
        None => "Delay auto"@,
    }
}

/// The phrases of a summary: the delay, whether rollback runs, turbo loads.
pub open spec fn summary_parts(caps: JsonView) -> Seq<Seq<char>> {
    let base = seq![delay_words(caps)];
    let base = match flag_under(caps, "rollback"@) {
        Some(true) => base.push("Rollback on"@),
        Some(false) => base.push("Rollback off"@),
        None => base,
    };
    if flag_under(caps, "turbo_loads"@) == Some(true) {
        base.push("Turbo loads"@)
    } else {
        base
    }
}

pub open spec fn summary(caps: JsonView) -> Seq<char> {
    joined(summary_parts(caps), " - "@)
}

/// The ruleset of an entry.
pub open spec fn ruleset_of(e: EntryView) -> RulesetView {
    RulesetView {
        id: e.id,
        label: if e.label.len() == 0 {
            e.id
        } else {
            e.label
        },
        game_name: e.game_name,
        game_version: e.game_version,
        max_slots: e.max_slots,
        match_caps: e.match_caps,
        caps_summary: summary(e.match_caps),
        frames: e.frames,
    }
}

/// The rulesets of a file: its entries without those that are refused.
pub open spec fn loaded(entries: Seq<EntryView>) -> Seq<RulesetView>
    decreases entries.len(),
{
    if entries.len() == 0 {
        Seq::empty()
    } else {
        let before = loaded(entries.drop_last());
        if refusal_of(entries.last(), before) is None {
            before.push(ruleset_of(entries.last()))
        } else {
            before
        }
    }
}

/// The rulesets of one title.
pub open spec fn of_game(all: Seq<RulesetView>, game: Seq<char>) -> Seq<RulesetView>
    decreases all.len(),
{
    if all.len() == 0 {
        Seq::empty()
    } else if all.last().game_name == game {
        of_game(all.drop_last(), game).push(all.last())
    } else {
        of_game(all.drop_last(), game)
    }
}

/// Whether a request for `id`, empty for any, means this ruleset.
pub open spec fn answers(r: RulesetView, game: Seq<char>, id: Seq<char>) -> bool {
    r.game_name == game && (id.len() == 0 || r.id == id)
}

/// The ruleset that a request means.
pub open spec fn resolved(all: Seq<RulesetView>, game: Seq<char>, id: Seq<char>) -> Option<
    RulesetView,
> {
    match first_where(all, |r: RulesetView| answers(r, game, id)) {
        Some(i) => Some(all[i]),
        None => None,
    }
}

/// One row of the picker.
pub open spec fn ruleset_row(r: RulesetView) -> JsonView {
    empty_object().with("id"@, JsonView::Str(r.id)).with("label"@, JsonView::Str(r.label)).with(
        "caps_summary"@,
        JsonView::Str(r.caps_summary),
    ).with("game_version"@, JsonView::Str(r.game_version)).with(
        "max_slots"@,
        JsonView::Int(r.max_slots as int),
    ).with("match_caps"@, r.match_caps)
}

pub open spec fn ruleset_rows(rs: Seq<RulesetView>) -> Seq<JsonView> {
    rs.map_values(|r: RulesetView| ruleset_row(r))
}

/// The reply to `automatch_rulesets`.
pub open spec fn rulesets_msg(all: Seq<RulesetView>, game: Seq<char>) -> JsonView {
    empty_object().with("op"@, JsonView::Str("automatch_rulesets_ok"@)).with(
        "ok"@,
        JsonView::Bool(true),
    ).with("rulesets"@, JsonView::Arr(ruleset_rows(of_game(all, game))))
}

fn known(seen: &Vec<Ruleset>, game: &str, id: &str) -> (r: bool)
    ensures
        r == has(rulesets_view(seen@), game@, id@),
{
    let ghost all = rulesets_view(seen@);
    let mut i: usize = 0;
    while i < seen.len()
        invariant
            i <= seen@.len(),
            all == rulesets_view(seen@),
            forall|k: int|
                0 <= k < i ==> !((#[trigger] all[k]).game_name == game@ && all[k].id == id@),
        decreases seen@.len() - i,
    {
        proof {
            assert(all[i as int] == seen@[i as int]@);
        }
        if same(seen[i].game_name.as_str(), game) && same(seen[i].id.as_str(), id) {
            return true;
        }
        i = i + 1;
    }
    false
}

/// The load-time refusals, each one a thing that would otherwise fail later
/// and further away.
pub fn validate(e: &RulesetEntry, seen: &Vec<Ruleset>) -> (r: Result<(), &'static str>)
    ensures
        match (r, refusal_of(e@, rulesets_view(seen@))) {
            (Ok(()), None) => true,
            (Err(a), Some(b)) => a@ == b,
            _ => false,
        },
{
    if blank(e.id.as_str()) {
        return Err("empty id");
    }
    if blank(e.game_name.as_str()) {
        return Err("empty game_name");
    }
    if known(seen, e.game_name.as_str(), e.id.as_str()) {
        return Err("duplicate (game_name, id)");
    }
    if e.max_slots != 2 {
        return Err("max_slots must be 2 in v1");
    }
    match &e.match_caps {
        Json::Null => {},
        Json::Obj(_) => {},
        _ => {
            return Err("match_caps must be a table");
        },
    }
    if e.match_caps.get("mods").is_some() {
        return Err("match_caps.mods is not supported in v1 (vanilla only)");
    }
    let text = e.match_caps.write();
    if longer_than(text.as_str(), MAX_CAPS_BYTES) {
        return Err("match_caps too large");
    }
    Ok(())
}

/// A one-line human summary of caps for the launcher's picker.
pub fn summarize(caps: &Json) -> (r: String)
    ensures
        r@ == summary(caps@),
{
    let mut parts: Vec<String> = Vec::new();
    let first = match get_signed(caps, "input_delay") {
        Some(d) => {
            let n = dec_signed(d as i128);
            cat3("Delay ", n.as_str(), "+")
        },
        None => "Delay auto".to_owned(),
    };
    parts.push(first);
    proof {
        assert(views(parts@) =~= seq![delay_words(caps@)]);
    }
    let ghost one = parts@;
    match get_flag(caps, "rollback") {
        Some(true) => {
            parts.push("Rollback on".to_owned());
            proof {
                assert(views(parts@) =~= views(one).push("Rollback on"@));
            }
        },
        Some(false) => {
            parts.push("Rollback off".to_owned());
            proof {
                assert(views(parts@) =~= views(one).push("Rollback off"@));
            }
        },
        None => {},
    }
    let ghost two = parts@;
    match get_flag(caps, "turbo_loads") {
        Some(true) => {
            parts.push("Turbo loads".to_owned());
            proof {
                assert(views(parts@) =~= views(two).push("Turbo loads"@));
            }
        },
        _ => {},
    }
    proof {
        assert(views(parts@) =~= summary_parts(caps@));
    }
    join(&parts, " - ")
}

impl Rulesets {
    pub fn is_empty(&self) -> (r: bool)
        ensures
            r == (self@.len() == 0),
    {
        self.all.len() == 0
    }

    /// The rulesets of one title, in their order.
    pub fn for_game<'a>(&'a self, game_name: &str) -> (r: Vec<&'a Ruleset>)
        ensures
            r@.map_values(|x: &'a Ruleset| x@) == of_game(self@, game_name@),
    {
        let ghost all = self@;
        let mut out: Vec<&'a Ruleset> = Vec::new();
        let mut i: usize = 0;
        proof {
            assert(all.take(0) =~= Seq::<RulesetView>::empty());
            assert(out@.map_values(|x: &'a Ruleset| x@) =~= Seq::<RulesetView>::empty());
        }
        while i < self.all.len()
            invariant
                i <= self.all@.len(),
                all == self@,
                out@.map_values(|x: &'a Ruleset| x@) == of_game(all.take(i as int), game_name@),
            decreases self.all@.len() - i,
        {
            proof {
                let t = all.take(i + 1);
                assert(t.drop_last() =~= all.take(i as int));
                assert(t.last() == self.all@[i as int]@);
            }
            if same(self.all[i].game_name.as_str(), game_name) {
                let ghost before = out@;
                out.push(&self.all[i]);
                proof {
                    assert(out@.map_values(|x: &'a Ruleset| x@) =~= before.map_values(
                        |x: &'a Ruleset| x@,
                    ).push(self.all@[i as int]@));
                }
            }
            i = i + 1;
        }
        proof {
            assert(all.take(self.all@.len() as int) =~= all);
        }
        out
    }

    /// Resolves a queue request. An empty id means the title's first ruleset.
    pub fn resolve<'a>(&'a self, game_name: &str, id: &str) -> (r: Option<&'a Ruleset>)
        ensures
            match (r, resolved(self@, game_name@, id@)) {
                (Some(a), Some(b)) => a@ == b,
                (None, None) => true,
                _ => false,
            },
    {
        let ghost all = self@;
        let ghost p = |r: RulesetView| answers(r, game_name@, id@);
        let any = id.is_empty();
        let mut i: usize = 0;
        while i < self.all.len()
            invariant
                i <= self.all@.len(),
                all == self@,
                any == (id@.len() == 0),
                p == (|r: RulesetView| answers(r, game_name@, id@)),
                forall|k: int| 0 <= k < i ==> !p(#[trigger] all[k]),
            decreases self.all@.len() - i,
        {
            proof {
                assert(all[i as int] == self.all@[i as int]@);
            }
            let r = &self.all[i];
            if same(r.game_name.as_str(), game_name) && (any || same(r.id.as_str(), id)) {
                proof {
                    lemma_first_is(all, p, i as int);
                }
                return Some(r);
            }
            i = i + 1;
        }
        proof {
            lemma_first_none(all, p);
        }
        None
    }

    /// The rulesets of the entries of a file. An entry that is refused is left
    /// out; the others stand.
    pub fn load(entries: Vec<RulesetEntry>) -> (r: Rulesets)
        ensures
            r@ == loaded(entries@.map_values(|e: RulesetEntry| e@)),
    {
        let ghost list = entries@;
        let ghost all = list.map_values(|e: RulesetEntry| e@);
        let mut rest = entries;
        let mut out: Vec<Ruleset> = Vec::new();
        let ghost mut done: int = 0;
        proof {
            assert(all.take(0) =~= Seq::<EntryView>::empty());
            assert(rulesets_view(out@) =~= Seq::<RulesetView>::empty());
            assert(list.skip(0) =~= list);
        }
        while rest.len() > 0
            invariant
                0 <= done <= list.len(),
                all == list.map_values(|e: RulesetEntry| e@),
                rest@ == list.skip(done),
                rulesets_view(out@) == loaded(all.take(done)),
            decreases rest@.len(),
        {
            let e = rest.remove(0);
            proof {
                let t = all.take(done + 1);
                assert(t.drop_last() =~= all.take(done));
                assert(t.last() == e@);
                assert(list.skip(done).remove(0) =~= list.skip(done + 1));
                done = done + 1;
            }
            match validate(&e, &out) {
                Ok(()) => {
                    let summary = summarize(&e.match_caps);
                    let label = if e.label.as_str().is_empty() {
                        e.id.clone()
                    } else {
                        e.label
                    };
                    let r = Ruleset {
                        id: e.id,
                        label,
                        game_name: e.game_name,
                        game_version: e.game_version,
                        max_slots: e.max_slots,
                        match_caps: e.match_caps,
                        caps_summary: summary,
                        frames: e.frames,
                    };
                    let ghost before = out@;
                    let ghost v = r@;
                    out.push(r);
                    proof {
                        assert(rulesets_view(out@) =~= rulesets_view(before).push(v));
                    }
                },
                Err(_) => {},
            }
        }
        proof {
            assert(all.take(all.len() as int) =~= all);
        }
        Rulesets { all: out }
    }
}

impl Default for Rulesets {
    fn default() -> (r: Rulesets)
        ensures
            r@ == Seq::<RulesetView>::empty(),
    {
        let r = Rulesets { all: Vec::new() };
        proof {
            assert(r@ =~= Seq::<RulesetView>::empty());
        }
        r
    }
}

fn row_json(r: &Ruleset) -> (j: Json)
    ensures
        j@ == ruleset_row(r@),
{
    Json::object().with("id", Json::text(r.id.as_str())).with(
        "label",
        Json::text(r.label.as_str()),
    ).with("caps_summary", Json::text(r.caps_summary.as_str())).with(
        "game_version",
        Json::text(r.game_version.as_str()),
    ).with("max_slots", Json::count(r.max_slots as u64)).with("match_caps", r.match_caps.copy())
}

/// The `automatch_rulesets_ok` payload for one title.
pub fn rulesets_json(rs: &Rulesets, game_name: &str) -> (j: Json)
    ensures
        j@ == rulesets_msg(rs@, game_name@),
{
    let list = rs.for_game(game_name);
    let ghost all = of_game(rs@, game_name@);
    let mut rows: Vec<Json> = Vec::new();
    let mut i: usize = 0;
    while i < list.len()
        invariant
            i <= list@.len(),
            rows@.len() == i,
            all == list@.map_values(|x: &Ruleset| x@),
            items_view(rows@) == ruleset_rows(all.take(i as int)),
        decreases list@.len() - i,
    {
        let ghost before = rows@;
        let row = row_json(list[i]);
        rows.push(row);
        proof {
            assert(rows@.drop_last() =~= before);
            assert(all[i as int] == list@[i as int]@);
            assert(ruleset_rows(all.take(i + 1)) =~= ruleset_rows(all.take(i as int)).push(row@));
        }
        i = i + 1;
    }
    proof {
        assert(all.take(list@.len() as int) =~= all);
    }
    Json::object().with("op", Json::text("automatch_rulesets_ok")).with("ok", Json::flag(true)).with(
        "rulesets",
        Json::Arr(rows),
    )
}

// ------------------------------------------------------ declared exemptions

/// Whether caps approve a claim: `mod_cosmetic_allow` lists it, letter for
/// letter.
pub open spec fn approved(caps: JsonView, claim: Seq<char>) -> bool {
    match caps.get("mod_cosmetic_allow"@) {
        Some(JsonView::Arr(v)) => v.contains(JsonView::Str(claim)),
        _ => false,
    }
}

/// The first claim that caps do not approve.
pub open spec fn first_unapproved(caps: JsonView, claims: Seq<Seq<char>>) -> Option<Seq<char>> {
    match first_where(claims, |c: Seq<char>| !approved(caps, c)) {
        Some(i) => Some(claims[i]),
        None => None,
    }
}

fn approves(caps: &Json, claim: &str) -> (r: bool)
    ensures
        r == approved(caps@, claim@),
{
    match caps.get("mod_cosmetic_allow") {
        Some(Json::Arr(v)) => {
            proof {
                crate::json::lemma_items(v@);
            }
            let ghost items = items_view(v@);
            let mut i: usize = 0;
            while i < v.len()
                invariant
                    i <= v@.len(),
                    items == items_view(v@),
                    items.len() == v@.len(),
                    caps@.get("mod_cosmetic_allow"@) == Some(JsonView::Arr(items)),
                    forall|k: int| 0 <= k < i ==> (#[trigger] items[k]) != JsonView::Str(claim@),
                decreases v@.len() - i,
            {
                proof {
                    crate::json::lemma_items(v@);
                    assert(items[i as int] == v@[i as int]@);
                }
                if let Json::Str(s) = &v[i] {
                    if same(s.as_str(), claim) {
                        proof {
                            assert(items.contains(items[i as int]));
                        }
                        return true;
                    }
                }
                i = i + 1;
            }
            false
        },
        _ => false,
    }
}

/// The first of the claimed exemptions that a ruleset does not approve.
pub fn unapproved_exemption(caps: &Json, claims: &Vec<String>) -> (r: Option<String>)
    ensures
        crate::text::opt_view(r) == first_unapproved(caps@, views(claims@)),
{
    let ghost all = views(claims@);
    let ghost p = |c: Seq<char>| !approved(caps@, c);
    let mut i: usize = 0;
    while i < claims.len()
        invariant
            i <= claims@.len(),
            all == views(claims@),
            p == (|c: Seq<char>| !approved(caps@, c)),
            forall|k: int| 0 <= k < i ==> !p(#[trigger] all[k]),
        decreases claims@.len() - i,
    {
        proof {
            assert(all[i as int] == claims@[i as int]@);
        }
        if !approves(caps, claims[i].as_str()) {
            proof {
                lemma_first_is(all, p, i as int);
            }
            return Some(claims[i].clone());
        }
        i = i + 1;
    }
    proof {
        lemma_first_none(all, p);
    }
    None
}

// -------------------------------------------------------------------- laws

/// What a file gives: no ruleset stands twice, each seats two, and none has a
/// mod plan.
pub proof fn law_loaded_is_sound(entries: Seq<EntryView>)
    ensures
        forall|i: int|
            0 <= i < loaded(entries).len() ==> (#[trigger] loaded(entries)[i]).max_slots == 2
                && loaded(entries)[i].match_caps.get("mods"@) is None
                && loaded(entries)[i].label.len() > 0,
        forall|i: int, j: int|
            0 <= i < j < loaded(entries).len() ==> !((#[trigger] loaded(entries)[i]).game_name == (
            #[trigger] loaded(entries)[j]).game_name && loaded(entries)[i].id == loaded(
                entries,
            )[j].id),
    decreases entries.len(),
{
    if entries.len() > 0 {
        law_loaded_is_sound(entries.drop_last());
        let e = entries.last();
        let before = loaded(entries.drop_last());
        if refusal_of(e, before) is None {
            assert(trimmed(e.id).len() > 0);
            assert(e.id.len() > 0) by {
                crate::text::lemma_trimmed_ends(e.id);
                if e.id.len() == 0 {
                    assert(crate::text::trimmed_start(e.id).len() == 0);
                }
            }
            assert forall|i: int| 0 <= i < before.len() implies !((#[trigger] before[i]).game_name
                == e.game_name && before[i].id == e.id) by {}
        }
    }
}

/// What a request resolves to is a ruleset of its title, and under its id
/// where the request named one.
pub proof fn law_resolved_answers(all: Seq<RulesetView>, game: Seq<char>, id: Seq<char>)
    ensures
        resolved(all, game, id) is Some ==> all.contains(resolved(all, game, id)->0) && answers(
            resolved(all, game, id)->0,
            game,
            id,
        ),
        resolved(all, game, id) is None ==> forall|i: int|
            0 <= i < all.len() ==> !answers(#[trigger] all[i], game, id),
{
    lemma_first_where(all, |r: RulesetView| answers(r, game, id));
}

/// Whether an entry of the file may be offered: it has a name and a title, seats
/// two, and its settings are a table without mods, or none, of a bounded size.
pub open spec fn offerable(e: EntryView) -> bool {
    &&& e.id.len() > 0 && !crate::text::is_white(e.id[0]) && !crate::text::is_white(e.id.last())
    &&& e.game_name.len() > 0 && !crate::text::is_white(e.game_name[0]) && !crate::text::is_white(
        e.game_name.last(),
    )
    &&& e.max_slots == 2
    &&& e.match_caps is Null || e.match_caps is Obj
    &&& e.match_caps.get("mods"@) is None
    &&& byte_len(written(e.match_caps)) <= 4096
}

/// Whether a list of rulesets has the one of an entry.
pub open spec fn offers(rs: Seq<RulesetView>, e: EntryView) -> bool {
    exists|k: int|
        0 <= k < rs.len() && (#[trigger] rs[k]).id == e.id && rs[k].game_name == e.game_name
            && rs[k].game_version == e.game_version && rs[k].match_caps == e.match_caps
            && rs[k].frames == e.frames && rs[k].max_slots == 2 && rs[k].label == if e.label.len()
            == 0 {
            e.id
        } else {
            e.label
        }
}

/// Every entry that may be offered is, unless an earlier one has its name in its
/// title, and what is offered all stands in the file.
pub proof fn law_sound_entries_are_offered(entries: Seq<EntryView>)
    ensures
        forall|i: int|
            #![trigger entries[i]]
            0 <= i < entries.len() && offerable(entries[i]) && (forall|j: int|
                0 <= j < i ==> !((#[trigger] entries[j]).id == entries[i].id && entries[j].game_name
                    == entries[i].game_name)) ==> offers(loaded(entries), entries[i]),
        forall|k: int|
            0 <= k < loaded(entries).len() ==> from_file(entries, #[trigger] loaded(entries)[k]),
    decreases entries.len(),
{
    if entries.len() > 0 {
        let rest = entries.drop_last();
        let before = loaded(rest);
        let e = entries.last();
        law_sound_entries_are_offered(rest);
        assert forall|i: int|
            #![trigger entries[i]]
            0 <= i < entries.len() && offerable(entries[i]) && (forall|j: int|
                0 <= j < i ==> !((#[trigger] entries[j]).id == entries[i].id && entries[j].game_name
                    == entries[i].game_name)) implies offers(loaded(entries), entries[i]) by {
            if i < rest.len() {
                assert(rest[i] == entries[i]);
                assert forall|j: int| 0 <= j < i implies !((#[trigger] rest[j]).id == rest[i].id
                    && rest[j].game_name == rest[i].game_name) by {
                    assert(rest[j] == entries[j]);
                }
                assert(offers(before, rest[i]));
                let k = choose|k: int|
                    0 <= k < before.len() && (#[trigger] before[k]).id == rest[i].id
                        && before[k].game_name == rest[i].game_name && before[k].game_version
                        == rest[i].game_version && before[k].match_caps == rest[i].match_caps
                        && before[k].frames == rest[i].frames && before[k].max_slots == 2
                        && before[k].label == if rest[i].label.len() == 0 {
                        rest[i].id
                    } else {
                        rest[i].label
                    };
                assert(loaded(entries)[k] == before[k]);
            } else {
                lemma_named(e.id);
                lemma_named(e.game_name);
                if has(before, e.game_name, e.id) {
                    let k = choose|k: int|
                        0 <= k < before.len() && (#[trigger] before[k]).game_name == e.game_name
                            && before[k].id == e.id;
                    assert(from_file(rest, before[k]));
                    let j = choose|j: int|
                        0 <= j < rest.len() && (#[trigger] rest[j]).id == before[k].id
                            && rest[j].game_name == before[k].game_name && rest[j].match_caps
                            == before[k].match_caps;
                    assert(entries[j] == rest[j]);
                }
                assert(loaded(entries)[before.len() as int] == ruleset_of(e));
            }
        }
        assert forall|k: int| 0 <= k < loaded(entries).len() implies from_file(
            entries,
            #[trigger] loaded(entries)[k],
        ) by {
            if k < before.len() {
                assert(from_file(rest, before[k]));
                let j = choose|j: int|
                    0 <= j < rest.len() && (#[trigger] rest[j]).id == before[k].id
                        && rest[j].game_name == before[k].game_name && rest[j].match_caps
                        == before[k].match_caps;
                assert(entries[j] == rest[j]);
            } else {
                assert(entries[entries.len() - 1] == e);
            }
        }
    }
}

/// Whether a ruleset stands in the file.
pub open spec fn from_file(entries: Seq<EntryView>, r: RulesetView) -> bool {
    exists|j: int|
        0 <= j < entries.len() && (#[trigger] entries[j]).id == r.id && entries[j].game_name
            == r.game_name && entries[j].match_caps == r.match_caps
}

proof fn lemma_named(s: Seq<char>)
    requires
        s.len() > 0,
        !crate::text::is_white(s[0]),
        !crate::text::is_white(s.last()),
    ensures
        trimmed(s) == s,
{
    let x = Seq::<char>::empty();
    assert(x + s + x =~= s);
    crate::spelling::law_trimming_takes_off_the_ends(x, s, x);
}

/// A request that names a ruleset means the first of its title under that name,
/// and one that names none the first of its title.
pub proof fn law_the_first_ruleset_is_meant(
    all: Seq<RulesetView>,
    game: Seq<char>,
    id: Seq<char>,
    k: int,
)
    requires
        0 <= k < all.len(),
        all[k].game_name == game,
        id.len() > 0 ==> all[k].id == id,
        forall|j: int|
            0 <= j < k ==> (#[trigger] all[j]).game_name != game || (id.len() > 0 && all[j].id
                != id),
    ensures
        resolved(all, game, id) == Some(all[k]),
{
    lemma_first_is(all, |r: RulesetView| answers(r, game, id), k);
}

/// Claims pass where each of them stands in the ruleset's list, and the first
/// that does not is named.
pub proof fn law_every_claim_must_be_listed(caps: JsonView, claims: Seq<Seq<char>>, i: int)
    requires
        0 <= i <= claims.len(),
        caps.get("mod_cosmetic_allow"@) is Some,
        caps.get("mod_cosmetic_allow"@)->0 is Arr,
        ({
            let list = caps.get("mod_cosmetic_allow"@)->0->Arr_0;
            &&& forall|j: int| 0 <= j < i ==> list.contains(JsonView::Str(#[trigger] claims[j]))
            &&& i < claims.len() ==> !list.contains(JsonView::Str(claims[i]))
        }),
    ensures
        first_unapproved(caps, claims) == if i < claims.len() {
            Some(claims[i])
        } else {
            None
        },
{
    let p = |c: Seq<char>| !approved(caps, c);
    if i < claims.len() {
        lemma_first_is(claims, p, i);
    } else {
        lemma_first_none(claims, p);
    }
}

/// What is offered for a title is all of its rulesets, in their order, and no
/// other title's.
pub proof fn law_a_title_lists_its_own(all: Seq<RulesetView>, r: RulesetView, game: Seq<char>)
    ensures
        of_game(Seq::empty(), game).len() == 0,
        r.game_name == game ==> of_game(all.push(r), game) == of_game(all, game).push(r),
        r.game_name != game ==> of_game(all.push(r), game) == of_game(all, game),
{
    assert(all.push(r).drop_last() =~= all);
}

} // verus!
