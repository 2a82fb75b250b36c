//! Player-submitted chat reports.
//!
//! The server records and never adjudicates. The text of a report is the
//! server's own copy of the lines that it relayed.

use crate::outside::{new_uuid, uuid_shape};
use crate::text::{
    cat, cat3, chars_of, dec_signed, first_chars, lowered, same, signed_decimal, string_of,
    trim_lower, trim_take, trimmed,
};
use vstd::prelude::*;
use vstd::string::*;

verus! {

/// A report as it is filed.
pub struct ChatReport {
    pub reporter_id: String,
    pub accused_id: String,
    pub message_id: String,
    pub message_text: String,
    pub accused_name: String,
    pub context: String,
    pub transcript: String,
    pub message_count: i64,
    pub scope: String,
    pub lobby_id: String,
    pub game_name: String,
    pub game_version: String,
    pub platform: String,
    pub server: String,
    pub reason: String,
    pub note: String,
}

#[verifier::ext_equal]
pub ghost struct ChatReportView {
    pub reporter_id: Seq<char>,
    pub accused_id: Seq<char>,
    pub message_id: Seq<char>,
    pub message_text: Seq<char>,
    pub accused_name: Seq<char>,
    pub context: Seq<char>,
    pub transcript: Seq<char>,
    pub message_count: int,
    pub scope: Seq<char>,
    pub lobby_id: Seq<char>,
    pub game_name: Seq<char>,
    pub game_version: Seq<char>,
    pub platform: Seq<char>,
    pub server: Seq<char>,
    pub reason: Seq<char>,
    pub note: Seq<char>,
}

impl View for ChatReport {
    type V = ChatReportView;

    open spec fn view(&self) -> ChatReportView {
        ChatReportView {
            reporter_id: self.reporter_id@,
            accused_id: self.accused_id@,
            message_id: self.message_id@,
            message_text: self.message_text@,
            accused_name: self.accused_name@,
            context: self.context@,
            transcript: self.transcript@,
            message_count: self.message_count as int,
            scope: self.scope@,
            lobby_id: self.lobby_id@,
            game_name: self.game_name@,
            game_version: self.game_version@,
            platform: self.platform@,
            server: self.server@,
            reason: self.reason@,
            note: self.note@,
        }
    }
}

/// How filing a report ended.
#[derive(Clone, Copy, Debug, PartialEq, Eq, Structural)]
pub enum Submitted {
    Stored,
    Duplicate,
    RateLimited,
    Failed,
}

// ------------------------------------------------------------- the reasons

/// The reasons that a client may offer.
pub open spec fn offered(s: Seq<char>) -> bool {
    s == "harassment"@ || s == "hate_speech"@ || s == "sexual_content"@ || s == "spam"@ || s
        == "threats"@ || s == "cheating_claim"@ || s == "other"@
}

/// The reasons that a client may offer, in their order.
pub const REASONS: [&'static str; 7] = [
    "harassment",
    "hate_speech",
    "sexual_content",
    "spam",
    "threats",
    "cheating_claim",
    "other",
];

/// The reason that is stored: anything that is not offered is `other`.
pub open spec fn stored_reason(reason: Seq<char>) -> Seq<char> {
    let r = lowered(trimmed(reason));
    if offered(r) {
        r
    } else {
        "other"@
    }
}

pub fn normalize_reason(reason: &str) -> (r: String)
    ensures
        r@ == stored_reason(reason@),
{
    let t = trim_lower(reason);
    let s = t.as_str();
    if same(s, "harassment") || same(s, "hate_speech") || same(s, "sexual_content") || same(
        s,
        "spam",
    ) || same(s, "threats") || same(s, "cheating_claim") || same(s, "other") {
        t
    } else {
        "other".to_owned()
    }
}

// ------------------------------------------------------------ what is kept

/// How many characters of a note are kept.
pub const NOTE_MAX_CHARS: usize = 500;

/// How many reports one account may file in an hour.
pub const REPORTS_PER_HOUR: i64 = 20;

/// A text cut to `max` characters once its ends are trimmed.
pub open spec fn clamped(s: Seq<char>, max: int) -> Seq<char> {
    first_chars(trimmed(s), max)
}

pub open spec fn clamped_count(n: int) -> int {
    if n < 0 {
        0
    } else if n > 64 {
        64
    } else {
        n
    }
}

/// The row of a report: every text has its limit.
pub open spec fn stored_row(r: ChatReportView) -> ChatReportView {
    ChatReportView {
        reporter_id: r.reporter_id,
        accused_id: r.accused_id,
        message_id: clamped(r.message_id, 64),
        message_text: clamped(r.message_text, 512),
        accused_name: clamped(r.accused_name, 64),
        context: clamped(r.context, 2048),
        transcript: clamped(r.transcript, 8192),
        message_count: clamped_count(r.message_count),
        scope: clamped(r.scope, 16),
        lobby_id: clamped(r.lobby_id, 64),
        game_name: clamped(r.game_name, 128),
        game_version: clamped(r.game_version, 64),
        platform: clamped(r.platform, 32),
        server: clamped(r.server, 256),
        reason: stored_reason(r.reason),
        note: clamped(r.note, NOTE_MAX_CHARS as int),
    }
}

fn clamp(s: &str, max: usize) -> (r: String)
    ensures
        r@ == clamped(s@, max as int),
{
    trim_take(s, max)
}

/// The row that a report is stored as.
pub fn row_of(r: &ChatReport) -> (out: ChatReport)
    ensures
        out@ == stored_row(r@),
{
    let message_count: i64 = if r.message_count < 0 {
        0
    } else if r.message_count > 64 {
        64
    } else {
        r.message_count
    };
    ChatReport {
        reporter_id: r.reporter_id.clone(),
        accused_id: r.accused_id.clone(),
        message_id: clamp(r.message_id.as_str(), 64),
        message_text: clamp(r.message_text.as_str(), 512),
        accused_name: clamp(r.accused_name.as_str(), 64),
        context: clamp(r.context.as_str(), 2048),
        transcript: clamp(r.transcript.as_str(), 8192),
        message_count,
        scope: clamp(r.scope.as_str(), 16),
        lobby_id: clamp(r.lobby_id.as_str(), 64),
        game_name: clamp(r.game_name.as_str(), 128),
        game_version: clamp(r.game_version.as_str(), 64),
        platform: clamp(r.platform.as_str(), 32),
        server: clamp(r.server.as_str(), 256),
        reason: normalize_reason(r.reason.as_str()),
        note: clamp(r.note.as_str(), NOTE_MAX_CHARS),
    }
}

// ---------------------------------------------------------------- the dump

/// The year and the month of a time in RFC 3339, and where they stand.
pub open spec fn dump_name(stamp: Seq<char>, id: Seq<char>) -> Seq<char> {
    stamp.subrange(0, 4) + "/"@ + stamp.subrange(5, 7) + "/"@ + id + ".txt"@
}

/// Where a report is dumped: by its date and its id, and nothing else.
pub fn dump_path(stamp: &str, id: &str) -> (r: String)
    requires
        stamp@.len() >= 7,
    ensures
        r@ == dump_name(stamp@, id@),
{
    let v = chars_of(stamp);
    let year = string_of(&v, 0, 4);
    let month = string_of(&v, 5, 7);
    let mut p = cat3(year.as_str(), "/", month.as_str());
    p = cat3(p.as_str(), "/", id);
    cat(p.as_str(), ".txt")
}

/// The text of a dump: who, where and why, then the lines before the reported
/// ones, then those.
pub open spec fn dump_text(id: Seq<char>, stamp: Seq<char>, r: ChatReportView) -> Seq<char> {
    "report:   "@ + id + "\nfiled:    "@ + stamp + "\nreporter: "@ + r.reporter_id
        + "\naccused:  "@ + r.accused_name + " ("@ + r.accused_id + ")\ngame:     "@ + r.game_name
        + " "@ + r.game_version + "\nplatform: "@ + r.platform + "\nserver:   "@ + r.server
        + "\nscope:    "@ + r.scope + "\nlobby:    "@ + r.lobby_id + "\nreason:   "@
        + stored_reason(r.reason) + "\nnote:     "@ + r.note
        + "\n\n--- context (preceding lines, same room) ---\n"@ + r.context
        + "\n\n--- reported ("@ + signed_decimal(r.message_count) + " message(s)) ---\n"@
        + r.transcript + "\n"@
}

pub fn dump_body(id: &str, stamp: &str, r: &ChatReport) -> (out: String)
    ensures
        out@ == dump_text(id@, stamp@, r@),
{
    let reason = normalize_reason(r.reason.as_str());
    let count = dec_signed(r.message_count as i128);
    let mut b = cat("report:   ", id);
    b = cat3(b.as_str(), "\nfiled:    ", stamp);
    b = cat3(b.as_str(), "\nreporter: ", r.reporter_id.as_str());
    b = cat3(b.as_str(), "\naccused:  ", r.accused_name.as_str());
    b = cat3(b.as_str(), " (", r.accused_id.as_str());
    b = cat3(b.as_str(), ")\ngame:     ", r.game_name.as_str());
    b = cat3(b.as_str(), " ", r.game_version.as_str());
    b = cat3(b.as_str(), "\nplatform: ", r.platform.as_str());
    b = cat3(b.as_str(), "\nserver:   ", r.server.as_str());
    b = cat3(b.as_str(), "\nscope:    ", r.scope.as_str());
    b = cat3(b.as_str(), "\nlobby:    ", r.lobby_id.as_str());
    b = cat3(b.as_str(), "\nreason:   ", reason.as_str());
    b = cat3(b.as_str(), "\nnote:     ", r.note.as_str());
    b = cat3(
        b.as_str(),
        "\n\n--- context (preceding lines, same room) ---\n",
        r.context.as_str(),
    );
    b = cat3(b.as_str(), "\n\n--- reported (", count.as_str());
    b = cat3(b.as_str(), " message(s)) ---\n", r.transcript.as_str());
    cat(b.as_str(), "\n")
}

/// A file to write beside the row.
pub struct Dump {
    pub path: String,
    pub body: String,
}

/// What to store for a report.
pub struct Filing {
    pub id: String,
    pub row: ChatReport,
    /// None where dumps are not configured.
    pub dump: Option<Dump>,
}

/// Whether `f` is what is stored for `r` under `id`.
pub open spec fn files(
    f: Filing,
    id: Seq<char>,
    dump_dir: Seq<char>,
    r: ChatReportView,
    stamp: Seq<char>,
) -> bool {
    &&& f.id@ == id
    &&& f.row@ == stored_row(r)
    &&& match f.dump {
        Some(d) => dump_dir.len() > 0 && d.path@ == dump_name(stamp, id) && d.body@ == dump_text(
            id,
            stamp,
            r,
        ),
        None => dump_dir.len() == 0,
    }
}

/// Files a report under a given id. `recent` is how many the reporter filed in
/// the last hour; None where that is too many.
pub fn record_as(recent: i64, dump_dir: &str, r: &ChatReport, id: &str, stamp: &str) -> (out: Option<
    Filing,
>)
    requires
        stamp@.len() >= 7,
    ensures
        match out {
            Some(f) => recent < REPORTS_PER_HOUR && files(f, id@, dump_dir@, r@, stamp@),
            None => recent >= REPORTS_PER_HOUR,
        },
{
    if recent >= REPORTS_PER_HOUR {
        return None;
    }
    let dump = if dump_dir.is_empty() {
        None
    } else {
        Some(Dump { path: dump_path(stamp, id), body: dump_body(id, stamp, r) })
    };
    Some(Filing { id: id.to_owned(), row: row_of(r), dump })
}

/// Files a report under an id by chance.
pub fn record(recent: i64, dump_dir: &str, r: &ChatReport, stamp: &str) -> (out: Option<Filing>)
    requires
        stamp@.len() >= 7,
    ensures
        match out {
            Some(f) => recent < REPORTS_PER_HOUR && uuid_shape(f.id@) && files(
                f,
                f.id@,
                dump_dir@,
                r@,
                stamp@,
            ),
            None => recent >= REPORTS_PER_HOUR,
        },
{
    let id = new_uuid();
    record_as(recent, dump_dir, r, id.as_str(), stamp)
}

/// How storing a row ended.
#[derive(Clone, Copy, Debug, PartialEq, Eq, Structural)]
pub enum Inserted {
    Done,
    UniqueViolation,
    Error,
}

/// The outcome of a submission. A report that this account filed before adds
/// no row, and is no failure.
pub fn submitted(filed: bool, inserted: Inserted) -> (r: Submitted)
    ensures
        r == (if !filed {
            Submitted::RateLimited
        } else {
            match inserted {
                Inserted::Done => Submitted::Stored,
                Inserted::UniqueViolation => Submitted::Duplicate,
                Inserted::Error => Submitted::Failed,
            }
        }),
{
    if !filed {
        return Submitted::RateLimited;
    }
    match inserted {
        Inserted::Done => Submitted::Stored,
        Inserted::UniqueViolation => Submitted::Duplicate,
        Inserted::Error => Submitted::Failed,
    }
}

// -------------------------------------------------------------------- laws

/// A reason that a client may offer is stored as it is.
pub proof fn law_offered_reasons_survive(reason: Seq<char>)
    requires
        offered(lowered(trimmed(reason))),
    ensures
        stored_reason(reason) == lowered(trimmed(reason)),
{
}

/// Whatever a client sends, one of the offered reasons is stored.
pub proof fn law_stored_reasons_are_offered(reason: Seq<char>)
    ensures
        offered(stored_reason(reason)),
{
}

/// Nothing that a reporter or a sender wrote is stored beyond its limit.
pub proof fn law_rows_are_bounded(r: ChatReportView)
    ensures
        stored_row(r).note.len() <= NOTE_MAX_CHARS,
        stored_row(r).message_text.len() <= 512,
        stored_row(r).accused_name.len() <= 64,
        stored_row(r).context.len() <= 2048,
        stored_row(r).transcript.len() <= 8192,
        0 <= stored_row(r).message_count <= 64,
{
}

/// Whether a text has no white space at its ends and fits in `max` characters.
pub open spec fn fits(s: Seq<char>, max: int) -> bool {
    s.len() <= max && (s.len() > 0 ==> !crate::text::is_white(s[0]) && !crate::text::is_white(
        s.last(),
    ))
}

/// A text that fits is kept as it is; a longer one keeps its beginning.
pub proof fn law_what_fits_is_kept(s: Seq<char>, max: int)
    requires
        max >= 0,
        s.len() > 0 ==> !crate::text::is_white(s[0]) && !crate::text::is_white(s.last()),
    ensures
        fits(s, max) ==> clamped(s, max) == s,
        s.len() > max ==> clamped(s, max) == s.take(max),
{
    let e = Seq::<char>::empty();
    assert(e + s + e =~= s);
    crate::spelling::law_trimming_takes_off_the_ends(e, s, e);
    if s.len() <= max {
        assert(first_chars(s, max) =~= s);
    } else {
        assert(first_chars(s, max) =~= s.take(max));
    }
}

/// A report whose texts all fit is stored word for word, with every text in its
/// own place and the two accounts as they are.
pub proof fn law_reports_are_stored_word_for_word(r: ChatReportView)
    requires
        fits(r.message_id, 64),
        fits(r.message_text, 512),
        fits(r.accused_name, 64),
        fits(r.context, 2048),
        fits(r.transcript, 8192),
        0 <= r.message_count <= 64,
        fits(r.scope, 16),
        fits(r.lobby_id, 64),
        fits(r.game_name, 128),
        fits(r.game_version, 64),
        fits(r.platform, 32),
        fits(r.server, 256),
        fits(r.note, NOTE_MAX_CHARS as int),
    ensures
        ({
            let row = stored_row(r);
            &&& row.reporter_id == r.reporter_id
            &&& row.accused_id == r.accused_id
            &&& row.message_id == r.message_id
            &&& row.message_text == r.message_text
            &&& row.accused_name == r.accused_name
            &&& row.context == r.context
            &&& row.transcript == r.transcript
            &&& row.message_count == r.message_count
            &&& row.scope == r.scope
            &&& row.lobby_id == r.lobby_id
            &&& row.game_name == r.game_name
            &&& row.game_version == r.game_version
            &&& row.platform == r.platform
            &&& row.server == r.server
            &&& row.note == r.note
        }),
{
    law_what_fits_is_kept(r.message_id, 64);
    law_what_fits_is_kept(r.message_text, 512);
    law_what_fits_is_kept(r.accused_name, 64);
    law_what_fits_is_kept(r.context, 2048);
    law_what_fits_is_kept(r.transcript, 8192);
    law_what_fits_is_kept(r.scope, 16);
    law_what_fits_is_kept(r.lobby_id, 64);
    law_what_fits_is_kept(r.game_name, 128);
    law_what_fits_is_kept(r.game_version, 64);
    law_what_fits_is_kept(r.platform, 32);
    law_what_fits_is_kept(r.server, 256);
    law_what_fits_is_kept(r.note, NOTE_MAX_CHARS as int);
}

/// Each of the seven reasons is stored as itself, whatever white space stands
/// around it, and everything else as the last of them.
pub proof fn law_the_seven_reasons_are_themselves(a: Seq<char>, reason: Seq<char>, b: Seq<char>)
    requires
        crate::spelling::all_white(a),
        crate::spelling::all_white(b),
        reason.len() > 0,
        forall|i: int|
            0 <= i < reason.len() ==> 'a' <= #[trigger] reason[i] <= 'z' || reason[i] == '_',
    ensures
        stored_reason(a + reason + b) == if reason == "harassment"@ || reason == "hate_speech"@
            || reason == "sexual_content"@ || reason == "spam"@ || reason == "threats"@ || reason
            == "cheating_claim"@ {
            reason
        } else {
            "other"@
        },
{
    assert(!crate::text::is_white(reason[0]));
    assert(!crate::text::is_white(reason[reason.len() - 1]));
    crate::spelling::law_trimming_takes_off_the_ends(a, reason, b);
    assert(lowered(reason) =~= reason);
}

} // verus!
