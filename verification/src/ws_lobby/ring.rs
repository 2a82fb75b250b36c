//! How long a chat line stays reportable, and with what.

use super::chat::{law_relayed_line_is_found, CHAT_CONTEXT_LINES, CHAT_RING_MAX};
use super::model::{ChatLineView, HubView};
use crate::find::{lemma_first_is, lemma_first_none};
use crate::text::{joined, lemma_numeral_number, number};
use vstd::prelude::*;
use vstd::string::*;

verus! {

/// The hub once some lines were relayed one after the other, each under the id
/// that was next.
pub open spec fn relaying(h: HubView, lines: Seq<ChatLineView>) -> HubView
    decreases lines.len(),
{
    if lines.len() == 0 {
        h
    } else {
        let g = relaying(h, lines.drop_last());
        g.remembering(ChatLineView { id: g.next_line_id(), ..lines.last() })
    }
}

/// A line as a report quotes it.
pub open spec fn quoted_line(l: ChatLineView) -> Seq<char> {
    l.from_name + ": "@ + l.text
}

/// Whether `rows` quote the lines of the ring at the places `at`, oldest first,
/// all of them said before `line` in its room.
pub open spec fn quotes(h: HubView, line: ChatLineView, rows: Seq<Seq<char>>, at: Seq<int>) -> bool {
    &&& at.len() == rows.len()
    &&& forall|k: int|
        0 <= k < at.len() ==> 0 <= #[trigger] at[k] < h.chat_ring.len() && rows[k] == quoted_line(
            h.chat_ring[at[k]],
        ) && h.chat_ring[at[k]].scope == line.scope && h.chat_ring[at[k]].lobby_id == line.lobby_id
            && number(h.chat_ring[at[k]].id, 16) < number(line.id, 16)
    &&& forall|k: int, m: int| 0 <= k < m < at.len() ==> at[k] < at[m]
}

/// Whether `context` is up to six lines that were said before `line` in its
/// room, oldest first.
pub open spec fn leads_up(h: HubView, line: ChatLineView, context: Seq<char>) -> bool {
    exists|rows: Seq<Seq<char>>, at: Seq<int>|
        rows.len() <= CHAT_CONTEXT_LINES && context == joined(rows, "\n"@) && #[trigger] quotes(
            h,
            line,
            rows,
            at,
        )
}

/// What `n` further lines leave of a line in the ring.
spec fn settled_in(h: HubView, line: ChatLineView, n: int) -> bool {
    &&& h.ring_ok()
    &&& h.chat_ring.len() <= CHAT_RING_MAX
    &&& h.next_chat_id > number(line.id, 16)
    &&& n < CHAT_RING_MAX ==> h.chat_ring.len() > n && h.chat_ring[h.chat_ring.len() - 1 - n]
        == line
    &&& forall|i: int|
        0 <= i < h.chat_ring.len() && i >= h.chat_ring.len() - n ==> number(
            (#[trigger] h.chat_ring[i]).id,
            16,
        ) > number(line.id, 16)
}

proof fn lemma_one_more(h: HubView, line: ChatLineView, n: int, next: ChatLineView)
    requires
        settled_in(h, line, n),
        0 <= n,
        h.next_chat_id < u64::MAX,
        next.id == h.next_line_id(),
    ensures
        settled_in(h.remembering(next), line, n + 1),
{
    let g = h.remembering(next);
    let full = h.chat_ring.push(next);
    law_relayed_line_is_found(h, next);
    lemma_numeral_number(h.next_chat_id as nat, 16);
    let d = full.len() - g.chat_ring.len();
    assert forall|i: int| 0 <= i < g.chat_ring.len() implies (#[trigger] g.chat_ring[i]) == full[i
        + d] by {}
    if n + 1 < CHAT_RING_MAX {
        let p = g.chat_ring.len() - 2 - n;
        assert(g.chat_ring[p] == full[p + d]);
        assert(full[p + d] == h.chat_ring[h.chat_ring.len() - 1 - n]);
    }
    assert forall|i: int|
        0 <= i < g.chat_ring.len() && i >= g.chat_ring.len() - (n + 1) implies number(
        (#[trigger] g.chat_ring[i]).id,
        16,
    ) > number(line.id, 16) by {
        assert(g.chat_ring[i] == full[i + d]);
        if i + d < h.chat_ring.len() {
            assert(full[i + d] == h.chat_ring[i + d]);
        }
    }
}

proof fn lemma_settled(h: HubView, line: ChatLineView, more: Seq<ChatLineView>)
    requires
        h.ring_ok(),
        h.next_chat_id + more.len() < u64::MAX,
        line.id == h.next_line_id(),
    ensures
        settled_in(relaying(h.remembering(line), more), line, more.len() as int),
        relaying(h.remembering(line), more).next_chat_id == h.next_chat_id + 1 + more.len(),
    decreases more.len(),
{
    let h1 = h.remembering(line);
    if more.len() == 0 {
        law_relayed_line_is_found(h, line);
        lemma_numeral_number(h.next_chat_id as nat, 16);
        let full = h.chat_ring.push(line);
        assert(h1.chat_ring[h1.chat_ring.len() - 1] == full[full.len() - 1]);
    } else {
        lemma_settled(h, line, more.drop_last());
        let g = relaying(h1, more.drop_last());
        lemma_one_more(
            g,
            line,
            more.len() - 1,
            ChatLineView { id: g.next_line_id(), ..more.last() },
        );
    }
}

proof fn lemma_context(h: HubView, line: ChatLineView, start: int, to: int, p: int) -> (at: Seq<int>)
    requires
        h.ring_ok(),
        0 <= start <= to <= p < h.chat_ring.len(),
        h.chat_ring[p] == line,
    ensures
        quotes(h, line, h.context_rows(start, to, line), at),
        at.len() <= to - start,
        forall|k: int| 0 <= k < at.len() ==> #[trigger] at[k] < to,
    decreases to - start,
{
    if to <= start {
        Seq::empty()
    } else {
        let before = lemma_context(h, line, start, to - 1, p);
        let l = h.chat_ring[to - 1];
        assert(number(h.chat_ring[to - 1].id, 16) < number(h.chat_ring[p].id, 16));
        if l.scope == line.scope && l.lobby_id == line.lobby_id {
            before.push(to - 1)
        } else {
            before
        }
    }
}

/// A relayed line stays reportable until the ring is full of later ones: while
/// fewer than a thousand came after it, it is found as it was relayed, with up
/// to six lines that led up to it; from then on it is found no more.
pub proof fn law_lines_stay_reportable_for_a_ring(
    h: HubView,
    line: ChatLineView,
    more: Seq<ChatLineView>,
)
    requires
        h.ring_ok(),
        h.next_chat_id + more.len() < u64::MAX,
        line.id == h.next_line_id(),
    ensures
        ({
            let g = relaying(h.remembering(line), more);
            if more.len() < CHAT_RING_MAX {
                g.line_with_context(line.id) matches Some((l, context)) && l == line && leads_up(
                    g,
                    line,
                    context,
                )
            } else {
                g.line_with_context(line.id) is None
            }
        }),
{
    let g = relaying(h.remembering(line), more);
    let n = more.len() as int;
    let this = |l: ChatLineView| l.id == line.id;
    lemma_settled(h, line, more);
    if n < CHAT_RING_MAX {
        let p = g.chat_ring.len() - 1 - n;
        assert forall|k: int| 0 <= k < p implies !this(#[trigger] g.chat_ring[k]) by {
            assert(number(g.chat_ring[k].id, 16) < number(g.chat_ring[p].id, 16));
        }
        lemma_first_is(g.chat_ring, this, p);
        let start = if p < CHAT_CONTEXT_LINES {
            0
        } else {
            p - CHAT_CONTEXT_LINES
        };
        let at = lemma_context(g, line, start, p, p);
        assert(quotes(g, line, g.context_rows(start, p, line), at));
    } else {
        assert forall|k: int| 0 <= k < g.chat_ring.len() implies !this(#[trigger] g.chat_ring[k]) by {
            assert(number(g.chat_ring[k].id, 16) > number(line.id, 16));
        }
        lemma_first_none(g.chat_ring, this);
    }
}

} // verus!
