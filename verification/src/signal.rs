//! Per-player mailboxes of ICE signal envelopes.

use crate::find::{first_where, lemma_first_is, lemma_first_none, lemma_first_where};
use crate::text::same;
use vstd::prelude::*;
use vstd::string::*;

verus! {

pub const MAX_QUEUED_PER_PLAYER: usize = 64;

pub struct SignalEnvelope {
    pub from_player_id: String,
    pub room_id: String,
    pub signal_type: u8,
    pub flag: u8,
    pub text: String,
    /// In milliseconds of the clock.
    pub created_at: i64,
}

#[verifier::ext_equal]
pub ghost struct EnvelopeView {
    pub from_player_id: Seq<char>,
    pub room_id: Seq<char>,
    pub signal_type: u8,
    pub flag: u8,
    pub text: Seq<char>,
    pub created_at: i64,
}

impl View for SignalEnvelope {
    type V = EnvelopeView;

    open spec fn view(&self) -> EnvelopeView {
        EnvelopeView {
            from_player_id: self.from_player_id@,
            room_id: self.room_id@,
            signal_type: self.signal_type,
            flag: self.flag,
            text: self.text@,
            created_at: self.created_at,
        }
    }
}

pub open spec fn envelopes(v: Seq<SignalEnvelope>) -> Seq<EnvelopeView> {
    v.map_values(|e: SignalEnvelope| e@)
}

impl SignalEnvelope {
    pub fn copy(&self) -> (r: SignalEnvelope)
        ensures
            r@ == self@,
    {
        SignalEnvelope {
            from_player_id: self.from_player_id.clone(),
            room_id: self.room_id.clone(),
            signal_type: self.signal_type,
            flag: self.flag,
            text: self.text.clone(),
            created_at: self.created_at,
        }
    }
}

/// What waits for one player, oldest first.
pub struct Mailbox {
    pub player_id: String,
    pub queue: Vec<SignalEnvelope>,
}

/// A mailbox as the contracts see it.
#[verifier::ext_equal]
pub ghost struct BoxView {
    pub owner: Seq<char>,
    pub queue: Seq<EnvelopeView>,
}

pub struct SignalStore {
    pub boxes: Vec<Mailbox>,
}

pub open spec fn boxes_view(v: Seq<Mailbox>) -> Seq<BoxView> {
    v.map_values(|m: Mailbox| BoxView { owner: m.player_id@, queue: envelopes(m.queue@) })
}

impl View for SignalStore {
    type V = Seq<BoxView>;

    open spec fn view(&self) -> Seq<BoxView> {
        boxes_view(self.boxes@)
    }
}

impl Default for SignalStore {
    fn default() -> (r: SignalStore)
        ensures
            r@ == Seq::<BoxView>::empty(),
    {
        let r = SignalStore { boxes: Vec::new() };
        proof {
            assert(r@ =~= Seq::<BoxView>::empty());
        }
        r
    }
}

pub open spec fn box_at(s: Seq<BoxView>, id: Seq<char>) -> Option<int> {
    first_where(s, |m: BoxView| m.owner == id)
}

/// What waits for a player.
pub open spec fn waiting(s: Seq<BoxView>, id: Seq<char>) -> Seq<
    EnvelopeView,
> {
    match box_at(s, id) {
        Some(i) => s[i].queue,
        None => Seq::empty(),
    }
}

/// A queue with one more envelope; a full one loses its oldest.
pub open spec fn queued(q: Seq<EnvelopeView>, e: EnvelopeView) -> Seq<EnvelopeView> {
    if q.len() >= MAX_QUEUED_PER_PLAYER {
        q.remove(0).push(e)
    } else {
        q.push(e)
    }
}

pub open spec fn pushed(
    s: Seq<BoxView>,
    to: Seq<char>,
    e: EnvelopeView,
) -> Seq<BoxView> {
    match box_at(s, to) {
        Some(i) => s.update(i, BoxView { owner: to, queue: queued(s[i].queue, e) }),
        None => s.push(BoxView { owner: to, queue: seq![e] }),
    }
}

pub open spec fn without_box(s: Seq<BoxView>, id: Seq<char>) -> Seq<
    BoxView,
> {
    match box_at(s, id) {
        Some(i) => s.remove(i),
        None => s,
    }
}

impl SignalStore {
    /// Nobody has two mailboxes, and none is over its limit.
    pub open spec fn wf(&self) -> bool {
        sound(self@)
    }

    fn find(&self, id: &str) -> (r: Option<usize>)
        ensures
            match (r, box_at(self@, id@)) {
                (Some(a), Some(b)) => a == b && a < self.boxes@.len() && self@[b] == (BoxView {
                    owner: id@,
                    queue: envelopes(self.boxes@[b].queue@),
                }),
                (None, None) => true,
                _ => false,
            },
    {
        let ghost all = self@;
        let ghost p = |m: BoxView| m.owner == id@;
        let mut i: usize = 0;
        while i < self.boxes.len()
            invariant
                i <= self.boxes@.len(),
                all == self@,
                p == (|m: BoxView| m.owner == id@),
                forall|k: int| 0 <= k < i ==> !p(#[trigger] all[k]),
            decreases self.boxes@.len() - i,
        {
            proof {
                assert(all[i as int] == (BoxView {
                    owner: self.boxes@[i as int].player_id@,
                    queue: envelopes(self.boxes@[i as int].queue@),
                }));
            }
            if same(self.boxes[i].player_id.as_str(), id) {
                proof {
                    lemma_first_is(all, p, i as int);
                }
                return Some(i);
            }
            i = i + 1;
        }
        proof {
            lemma_first_none(all, p);
        }
        None
    }

    pub fn push_to(&mut self, to: &str, msg: SignalEnvelope)
        requires
            old(self).wf(),
        ensures
            final(self).wf(),
            final(self)@ == pushed(old(self)@, to@, msg@),
    {
        let ghost all = self@;
        let ghost e = msg@;
        match self.find(to) {
            Some(i) => {
                let ghost q = self.boxes@[i as int].queue@;
                if self.boxes[i].queue.len() >= MAX_QUEUED_PER_PLAYER {
                    let _ = self.boxes[i].queue.remove(0);
                }
                let ghost mid = self.boxes@[i as int].queue@;
                self.boxes[i].queue.push(msg);
                proof {
                    assert(envelopes(mid.push(msg)) =~= envelopes(mid).push(e));
                    if q.len() > 0 {
                        assert(envelopes(q.remove(0)) =~= envelopes(q).remove(0));
                    }
                    assert(envelopes(self.boxes@[i as int].queue@) == queued(envelopes(q), e));
                    assert(self@ =~= pushed(all, to@, e));
                }
            },
            None => {
                let mut queue: Vec<SignalEnvelope> = Vec::new();
                queue.push(msg);
                let ghost before = self.boxes@;
                proof {
                    assert(envelopes(queue@) =~= seq![e]);
                }
                self.boxes.push(Mailbox { player_id: to.to_owned(), queue });
                proof {
                    assert(self@ =~= all.push(BoxView { owner: to@, queue: seq![e] }));
                }
            },
        }
        proof {
            lemma_pushed_sound(all, to@, e);
        }
    }

    /// Takes what waits for a player.
    pub fn drain(&mut self, player_id: &str) -> (r: Vec<SignalEnvelope>)
        requires
            old(self).wf(),
        ensures
            final(self).wf(),
            envelopes(r@) == waiting(old(self)@, player_id@),
            final(self)@ == without_box(old(self)@, player_id@),
    {
        let ghost all = self@;
        match self.find(player_id) {
            Some(i) => {
                let m = self.boxes.remove(i);
                proof {
                    assert(self@ =~= all.remove(i as int));
                    lemma_without_sound(all, player_id@);
                }
                m.queue
            },
            None => {
                let r: Vec<SignalEnvelope> = Vec::new();
                proof {
                    assert(envelopes(r@) =~= Seq::<EnvelopeView>::empty());
                }
                r
            },
        }
    }

    pub fn clear_player(&mut self, player_id: &str)
        requires
            old(self).wf(),
        ensures
            final(self).wf(),
            final(self)@ == without_box(old(self)@, player_id@),
    {
        let _ = self.drain(player_id);
    }
}

// -------------------------------------------------------------------- laws

/// Nobody has two mailboxes, and none is over its limit.
pub open spec fn sound(s: Seq<BoxView>) -> bool {
    &&& forall|i: int, j: int| 0 <= i < j < s.len() ==> (#[trigger] s[i]).owner != (#[trigger] s[j]).owner
    &&& forall|i: int| 0 <= i < s.len() ==> (#[trigger] s[i]).queue.len() <= MAX_QUEUED_PER_PLAYER
}

pub proof fn lemma_pushed_sound(s: Seq<BoxView>, to: Seq<char>, e: EnvelopeView)
    requires
        sound(s),
    ensures
        sound(pushed(s, to, e)),
{
    lemma_first_where(s, |m: BoxView| m.owner == to);
    let t = pushed(s, to, e);
    match box_at(s, to) {
        Some(i) => {
            assert forall|a: int, b: int| 0 <= a < b < t.len() implies (#[trigger] t[a]).owner != (
            #[trigger] t[b]).owner by {
                assert(t[a].owner == s[a].owner && t[b].owner == s[b].owner);
            }
        },
        None => {
            assert forall|a: int, b: int| 0 <= a < b < t.len() implies (#[trigger] t[a]).owner != (
            #[trigger] t[b]).owner by {
                assert(t[a] == s[a]);
                if b < s.len() {
                    assert(t[b] == s[b]);
                }
            }
        },
    }
}

pub proof fn lemma_without_sound(s: Seq<BoxView>, id: Seq<char>)
    requires
        sound(s),
    ensures
        sound(without_box(s, id)),
        box_at(without_box(s, id), id) is None,
{
    let p = |m: BoxView| m.owner == id;
    lemma_first_where(s, p);
    let t = without_box(s, id);
    match box_at(s, id) {
        Some(i) => {
            assert forall|k: int| 0 <= k < t.len() implies (#[trigger] t[k]) == s[if k < i {
                k
            } else {
                k + 1
            }] by {}
            assert forall|k: int| 0 <= k < t.len() implies !p(#[trigger] t[k]) by {
                let j = if k < i {
                    k
                } else {
                    k + 1
                };
                assert(t[k] == s[j]);
                if j < i {
                    assert(s[j].owner != s[i].owner);
                } else {
                    assert(s[i].owner != s[j].owner);
                }
            }
            lemma_first_none(t, p);
        },
        None => {},
    }
}

/// What is pushed to a player waits for it, behind what waited before; what is
/// drained waits no more.
pub proof fn law_push_then_drain(
    s: Seq<BoxView>,
    to: Seq<char>,
    e: EnvelopeView,
)
    requires
        sound(s),
    ensures
        waiting(pushed(s, to, e), to) == queued(waiting(s, to), e),
        waiting(without_box(pushed(s, to, e), to), to) == Seq::<EnvelopeView>::empty(),
{
    let p = |m: BoxView| m.owner == to;
    let t = pushed(s, to, e);
    lemma_first_where(s, p);
    lemma_pushed_sound(s, to, e);
    match box_at(s, to) {
        Some(i) => {
            assert forall|k: int| 0 <= k < i implies !p(#[trigger] t[k]) by {
                assert(t[k] == s[k]);
            }
            lemma_first_is(t, p, i);
        },
        None => {
            assert forall|k: int| 0 <= k < s.len() implies !p(#[trigger] t[k]) by {
                assert(t[k] == s[k]);
            }
            lemma_first_is(t, p, s.len() as int);
            assert(seq![e] =~= Seq::<EnvelopeView>::empty().push(e));
        },
    }
    lemma_without_sound(t, to);
}

/// Nobody else's mail changes.
pub proof fn law_mailboxes_are_apart(
    s: Seq<BoxView>,
    to: Seq<char>,
    e: EnvelopeView,
    other: Seq<char>,
)
    requires
        other != to,
    ensures
        waiting(pushed(s, to, e), other) == waiting(s, other),
{
    let p = |m: BoxView| m.owner == other;
    let t = pushed(s, to, e);
    lemma_first_where(s, p);
    lemma_first_where(s, |m: BoxView| m.owner == to);
    assert forall|k: int| 0 <= k < s.len() implies p(#[trigger] t[k]) == p(s[k]) by {
        match box_at(s, to) {
            Some(i) => {
                if k == i {
                    assert(s[k].owner == to);
                }
            },
            None => {
                assert(t[k] == s[k]);
            },
        }
    }
    match box_at(s, other) {
        Some(j) => {
            assert forall|k: int| 0 <= k < j implies !p(#[trigger] t[k]) by {
                assert(!p(s[k]));
            }
            assert(p(t[j]));
            lemma_first_is(t, p, j);
        },
        None => {
            assert forall|k: int| 0 <= k < t.len() implies !p(#[trigger] t[k]) by {
                if k < s.len() {
                    assert(!p(s[k]));
                }
            }
            lemma_first_none(t, p);
        },
    }
}

/// The newest signal waits last; what waited before it keeps its order, and only
/// the oldest goes, and that only where there are as many as may wait.
pub proof fn law_the_newest_waits_last(s: Seq<BoxView>, to: Seq<char>, e: EnvelopeView)
    requires
        sound(s),
    ensures
        ({
            let before = waiting(s, to);
            let after = waiting(pushed(s, to, e), to);
            &&& after.len() > 0
            &&& after.last() == e
            &&& before.len() < MAX_QUEUED_PER_PLAYER ==> after.drop_last() == before
            &&& before.len() == MAX_QUEUED_PER_PLAYER ==> after.drop_last() == before.skip(1)
        }),
{
    law_push_then_drain(s, to, e);
    lemma_first_where(s, |m: BoxView| m.owner == to);
    let before = waiting(s, to);
    let after = waiting(pushed(s, to, e), to);
    if before.len() < MAX_QUEUED_PER_PLAYER {
        assert(after.drop_last() =~= before);
    } else {
        assert(after.drop_last() =~= before.skip(1));
    }
}

} // verus!
