//! How a device shows that it holds a key without sending it: it is given a
//! nonce, and answers with a code over the nonce.

use crate::find::{first_where, lemma_first_is, lemma_first_none};
use crate::outside::{hex_encode, hex_of, hmac_sha256, hmac_sha256_of, random_bytes};
use crate::text::{chars_of, digit_value, same, value_of, views};
use vstd::prelude::*;
use vstd::string::*;
use vstd::utf8::encode_utf8;

verus! {

/// How long a device has to answer, in seconds.
pub const NONCE_TTL_SECS: u64 = 60;

/// A nonce that was given out, with when that was, in milliseconds.
pub struct Nonce {
    pub text: String,
    pub at: u64,
}

#[verifier::ext_equal]
pub ghost struct NonceView {
    pub text: Seq<char>,
    pub at: u64,
}

impl View for Nonce {
    type V = NonceView;

    open spec fn view(&self) -> NonceView {
        NonceView { text: self.text@, at: self.at }
    }
}

/// The nonces that nobody has answered yet.
pub struct ChallengeStore {
    pub nonces: Vec<Nonce>,
}

impl View for ChallengeStore {
    type V = Seq<NonceView>;

    open spec fn view(&self) -> Seq<NonceView> {
        self.nonces@.map_values(|n: Nonce| n@)
    }
}

impl Default for ChallengeStore {
    fn default() -> (r: ChallengeStore)
        ensures
            r@.len() == 0,
    {
        ChallengeStore { nonces: Vec::new() }
    }
}

/// Whether a nonce may still be answered.
pub open spec fn live(n: NonceView, now: u64) -> bool {
    now < n.at || now - n.at < NONCE_TTL_SECS * 1000
}

/// The nonces that may still be answered, but for `text`.
pub open spec fn live_but(s: Seq<NonceView>, text: Seq<char>, now: u64) -> Seq<NonceView>
    decreases s.len(),
{
    if s.len() == 0 {
        Seq::empty()
    } else if live(s.last(), now) && s.last().text != text {
        live_but(s.drop_last(), text, now).push(s.last())
    } else {
        live_but(s.drop_last(), text, now)
    }
}

/// Whether `text` is a nonce that may still be answered.
pub open spec fn answerable(s: Seq<NonceView>, text: Seq<char>, now: u64) -> bool {
    exists|i: int| 0 <= i < s.len() && (#[trigger] s[i]).text == text && live(s[i], now)
}

/// The store once `text` was given out.
pub open spec fn challenged(s: Seq<NonceView>, text: Seq<char>, now: u64) -> Seq<NonceView> {
    live_but(s, text, now).push(NonceView { text, at: now })
}

impl ChallengeStore {
    /// Drops what may not be answered any more, and `text`. Tells whether `text`
    /// was there to be answered.
    fn sweep(&mut self, text: &str, now: u64) -> (r: bool)
        ensures
            r == answerable(old(self)@, text@, now),
            final(self)@ == live_but(old(self)@, text@, now),
    {
        let ghost all = self@;
        let mut old_nonces: Vec<Nonce> = Vec::new();
        std::mem::swap(&mut old_nonces, &mut self.nonces);
        let mut kept: Vec<Nonce> = Vec::new();
        let mut hit = false;
        let mut i: usize = 0;
        let ghost given = old_nonces@;
        proof {
            assert(all.take(0) =~= Seq::<NonceView>::empty());
            assert(kept@.map_values(|n: Nonce| n@) =~= Seq::<NonceView>::empty());
        }
        while i < old_nonces.len()
            invariant
                i <= old_nonces@.len(),
                old_nonces@ == given,
                all == given.map_values(|n: Nonce| n@),
                kept@.map_values(|n: Nonce| n@) == live_but(all.take(i as int), text@, now),
                hit == answerable(all.take(i as int), text@, now),
            decreases old_nonces@.len() - i,
        {
            let n = &old_nonces[i];
            let ghost t = all.take(i + 1);
            let ghost before = all.take(i as int);
            proof {
                assert(t.drop_last() =~= before);
                assert(t.last() == n@);
                assert forall|k: int| 0 <= k < before.len() implies before[k] == t[k] by {}
                assert(t[i as int] == n@);
            }
            let fresh = now < n.at || now - n.at < NONCE_TTL_SECS * 1000;
            if fresh {
                if same(n.text.as_str(), text) {
                    hit = true;
                } else {
                    let copy = Nonce { text: n.text.clone(), at: n.at };
                    let ghost had = kept@;
                    kept.push(copy);
                    proof {
                        assert(kept@.map_values(|n: Nonce| n@) =~= had.map_values(
                            |n: Nonce| n@,
                        ).push(copy@));
                    }
                }
            }
            proof {
                assert(hit == answerable(t, text@, now)) by {
                    if answerable(before, text@, now) {
                        let k = choose|k: int|
                            0 <= k < before.len() && (#[trigger] before[k]).text == text@ && live(
                                before[k],
                                now,
                            );
                        assert(t[k].text == text@);
                    }
                    if answerable(t, text@, now) {
                        let k = choose|k: int|
                            0 <= k < t.len() && (#[trigger] t[k]).text == text@ && live(t[k], now);
                        if k < i {
                            assert(before[k].text == text@);
                        }
                    }
                }
            }
            i = i + 1;
        }
        proof {
            assert(all.take(given.len() as int) =~= all);
        }
        self.nonces = kept;
        hit
    }

    /// Gives out a nonce.
    pub fn issue_as(&mut self, text: &str, now: u64)
        ensures
            final(self)@ == challenged(old(self)@, text@, now),
    {
        let _ = self.sweep(text, now);
        let ghost before = self@;
        self.nonces.push(Nonce { text: text.to_owned(), at: now });
        proof {
            assert(self@ =~= before.push(NonceView { text: text@, at: now }));
        }
    }

    /// Gives out a nonce by chance: 32 bytes in hexadecimal.
    pub fn issue(&mut self, now: u64) -> (r: String)
        ensures
            exists|bytes: Seq<u8>| bytes.len() == 32 && r@ == #[trigger] hex_of(bytes),
            final(self)@ == challenged(old(self)@, r@, now),
    {
        let text = hex_encode(&random_bytes(32));
        self.issue_as(text.as_str(), now);
        text
    }

    /// Spends a nonce, and tells whether it could be answered. Whatever comes of
    /// the answer, it cannot be given again.
    pub fn take(&mut self, text: &str, now: u64) -> (r: bool)
        ensures
            r == answerable(old(self)@, text@, now),
            final(self)@ == live_but(old(self)@, text@, now),
    {
        self.sweep(text, now)
    }
}

// --------------------------------------------------------------- the proof

/// The bytes that some hexadecimal digits write, two for each.
pub open spec fn unhexed(s: Seq<char>) -> Option<Seq<u8>>
    decreases s.len(),
{
    if s.len() == 0 {
        Some(Seq::empty())
    } else if s.len() == 1 {
        None
    } else {
        match (
            unhexed(s.take(s.len() - 2)),
            digit_value(s[s.len() - 2]),
            digit_value(s[s.len() - 1]),
        ) {
            (Some(b), Some(h), Some(l)) => Some(b.push((16 * h + l) as u8)),
            _ => None,
        }
    }
}

fn unhex(s: &str) -> (r: Option<Vec<u8>>)
    ensures
        match (r, unhexed(s@)) {
            (Some(a), Some(b)) => a@ == b,
            (None, None) => true,
            _ => false,
        },
{
    let v = chars_of(s);
    let mut out: Vec<u8> = Vec::new();
    let mut i: usize = 0;
    proof {
        assert(v@.take(0) =~= Seq::<char>::empty());
    }
    while v.len() - i >= 2
        invariant
            i <= v@.len(),
            i % 2 == 0,
            v@ == s@,
            unhexed(v@.take(i as int)) == Some(out@),
        decreases v@.len() - i,
    {
        let ghost t = v@.take(i + 2);
        proof {
            assert(t.take(t.len() - 2) =~= v@.take(i as int));
        }
        match (value_of(v[i]), value_of(v[i + 1])) {
            (Some(h), Some(l)) => {
                out.push((16 * h + l) as u8);
            },
            _ => {
                proof {
                    assert(unhexed(t) is None);
                    lemma_spoiled(v@, i + 2);
                }
                return None;
            },
        }
        i = i + 2;
    }
    if i < v.len() {
        proof {
            lemma_odd(v@);
        }
        return None;
    }
    proof {
        assert(v@.take(i as int) =~= v@);
    }
    Some(out)
}

proof fn lemma_spoiled(s: Seq<char>, k: int)
    requires
        0 <= k <= s.len(),
        k % 2 == 0,
        unhexed(s.take(k)) is None,
    ensures
        unhexed(s) is None,
    decreases s.len(),
{
    if k == s.len() {
        assert(s.take(k) =~= s);
    } else if s.len() - k == 1 {
        lemma_odd(s);
    } else {
        let t = s.take(s.len() - 2);
        assert(t.take(k) =~= s.take(k));
        lemma_spoiled(t, k);
    }
}

proof fn lemma_odd(s: Seq<char>)
    ensures
        s.len() % 2 == 1 ==> unhexed(s) is None,
    decreases s.len(),
{
    if s.len() >= 2 {
        lemma_odd(s.take(s.len() - 2));
    }
}

/// Whether `proof_text` shows that a device holds the key whose digest is
/// stored: it is the HMAC-SHA256 of the nonce under the digest, in hexadecimal.
pub open spec fn shows(stored: Seq<char>, nonce: Seq<char>, proof_text: Seq<char>) -> bool {
    match unhexed(stored) {
        Some(key) => proof_text == hex_of(hmac_sha256_of(key, encode_utf8(nonce))),
        None => false,
    }
}

pub fn proves(stored: &str, nonce: &str, proof_text: &str) -> (r: bool)
    ensures
        r == shows(stored@, nonce@, proof_text@),
{
    match unhex(stored) {
        Some(key) => {
            let code = hmac_sha256(key.as_slice(), nonce.as_bytes());
            same(hex_encode(&code).as_str(), proof_text)
        },
        None => false,
    }
}

/// Which of a player's keys a proof shows, given the digests stored for them.
pub fn proving_key(stored: &Vec<String>, nonce: &str, proof_text: &str) -> (r: Option<usize>)
    ensures
        match (
            r,
            first_where(views(stored@), |h: Seq<char>| shows(h, nonce@, proof_text@)),
        ) {
            (Some(a), Some(b)) => a == b,
            (None, None) => true,
            _ => false,
        },
{
    let ghost all = views(stored@);
    let ghost p = |h: Seq<char>| shows(h, nonce@, proof_text@);
    let mut i: usize = 0;
    while i < stored.len()
        invariant
            i <= stored@.len(),
            all == views(stored@),
            p == (|h: Seq<char>| shows(h, nonce@, proof_text@)),
            forall|k: int| 0 <= k < i ==> !p(#[trigger] all[k]),
        decreases stored@.len() - i,
    {
        proof {
            assert(all[i as int] == stored@[i as int]@);
        }
        if proves(stored[i].as_str(), nonce, proof_text) {
            proof {
                lemma_first_is(all, p, i as int);
            }
            return Some(i);
        }
        i = i + 1;
    }
    proof {
        lemma_first_none(all, p);
    }
    None
}

// -------------------------------------------------------------------- laws

proof fn lemma_live_but(s: Seq<NonceView>, text: Seq<char>, now: u64)
    ensures
        forall|i: int|
            0 <= i < live_but(s, text, now).len() ==> (#[trigger] live_but(s, text, now)[i]).text
                != text,
    decreases s.len(),
{
    if s.len() > 0 {
        let d = live_but(s.drop_last(), text, now);
        let t = live_but(s, text, now);
        lemma_live_but(s.drop_last(), text, now);
        assert forall|i: int| 0 <= i < t.len() implies (#[trigger] t[i]).text != text by {
            if i < d.len() {
                assert(t[i] == d[i]);
            }
        }
    }
}

/// A nonce is spent by the first answer, whatever that was worth.
pub proof fn law_a_nonce_is_spent(s: Seq<NonceView>, text: Seq<char>, now: u64, later: u64)
    ensures
        !answerable(live_but(s, text, now), text, later),
{
    lemma_live_but(s, text, now);
}

/// A nonce that was just given out can be answered for a minute, and no longer.
pub proof fn law_a_nonce_lives_a_minute(s: Seq<NonceView>, text: Seq<char>, now: u64, later: u64)
    requires
        now <= later,
    ensures
        answerable(challenged(s, text, now), text, later) <==> later - now < NONCE_TTL_SECS * 1000,
{
    lemma_live_but(s, text, now);
    let t = challenged(s, text, now);
    let n = t.len() - 1;
    assert(t[n] == (NonceView { text, at: now }));
    assert forall|i: int| 0 <= i < n implies (#[trigger] t[i]).text != text by {
        assert(t[i] == live_but(s, text, now)[i]);
    }
}

/// Spending a nonce, or giving out a new one, leaves every other that is still
/// alive as it is, and brings none back.
pub proof fn law_other_nonces_live_on(
    s: Seq<NonceView>,
    text: Seq<char>,
    now: u64,
    other: Seq<char>,
)
    requires
        other != text,
    ensures
        answerable(live_but(s, text, now), other, now) <==> answerable(s, other, now),
        answerable(challenged(s, text, now), other, now) <==> answerable(s, other, now),
    decreases s.len(),
{
    let t = live_but(s, text, now);
    if s.len() > 0 {
        let rest = s.drop_last();
        law_other_nonces_live_on(rest, text, now, other);
        let b = live_but(rest, text, now);
        if answerable(s, other, now) {
            let i = choose|i: int| 0 <= i < s.len() && (#[trigger] s[i]).text == other && live(
                s[i],
                now,
            );
            if i < rest.len() {
                assert(rest[i] == s[i]);
                let k = choose|k: int| 0 <= k < b.len() && (#[trigger] b[k]).text == other && live(
                    b[k],
                    now,
                );
                assert(t[k] == b[k]);
            } else {
                assert(t[b.len() as int] == s[i]);
            }
        }
        if answerable(t, other, now) {
            let k = choose|k: int| 0 <= k < t.len() && (#[trigger] t[k]).text == other && live(
                t[k],
                now,
            );
            if k < b.len() {
                assert(b[k] == t[k]);
                let i = choose|i: int| 0 <= i < rest.len() && (#[trigger] rest[i]).text == other
                    && live(rest[i], now);
                assert(s[i] == rest[i]);
            } else {
                assert(s[s.len() - 1] == t[k]);
            }
        }
    }
    let c = challenged(s, text, now);
    if answerable(t, other, now) {
        let k = choose|k: int| 0 <= k < t.len() && (#[trigger] t[k]).text == other && live(
            t[k],
            now,
        );
        assert(c[k] == t[k]);
    }
    if answerable(c, other, now) {
        let k = choose|k: int| 0 <= k < c.len() && (#[trigger] c[k]).text == other && live(
            c[k],
            now,
        );
        assert(t[k] == c[k]);
    }
}

/// Two digits for each byte, the higher one first, give the bytes back.
pub proof fn law_digits_give_their_bytes(s: Seq<char>, b: Seq<u8>)
    requires
        s.len() == 2 * b.len(),
        forall|i: int|
            0 <= i < b.len() ==> digit_value(s[2 * i]) == Some(#[trigger] b[i] as int / 16)
                && digit_value(s[2 * i + 1]) == Some(b[i] as int % 16),
    ensures
        unhexed(s) == Some(b),
    decreases s.len(),
{
    if b.len() == 0 {
        assert(b =~= Seq::<u8>::empty());
    } else {
        let t = s.take(s.len() - 2);
        let c = b.drop_last();
        let n = b.len() - 1;
        assert forall|i: int| 0 <= i < c.len() implies digit_value(t[2 * i]) == Some(
            #[trigger] c[i] as int / 16,
        ) && digit_value(t[2 * i + 1]) == Some(c[i] as int % 16) by {
            assert(c[i] == b[i]);
        }
        law_digits_give_their_bytes(t, c);
        assert(digit_value(s[2 * n]) == Some(b[n] as int / 16));
        assert(c.push(b[n]) =~= b);
    }
}

/// A proof shows the key whose digest is stored in digits exactly where it is the
/// code of the nonce under that digest.
pub proof fn law_a_proof_is_of_its_key(
    stored: Seq<char>,
    key: Seq<u8>,
    nonce: Seq<char>,
    proof_text: Seq<char>,
)
    requires
        stored.len() == 2 * key.len(),
        forall|i: int|
            0 <= i < key.len() ==> digit_value(stored[2 * i]) == Some(#[trigger] key[i] as int / 16)
                && digit_value(stored[2 * i + 1]) == Some(key[i] as int % 16),
    ensures
        shows(stored, nonce, proof_text) <==> proof_text == hex_of(
            hmac_sha256_of(key, encode_utf8(nonce)),
        ),
{
    law_digits_give_their_bytes(stored, key);
}

} // verus!
