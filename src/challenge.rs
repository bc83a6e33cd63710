//! The round coordinator: it registers participants by network address,
//! starts rounds by splitting a fresh random pad among them, and accepts one
//! reconstruction of the pad per round, within a time limit.
use crate::crypto::{
    combined, fill_random, is_split, lemma_combine_split, split_secret, views,
    xor_bytes, xor_in_place, zero_bytes,
};
use vstd::prelude::*;
use vstd::string::StringSliceAdditionalSpecFns;

verus! {

/// How long after a round starts its pad may be submitted, in nanoseconds.
pub const TIME_LIMIT_NANOS: u64 = 1_000_000_000;

/// The fewest shares a round hands out, however few participants there are.
pub const MIN_PARTS: usize = 3;

/// Standard, padded base64 encoding of some bytes.
pub uninterp spec fn base64_encoding(b: Seq<u8>) -> Seq<char>;

/// Relies on base64's `encode` (standard alphabet, padded): a function of the
/// bytes alone, four characters for each started group of three bytes. It
/// panics when that length overflows `usize`, which the bound rules out.
#[verifier::external_body]
fn encode_base64(b: &[u8]) -> (r: String)
    requires
        b@.len() <= usize::MAX / 2,
    ensures
        r@ == base64_encoding(b@),
        r@.len() == 4 * ((b@.len() + 2) / 3),
{
    base64::encode(b)
}

fn bytes_equal(a: &[u8], b: &[u8]) -> (r: bool)
    ensures
        r == (a@ == b@),
{
    if a.len() != b.len() {
        return false;
    }
    let mut i: usize = 0;
    while i < a.len()
        invariant
            a@.len() == b@.len(),
            i <= a@.len(),
            forall|j: int| 0 <= j < i ==> a@[j] == b@[j],
        decreases a@.len() - i,
    {
        if a[i] != b[i] {
            return false;
        }
        i = i + 1;
    }
    assert(a@ =~= b@);
    true
}

/// A network address, as the participant registry keys it.
#[derive(Clone, Copy, Debug, PartialEq, Eq, Structural)]
pub enum PeerAddr {
    V4(u32),
    V6(u128),
}

/// The random payload of a round, and when the round started.
pub struct OneTimePad {
    value: Vec<u8>,
    created: u64,
}

/// Why a submission was refused.
#[derive(Clone, Copy, Debug, PartialEq, Eq, Structural)]
pub enum FailureReason {
    InvalidSecretKey,
    LateSubmission,
}

/// The shares of a round that just started. `recipients[i]` is owed
/// `shares[i]`; there are at least as many shares as recipients.
pub struct RoundShares<S> {
    pub shares: Vec<Vec<u8>>,
    pub recipients: Vec<S>,
}

/// The state of the challenge: the participants waiting for the next round,
/// keyed by address, with a connection handle `S` each; the pad of the
/// current round, if it is still pending; the round counter; the secret.
pub struct Challenge<S> {
    players: Vec<(PeerAddr, S)>,
    one_time_pad: Option<OneTimePad>,
    round: u64,
    secret: Vec<u8>,
}

/// How many shares a round with `num_players` participants hands out.
pub open spec fn parts_for(num_players: nat) -> nat {
    if num_players < MIN_PARTS {
        MIN_PARTS as nat
    } else {
        num_players
    }
}

/// A pad created at `created` may still be submitted at `now`: less than the
/// time limit has passed (no time at all if the clock reads earlier).
pub open spec fn in_time(created: u64, now: u64) -> bool {
    now <= created || now - created < TIME_LIMIT_NANOS
}

/// The outcome of submitting `submission` at `now` while `pad` (value and
/// creation time) is pending, for the secret `secret`.
pub open spec fn outcome(
    secret: Seq<u8>,
    pad: Option<(Seq<u8>, u64)>,
    submission: Seq<u8>,
    now: u64,
) -> Result<Seq<char>, FailureReason> {
    match pad {
        None => Err(FailureReason::LateSubmission),
        Some((value, created)) => if !in_time(created, now) {
            Err(FailureReason::LateSubmission)
        } else if value != submission {
            Err(FailureReason::InvalidSecretKey)
        } else {
            Ok(base64_encoding(xor_bytes(secret, value)))
        },
    }
}

/// `r` is the executable form of the outcome `o`.
pub open spec fn result_is(r: Result<String, FailureReason>, o: Result<Seq<char>, FailureReason>) -> bool {
    match o {
        Ok(s) => r is Ok && r->Ok_0@ == s,
        Err(e) => r == Err::<String, FailureReason>(e),
    }
}

impl<S> Challenge<S> {
    /// The participants waiting for the next round, in order of registration.
    pub closed spec fn players_spec(&self) -> Seq<(PeerAddr, S)> {
        self.players@
    }

    /// The pending pad, as its value and its creation time.
    pub closed spec fn pad_spec(&self) -> Option<(Seq<u8>, u64)> {
        match self.one_time_pad {
            None => None,
            Some(p) => Some((p.value@, p.created)),
        }
    }

    /// The round counter.
    pub closed spec fn round_spec(&self) -> u64 {
        self.round
    }

    /// The bytes of the secret.
    pub closed spec fn secret_spec(&self) -> Seq<u8> {
        self.secret@
    }

    /// No two participants share an address; the secret can be base64
    /// encoded; a pending pad is as long as the secret.
    pub open spec fn wf(&self) -> bool {
        &&& forall|i: int, j: int|
            0 <= i < j < self.players_spec().len() ==> (#[trigger] self.players_spec()[i]).0
                != (#[trigger] self.players_spec()[j]).0
        &&& self.secret_spec().len() <= usize::MAX / 2
        &&& match self.pad_spec() {
            None => true,
            Some((v, _)) => v.len() == self.secret_spec().len(),
        }
    }

    /// `addr` is registered for the next round.
    pub open spec fn has_player(&self, addr: PeerAddr) -> bool {
        exists|i: int| 0 <= i < self.players_spec().len() && (#[trigger] self.players_spec()[i]).0 == addr
    }

    /// A challenge over the bytes of `secret`, with nobody registered, no pad
    /// pending and the round counter at zero.
    pub fn new(secret: &str) -> (r: Challenge<S>)
        requires
            secret.spec_bytes().len() <= usize::MAX / 2,
        ensures
            r.wf(),
            r.players_spec().len() == 0,
            r.pad_spec() is None,
            r.round_spec() == 0,
            r.secret_spec() == secret.spec_bytes(),
    {
        Challenge {
            players: Vec::new(),
            one_time_pad: None,
            round: 0,
            secret: vstd::slice::slice_to_vec(secret.as_bytes()),
        }
    }

    /// The number of the current round (zero before the first).
    pub fn round(&self) -> (r: u64)
        ensures
            r == self.round_spec(),
    {
        self.round
    }

    /// Whether this round's pad is still waiting for a submission.
    pub fn has_pending_pad(&self) -> (r: bool)
        ensures
            r == self.pad_spec() is Some,
    {
        self.one_time_pad.is_some()
    }

    /// The number of participants registered for the next round.
    pub fn num_players(&self) -> (r: usize)
        ensures
            r == self.players_spec().len(),
    {
        self.players.len()
    }

    fn find_player(&self, addr: PeerAddr) -> (r: bool)
        ensures
            r == self.has_player(addr),
    {
        let mut i: usize = 0;
        while i < self.players.len()
            invariant
                i <= self.players@.len(),
                forall|j: int| 0 <= j < i ==> (#[trigger] self.players@[j]).0 != addr,
            decreases self.players@.len() - i,
        {
            if self.players[i].0 == addr {
                assert(self.players_spec()[i as int].0 == addr);
                return true;
            }
            i = i + 1;
        }
        false
    }

    /// Registers `conn`, from `addr`, for the next round. An address that is
    /// already registered keeps its first connection: the new one is handed
    /// back in `Err`, for the caller to close.
    pub fn add_player(&mut self, addr: PeerAddr, conn: S) -> (r: Result<(), S>)
        requires
            old(self).wf(),
        ensures
            final(self).wf(),
            final(self).pad_spec() == old(self).pad_spec(),
            final(self).round_spec() == old(self).round_spec(),
            final(self).secret_spec() == old(self).secret_spec(),
            old(self).has_player(addr) ==> r == Err::<(), S>(conn) && final(self).players_spec()
                == old(self).players_spec(),
            !old(self).has_player(addr) ==> r is Ok && final(self).players_spec()
                == old(self).players_spec().push((addr, conn)),
    {
        if self.find_player(addr) {
            Err(conn)
        } else {
            let ghost before = self.players@;
            self.players.push((addr, conn));
            assert forall|i: int, j: int|
                0 <= i < j < self.players_spec().len() implies (#[trigger] self.players_spec()[i]).0
                != (#[trigger] self.players_spec()[j]).0 by {
                if j < before.len() {
                    assert(self.players@[i] == before[i] && self.players@[j] == before[j]);
                } else {
                    assert(!old(self).has_player(addr));
                    assert(self.players@[i] == old(self).players_spec()[i]);
                    assert(old(self).players_spec()[i].0 != addr);
                    assert(self.players@[j] == (addr, conn));
                }
            }
            Ok(())
        }
    }

    fn verify_submission(submission: &[u8], one_time_pad: &OneTimePad, now: u64) -> (r: Result<
        (),
        FailureReason,
    >)
        ensures
            !in_time(one_time_pad.created, now) ==> r == Err::<(), FailureReason>(
                FailureReason::LateSubmission,
            ),
            in_time(one_time_pad.created, now) && one_time_pad.value@ != submission@ ==> r == Err::<
                (),
                FailureReason,
            >(FailureReason::InvalidSecretKey),
            in_time(one_time_pad.created, now) && one_time_pad.value@ == submission@ ==> r is Ok,
    {
        if now <= one_time_pad.created || now - one_time_pad.created < TIME_LIMIT_NANOS {
            if bytes_equal(one_time_pad.value.as_slice(), submission) {
                Ok(())
            } else {
                Err(FailureReason::InvalidSecretKey)
            }
        } else {
            Err(FailureReason::LateSubmission)
        }
    }

    /// Takes this round's pad, whatever comes of it, and checks `submission`,
    /// received at `now`, against it. A match in time releases the secret
    /// XOR the pad, base64 encoded. With no pad pending, or out of time, the
    /// submission is late; in time but different from the pad, it is invalid.
    pub fn submit_secret_key(&mut self, submission: &[u8], now: u64) -> (r: Result<
        String,
        FailureReason,
    >)
        requires
            old(self).wf(),
        ensures
            final(self).wf(),
            final(self).pad_spec() is None,
            final(self).players_spec() == old(self).players_spec(),
            final(self).round_spec() == old(self).round_spec(),
            final(self).secret_spec() == old(self).secret_spec(),
            result_is(r, outcome(old(self).secret_spec(), old(self).pad_spec(), submission@, now)),
    {
        let taken = self.one_time_pad.take();
        assert(self.players_spec() == old(self).players_spec());
        assert(self.wf());
        match taken {
            None => Err(FailureReason::LateSubmission),
            Some(one_time_pad) => match Self::verify_submission(submission, &one_time_pad, now) {
                Ok(()) => {
                    let mut secret_bytes = vstd::slice::slice_to_vec(self.secret.as_slice());
                    xor_in_place(secret_bytes.as_mut_slice(), one_time_pad.value.as_slice());
                    Ok(encode_base64(secret_bytes.as_slice()))
                },
                Err(e) => Err(e),
            },
        }
    }

    /// Starts a round at `now`: a fresh random pad as long as the secret is
    /// split into `max(MIN_PARTS, participants)` shares, the registered
    /// participants are drained in order and each is owed one share, and the
    /// pad becomes pending, replacing any earlier one.
    pub fn start_new_round(&mut self, now: u64) -> (r: RoundShares<S>)
        requires
            old(self).wf(),
            old(self).round_spec() < u64::MAX,
        ensures
            final(self).wf(),
            final(self).round_spec() == old(self).round_spec() + 1,
            final(self).secret_spec() == old(self).secret_spec(),
            final(self).players_spec().len() == 0,
            final(self).pad_spec() is Some,
            final(self).pad_spec()->Some_0.0.len() == old(self).secret_spec().len(),
            final(self).pad_spec()->Some_0.1 == now,
            r.shares@.len() == parts_for(old(self).players_spec().len()),
            is_split(
                views(r.shares@),
                final(self).pad_spec()->Some_0.0,
                parts_for(old(self).players_spec().len()),
            ),
            r.recipients@ == old(self).players_spec().map_values(|p: (PeerAddr, S)| p.1),
    {
        self.round = self.round + 1;
        let mut random_bytes = zero_bytes(self.secret.len());
        fill_random(&mut random_bytes);
        let num_players = self.players.len();
        let num_parts = if num_players < MIN_PARTS {
            MIN_PARTS
        } else {
            num_players
        };
        let shares = split_secret(random_bytes.as_slice(), num_parts);

        let mut rest: Vec<(PeerAddr, S)> = Vec::new();
        std::mem::swap(&mut rest, &mut self.players);
        let ghost all = rest@;
        let mut recipients: Vec<S> = Vec::new();
        while rest.len() > 0
            invariant
                recipients@.len() + rest@.len() == all.len(),
                recipients@ == all.take(recipients@.len() as int).map_values(
                    |p: (PeerAddr, S)| p.1,
                ),
                rest@ == all.skip(recipients@.len() as int),
            decreases rest@.len(),
        {
            let (_addr, conn) = rest.remove(0);
            let ghost k = recipients@.len() as int;
            recipients.push(conn);
            assert(all.take(k + 1) =~= all.take(k).push(all[k]));
            assert(recipients@ =~= all.take(k + 1).map_values(|p: (PeerAddr, S)| p.1));
            assert(rest@ =~= all.skip(k + 1));
        }
        assert(all.take(all.len() as int) =~= all);
        self.one_time_pad = Some(OneTimePad { value: random_bytes, created: now });
        RoundShares { shares, recipients }
    }
}

/// Within a round, a submission of the pending pad in time succeeds; the pad
/// is then gone, so any later submission in the same round, even of the same
/// value, is late.
pub proof fn lemma_one_success_per_round(
    secret: Seq<u8>,
    value: Seq<u8>,
    created: u64,
    now: u64,
    later: Seq<u8>,
    later_now: u64,
)
    requires
        in_time(created, now),
    ensures
        outcome(secret, Some((value, created)), value, now) == Ok::<Seq<char>, FailureReason>(
            base64_encoding(xor_bytes(secret, value)),
        ),
        outcome(secret, None, later, later_now) == Err::<Seq<char>, FailureReason>(
            FailureReason::LateSubmission,
        ),
{
}

/// A submission made once the time limit has passed is late, whatever it
/// holds, the pad itself included.
pub proof fn lemma_late_rejected(secret: Seq<u8>, value: Seq<u8>, created: u64, submission: Seq<u8>, now: u64)
    requires
        now >= created + TIME_LIMIT_NANOS,
    ensures
        outcome(secret, Some((value, created)), submission, now) == Err::<Seq<char>, FailureReason>(
            FailureReason::LateSubmission,
        ),
{
}

/// Once a connection from `addr` has been registered, the address is taken:
/// a second registration from it is refused, and the first stays.
pub proof fn lemma_first_registration_stays<S>(
    before: Challenge<S>,
    after: Challenge<S>,
    addr: PeerAddr,
    conn: S,
)
    requires
        after.players_spec() == before.players_spec().push((addr, conn)),
    ensures
        after.has_player(addr),
        after.players_spec().contains((addr, conn)),
{
    let i = before.players_spec().len() as int;
    assert(after.players_spec()[i] == (addr, conn));
}

/// The shares of a round combine to its pad, and there are never fewer than
/// `MIN_PARTS` of them.
pub proof fn lemma_round_shares_combine(num_players: nat, pad: Seq<u8>, shares: Seq<Seq<u8>>)
    requires
        is_split(shares, pad, parts_for(num_players)),
    ensures
        shares.len() == parts_for(num_players),
        shares.len() >= MIN_PARTS,
        shares.len() >= num_players,
        combined(shares) == pad,
{
    lemma_combine_split(pad, parts_for(num_players), shares);
}

} // verus!
