//! The verifier side of the protocol: registered provers, outstanding
//! challenges, and the three protocol steps.
//!
//! An `AuthImpl` is owned by one task at a time: a service that answers many
//! callers at once holds it behind one lock (or hands it to a single task that
//! takes requests in turn), so that each step is one atomic transition.
//!
//! Challenges are keyed by their handle alone, so a prover may have any number
//! of them outstanding. A challenge stays stored after it has been answered,
//! right or wrong: a correct answer replayed on the same handle verifies again.
//! Neither store is ever pruned.

use crate::bignat::{be_value, is_minimal_be, BigNat};
use crate::group::{hex_value, GENERATOR_HEX, MODULUS_HEX, ORDER_HEX, SECOND_GENERATOR_EXPONENT_HEX};
use crate::zkp::{accepts, exp_mod, is_alphanumeric, ZKP};
use vstd::hash_map::StringHashMap;
use vstd::prelude::*;

verus! {

/// The length of a challenge handle and of a session token.
pub const HANDLE_LENGTH: usize = 12;

/// Why a protocol step was refused.
#[derive(PartialEq, Eq, Structural, Debug, Clone, Copy)]
pub enum AuthError {
    /// A challenge was asked for a user who never registered.
    UserNotFound,
    /// An answer was given for a handle that was never issued.
    ChallengeNotFound,
    /// The answer does not satisfy the verification equations.
    VerificationFailed,
}

/// The public commitments `y1 = alpha^x mod p` and `y2 = beta^x mod p` of a
/// registered prover.
pub struct ProverRecord {
    pub y1: BigNat,
    pub y2: BigNat,
}

impl View for ProverRecord {
    type V = (nat, nat);

    open spec fn view(&self) -> (nat, nat) {
        (self.y1@, self.y2@)
    }
}

/// What the verifier keeps of an outstanding challenge, as numbers.
pub struct PendingChallenge {
    pub user: Seq<char>,
    pub r1: nat,
    pub r2: nat,
    pub c: nat,
}

/// An outstanding challenge: the prover it was issued to, the prover's
/// commitments `r1 = alpha^k mod p` and `r2 = beta^k mod p`, and the challenge `c`.
pub struct ChallengeSession {
    pub user: String,
    pub r1: BigNat,
    pub r2: BigNat,
    pub c: BigNat,
}

impl View for ChallengeSession {
    type V = PendingChallenge;

    open spec fn view(&self) -> PendingChallenge {
        PendingChallenge { user: self.user@, r1: self.r1@, r2: self.r2@, c: self.c@ }
    }
}

/// The verifier's state: the group setting, the registered provers by name,
/// and the outstanding challenges by handle.
pub struct AuthImpl {
    group: ZKP,
    user_info: StringHashMap<ProverRecord>,
    auth_id_to_user: StringHashMap<ChallengeSession>,
}

impl AuthImpl {
    /// The group setting all arithmetic takes place in.
    pub closed spec fn group(&self) -> ZKP {
        self.group
    }

    /// The registered provers: name to `(y1, y2)`.
    pub closed spec fn records(&self) -> Map<Seq<char>, (nat, nat)> {
        self.user_info@.map_values(|r: ProverRecord| r@)
    }

    /// The outstanding challenges, by handle.
    pub closed spec fn challenges(&self) -> Map<Seq<char>, PendingChallenge> {
        self.auth_id_to_user@.map_values(|ch: ChallengeSession| ch@)
    }

    /// The moduli are positive, and every challenge belongs to a registered prover.
    pub open spec fn wf(&self) -> bool {
        &&& self.group().p@ > 0
        &&& self.group().q@ > 0
        &&& forall|h: Seq<char>| #[trigger]
            self.challenges().contains_key(h) ==> self.records().contains_key(
                self.challenges()[h].user,
            )
    }

    /// What an answer `s` on handle `auth_id` earns.
    pub open spec fn answer_outcome(&self, auth_id: Seq<char>, s: nat) -> Result<(), AuthError> {
        if !self.challenges().contains_key(auth_id) {
            Err(AuthError::ChallengeNotFound)
        } else {
            let ch = self.challenges()[auth_id];
            let (y1, y2) = self.records()[ch.user];
            let g = self.group();
            if accepts(ch.r1, ch.r2, y1, y2, g.alpha@, g.beta@, ch.c, s, g.p@) {
                Ok(())
            } else {
                Err(AuthError::VerificationFailed)
            }
        }
    }

    /// A verifier over `group` with no prover registered and no challenge issued.
    pub fn new(group: ZKP) -> (r: AuthImpl)
        requires
            group.p@ > 0,
            group.q@ > 0,
        ensures
            r.wf(),
            r.group() == group,
            r.records() == Map::<Seq<char>, (nat, nat)>::empty(),
            r.challenges() == Map::<Seq<char>, PendingChallenge>::empty(),
    {
        let r = AuthImpl {
            group,
            user_info: StringHashMap::new(),
            auth_id_to_user: StringHashMap::new(),
        };
        assert(r.records() =~= Map::<Seq<char>, (nat, nat)>::empty());
        assert(r.challenges() =~= Map::<Seq<char>, PendingChallenge>::empty());
        r
    }

    /// Records `user` with the commitments `y1` and `y2` (big-endian bytes),
    /// replacing what an earlier registration of the same name left.
    pub fn register(&mut self, user: String, y1: &[u8], y2: &[u8])
        requires
            old(self).wf(),
        ensures
            final(self).wf(),
            final(self).group() == old(self).group(),
            final(self).records() == old(self).records().insert(
                user@,
                (be_value(y1@), be_value(y2@)),
            ),
            final(self).challenges() == old(self).challenges(),
    {
        let record = ProverRecord { y1: BigNat::from_bytes_be(y1), y2: BigNat::from_bytes_be(y2) };
        self.user_info.insert(user, record);
        assert(self.records() =~= old(self).records().insert(
            user@,
            (be_value(y1@), be_value(y2@)),
        ));
        assert forall|h: Seq<char>| #[trigger]
            self.challenges().contains_key(h) implies self.records().contains_key(
            self.challenges()[h].user,
        ) by {
            assert(old(self).challenges().contains_key(h));
        }
    }

    /// Issues challenge `c` under handle `auth_id` to the registered prover
    /// `user`, who committed to `r1` and `r2` (big-endian bytes). Returns the
    /// handle and the shortest big-endian bytes of `c`. An unregistered `user`
    /// gets `UserNotFound` and nothing changes. An earlier challenge under the
    /// same handle is replaced.
    pub fn issue_challenge(
        &mut self,
        user: &str,
        r1: &[u8],
        r2: &[u8],
        c: BigNat,
        auth_id: String,
    ) -> (r: Result<(String, Vec<u8>), AuthError>)
        requires
            old(self).wf(),
        ensures
            final(self).wf(),
            final(self).group() == old(self).group(),
            final(self).records() == old(self).records(),
            !old(self).records().contains_key(user@) ==> r == Err::<(String, Vec<u8>), AuthError>(
                AuthError::UserNotFound,
            ) && final(self).challenges() == old(self).challenges(),
            old(self).records().contains_key(user@) ==> r is Ok,
            r is Ok ==> {
                let (handle, c_bytes) = r->Ok_0;
                &&& handle@ == auth_id@
                &&& be_value(c_bytes@) == c@
                &&& is_minimal_be(c_bytes@)
                &&& final(self).challenges() == old(self).challenges().insert(
                    auth_id@,
                    PendingChallenge { user: user@, r1: be_value(r1@), r2: be_value(r2@), c: c@ },
                )
            },
    {
        if !self.user_info.contains_key(user) {
            return Err(AuthError::UserNotFound);
        }
        let c_bytes = c.to_bytes_be();
        let session = ChallengeSession {
            user: user.to_owned(),
            r1: BigNat::from_bytes_be(r1),
            r2: BigNat::from_bytes_be(r2),
            c,
        };
        self.auth_id_to_user.insert(auth_id.clone(), session);
        assert(self.challenges() =~= old(self).challenges().insert(
            auth_id@,
            PendingChallenge { user: user@, r1: be_value(r1@), r2: be_value(r2@), c: c@ },
        ));
        assert forall|h: Seq<char>| #[trigger]
            self.challenges().contains_key(h) implies self.records().contains_key(
            self.challenges()[h].user,
        ) by {
            if h != auth_id@ {
                assert(old(self).challenges().contains_key(h));
            }
        }
        Ok((auth_id, c_bytes))
    }

    /// The challenge step: for a registered `user`, draws a challenge below `q`
    /// and a fresh random handle, stores them with the commitments `r1` and `r2`
    /// (big-endian bytes), and returns the handle and the challenge's bytes.
    /// An unregistered `user` gets `UserNotFound` and nothing changes.
    pub fn create_authentication_challenge(&mut self, user: &str, r1: &[u8], r2: &[u8]) -> (r:
        Result<(String, Vec<u8>), AuthError>)
        requires
            old(self).wf(),
        ensures
            final(self).wf(),
            final(self).group() == old(self).group(),
            final(self).records() == old(self).records(),
            !old(self).records().contains_key(user@) ==> r == Err::<(String, Vec<u8>), AuthError>(
                AuthError::UserNotFound,
            ) && final(self).challenges() == old(self).challenges(),
            old(self).records().contains_key(user@) ==> r is Ok,
            r is Ok ==> {
                let (handle, c_bytes) = r->Ok_0;
                &&& handle@.len() == HANDLE_LENGTH
                &&& forall|i: int| 0 <= i < handle@.len() ==> is_alphanumeric(#[trigger] handle@[i])
                &&& be_value(c_bytes@) < old(self).group().q@
                &&& is_minimal_be(c_bytes@)
                &&& final(self).challenges() == old(self).challenges().insert(
                    handle@,
                    PendingChallenge {
                        user: user@,
                        r1: be_value(r1@),
                        r2: be_value(r2@),
                        c: be_value(c_bytes@),
                    },
                )
            },
    {
        if !self.user_info.contains_key(user) {
            return Err(AuthError::UserNotFound);
        }
        let c = ZKP::generate_random_number_below(&self.group.q);
        let auth_id = ZKP::generate_random_string(HANDLE_LENGTH);
        self.issue_challenge(user, r1, r2, c, auth_id)
    }

    /// Judges the answer `s` (big-endian bytes) on handle `auth_id` against the
    /// stored challenge and the prover's current commitments.
    pub fn check_answer(&self, auth_id: &str, s: &[u8]) -> (r: Result<(), AuthError>)
        requires
            self.wf(),
        ensures
            r == self.answer_outcome(auth_id@, be_value(s@)),
    {
        match self.auth_id_to_user.get(auth_id) {
            None => Err(AuthError::ChallengeNotFound),
            Some(session) => {
                assert(self.user_info@.contains_key(session.user@));
                match self.user_info.get(session.user.as_str()) {
                    // unreachable: every challenge belongs to a registered prover
                    None => Err(AuthError::ChallengeNotFound),
                    Some(record) => {
                        let answer = BigNat::from_bytes_be(s);
                        if self.group.verify(
                            &session.r1,
                            &session.r2,
                            &record.y1,
                            &record.y2,
                            &session.c,
                            &answer,
                        ) {
                            Ok(())
                        } else {
                            Err(AuthError::VerificationFailed)
                        }
                    },
                }
            },
        }
    }

    /// The verification step: an accepted answer earns a fresh random session
    /// token; otherwise the error of `check_answer`. The challenge stays stored.
    pub fn verify_authentication(&self, auth_id: &str, s: &[u8]) -> (r: Result<String, AuthError>)
        requires
            self.wf(),
        ensures
            match r {
                Ok(token) => {
                    &&& self.answer_outcome(auth_id@, be_value(s@)) is Ok
                    &&& token@.len() == HANDLE_LENGTH
                    &&& forall|i: int|
                        0 <= i < token@.len() ==> is_alphanumeric(#[trigger] token@[i])
                },
                Err(e) => self.answer_outcome(auth_id@, be_value(s@)) == Err::<(), AuthError>(e),
            },
    {
        match self.check_answer(auth_id, s) {
            Ok(()) => Ok(ZKP::generate_random_string(HANDLE_LENGTH)),
            Err(e) => Err(e),
        }
    }
}

impl Default for AuthImpl {
    /// A verifier over the fixed group setting of `ZKP::get_constants`.
    fn default() -> (r: AuthImpl)
        ensures
            r.wf(),
            r.group().alpha@ == hex_value(GENERATOR_HEX@),
            r.group().beta@ == exp_mod(
                hex_value(GENERATOR_HEX@),
                hex_value(SECOND_GENERATOR_EXPONENT_HEX@),
                hex_value(MODULUS_HEX@),
            ),
            r.group().p@ == hex_value(MODULUS_HEX@),
            r.group().q@ == hex_value(ORDER_HEX@),
            r.records() == Map::<Seq<char>, (nat, nat)>::empty(),
            r.challenges() == Map::<Seq<char>, PendingChallenge>::empty(),
    {
        let (alpha, beta, p, q) = ZKP::get_constants();
        AuthImpl::new(ZKP { p, q, alpha, beta })
    }
}

} // verus!
