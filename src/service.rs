//! The verifier side of the two-round protocol: register, issue a challenge,
//! check its answer.

use crate::bignum::{be_value, BigNum};
use crate::error::ProtocolError;
use crate::registry::{ChallengeView, PendingChallenge, SessionRegistry};
use crate::zkp::{is_alphanumeric, ZKP};
use vstd::prelude::*;

verus! {

/// Characters in an authentication id.
pub const AUTH_ID_LEN: usize = 32;

/// Characters in a session id.
pub const SESSION_ID_LEN: usize = 32;

/// Authentication ids drawn before giving up on finding an unused one.
pub const MAX_AUTH_ID_DRAWS: usize = 8;

/// What answering challenge `auth_id` with response `s` yields, given the
/// pending challenges: unknown id, accepted, or refused.
pub open spec fn answer_outcome(
    params: ZKP,
    pending: Map<Seq<char>, ChallengeView>,
    auth_id: Seq<char>,
    s: nat,
) -> Result<(), ProtocolError> {
    if !pending.contains_key(auth_id) {
        Err(ProtocolError::ChallengeNotFound)
    } else {
        let e = pending[auth_id];
        if params.accepts(e.r1, e.r2, e.y1, e.y2, e.c, s) {
            Ok(())
        } else {
            Err(ProtocolError::BadSolution)
        }
    }
}

/// Each challenge is answered at most once: once an answer to `auth_id` has
/// been accepted, the challenge is gone, and any further answer to it is
/// refused as unknown.
pub proof fn lemma_challenge_single_use(
    params: ZKP,
    pending: Map<Seq<char>, ChallengeView>,
    auth_id: Seq<char>,
    s: nat,
    s2: nat,
)
    requires
        answer_outcome(params, pending, auth_id, s) is Ok,
    ensures
        answer_outcome(params, pending.remove(auth_id), auth_id, s2) == Err::<(), ProtocolError>(
            ProtocolError::ChallengeNotFound,
        ),
{
}

/// A verifier: the group setting and the registry of users and challenges.
pub struct AuthService {
    params: ZKP,
    registry: SessionRegistry,
}

impl AuthService {
    /// The group setting.
    pub closed spec fn params(&self) -> ZKP {
        self.params
    }

    /// Each registered username and its commitment `(y1, y2)`.
    pub closed spec fn users(&self) -> Map<Seq<char>, (nat, nat)> {
        self.registry.users()
    }

    /// Each pending authentication id and its challenge.
    pub closed spec fn pending(&self) -> Map<Seq<char>, ChallengeView> {
        self.registry.pending()
    }

    /// The setting is valid and the registry well formed.
    pub closed spec fn wf(&self) -> bool {
        self.params.valid_parameters() && self.registry.wf()
    }

    /// A verifier over `params`, with no users and no challenges; refused with
    /// `InvalidParameters` where `params` fails validation.
    pub fn new(params: ZKP) -> (r: Result<AuthService, ProtocolError>)
        ensures
            r is Ok <==> params.valid_parameters(),
            r matches Ok(s) ==> {
                &&& s.wf()
                &&& s.params() == params
                &&& s.users() == Map::<Seq<char>, (nat, nat)>::empty()
                &&& s.pending() == Map::<Seq<char>, ChallengeView>::empty()
            },
            r matches Err(e) ==> e == ProtocolError::InvalidParameters,
    {
        match params.validate() {
            Ok(()) => Ok(AuthService { params, registry: SessionRegistry::new() }),
            Err(e) => Err(e),
        }
    }

    /// The group setting.
    pub fn parameters(&self) -> (r: &ZKP)
        ensures
            *r == self.params(),
    {
        &self.params
    }

    /// Registers `user` with the commitment whose halves are the big-endian
    /// numbers `y1` and `y2`, replacing any earlier registration. Refused with
    /// `InvalidInput`, and nothing changed, where a half is not below `p`.
    pub fn register(&mut self, user: String, y1: &[u8], y2: &[u8]) -> (r: Result<(), ProtocolError>)
        requires
            old(self).wf(),
        ensures
            final(self).wf(),
            final(self).params() == old(self).params(),
            final(self).pending() == old(self).pending(),
            r is Ok <==> be_value(y1@) < old(self).params().p@ && be_value(y2@) < old(self).params().p@,
            r is Ok ==> final(self).users() == old(self).users().insert(
                user@,
                (be_value(y1@), be_value(y2@)),
            ),
            r is Err ==> r == Err::<(), ProtocolError>(ProtocolError::InvalidInput),
            r is Err ==> final(self).users() == old(self).users(),
    {
        let v1 = BigNum::from_bytes_be(y1);
        let v2 = BigNum::from_bytes_be(y2);
        if !(v1.is_less_than(&self.params.p) && v2.is_less_than(&self.params.p)) {
            return Err(ProtocolError::InvalidInput);
        }
        self.registry.register(user, v1, v2);
        Ok(())
    }

    /// Issues challenge `c` under `auth_id` to `user` for the round commitment
    /// whose halves are the big-endian numbers `r1` and `r2`. Refused with
    /// `UserNotFound` where `user` is not registered, and otherwise with
    /// `AuthIdUnavailable` where `auth_id` is already pending; a refusal
    /// changes nothing.
    pub fn issue_challenge(
        &mut self,
        user: &String,
        r1: &[u8],
        r2: &[u8],
        auth_id: String,
        c: BigNum,
    ) -> (r: Result<(), ProtocolError>)
        requires
            old(self).wf(),
        ensures
            final(self).wf(),
            final(self).params() == old(self).params(),
            final(self).users() == old(self).users(),
            !old(self).users().contains_key(user@) ==> r == Err::<(), ProtocolError>(
                ProtocolError::UserNotFound,
            ),
            old(self).users().contains_key(user@) && old(self).pending().contains_key(auth_id@)
                ==> r == Err::<(), ProtocolError>(ProtocolError::AuthIdUnavailable),
            r is Err ==> final(self).pending() == old(self).pending(),
            r is Ok <==> old(self).users().contains_key(user@) && !old(self).pending().contains_key(
                auth_id@,
            ),
            r is Ok ==> final(self).pending() == old(self).pending().insert(
                auth_id@,
                ChallengeView {
                    user: user@,
                    r1: be_value(r1@),
                    r2: be_value(r2@),
                    y1: old(self).users()[user@].0,
                    y2: old(self).users()[user@].1,
                    c: c@,
                },
            ),
    {
        let (y1, y2) = match self.registry.lookup(user) {
            Some(pair) => pair,
            None => {
                return Err(ProtocolError::UserNotFound);
            },
        };
        if self.registry.has_challenge(&auth_id) {
            return Err(ProtocolError::AuthIdUnavailable);
        }
        let challenge = PendingChallenge {
            auth_id,
            user: user.clone(),
            r1: BigNum::from_bytes_be(r1),
            r2: BigNum::from_bytes_be(r2),
            y1,
            y2,
            c,
        };
        self.registry.insert_challenge(challenge);
        Ok(())
    }

    /// Starts an authentication attempt of `user` with the round commitment
    /// `(r1, r2)`: draws a challenge below `q` and an unused authentication id,
    /// stores them, and returns the id with the challenge's big-endian bytes.
    /// Refused with `UserNotFound` where `user` is not registered, and with
    /// `AuthIdUnavailable` where every id drawn was in use; a refusal changes
    /// nothing.
    pub fn begin_challenge(&mut self, user: &String, r1: &[u8], r2: &[u8]) -> (r: Result<
        (String, Vec<u8>),
        ProtocolError,
    >)
        requires
            old(self).wf(),
        ensures
            final(self).wf(),
            final(self).params() == old(self).params(),
            final(self).users() == old(self).users(),
            !old(self).users().contains_key(user@) ==> r == Err::<(String, Vec<u8>), ProtocolError>(
                ProtocolError::UserNotFound,
            ),
            old(self).users().contains_key(user@) ==> r != Err::<(String, Vec<u8>), ProtocolError>(
                ProtocolError::UserNotFound,
            ),
            old(self).users().contains_key(user@) && old(self).pending() == Map::<
                Seq<char>,
                ChallengeView,
            >::empty() ==> r is Ok,
            r matches Err(e) ==> final(self).pending() == old(self).pending() && (e
                == ProtocolError::UserNotFound || e == ProtocolError::AuthIdUnavailable),
            r matches Ok((auth_id, c)) ==> {
                &&& old(self).users().contains_key(user@)
                &&& !old(self).pending().contains_key(auth_id@)
                &&& auth_id@.len() == AUTH_ID_LEN
                &&& forall|i: int| 0 <= i < auth_id@.len() ==> is_alphanumeric(#[trigger] auth_id@[i])
                &&& be_value(c@) < old(self).params().q@
                &&& final(self).pending() == old(self).pending().insert(
                    auth_id@,
                    ChallengeView {
                        user: user@,
                        r1: be_value(r1@),
                        r2: be_value(r2@),
                        y1: old(self).users()[user@].0,
                        y2: old(self).users()[user@].1,
                        c: be_value(c@),
                    },
                )
            },
    {
        if self.registry.lookup(user).is_none() {
            return Err(ProtocolError::UserNotFound);
        }
        let c = ZKP::generate_random_number_below(&self.params.q);
        let mut draws: usize = 0;
        while draws < MAX_AUTH_ID_DRAWS
            invariant
                self.wf(),
                self.params() == old(self).params(),
                self.users() == old(self).users(),
                self.pending() == old(self).pending(),
                self.users().contains_key(user@),
                c@ < self.params().q@,
                old(self).pending() == Map::<Seq<char>, ChallengeView>::empty() ==> draws == 0,
            decreases MAX_AUTH_ID_DRAWS - draws,
        {
            let auth_id = ZKP::generate_random_string(AUTH_ID_LEN);
            if !self.registry.has_challenge(&auth_id) {
                let bytes = c.to_bytes_be();
                proof {
                    crate::bignum::lemma_encoding_round_trip(c@);
                }
                let id = auth_id.clone();
                let issued = self.issue_challenge(user, r1, r2, auth_id, c);
                return match issued {
                    Ok(()) => Ok((id, bytes)),
                    Err(e) => Err(e),
                };
            }
            draws = draws + 1;
        }
        Err(ProtocolError::AuthIdUnavailable)
    }

    /// Answers challenge `auth_id` with the big-endian response `s`. The
    /// challenge is consumed whatever the outcome. Refused with
    /// `ChallengeNotFound` where it is not pending, and with `BadSolution`
    /// where the verification equations fail; otherwise a fresh session id.
    pub fn finish_challenge(&mut self, auth_id: &String, s: &[u8]) -> (r: Result<String, ProtocolError>)
        requires
            old(self).wf(),
        ensures
            final(self).wf(),
            final(self).params() == old(self).params(),
            final(self).users() == old(self).users(),
            final(self).pending() == old(self).pending().remove(auth_id@),
            match r {
                Ok(session_id) => answer_outcome(
                    old(self).params(),
                    old(self).pending(),
                    auth_id@,
                    be_value(s@),
                ) is Ok && session_id@.len() == SESSION_ID_LEN && forall|i: int|
                    0 <= i < session_id@.len() ==> is_alphanumeric(#[trigger] session_id@[i]),
                Err(e) => answer_outcome(old(self).params(), old(self).pending(), auth_id@, be_value(s@))
                    == Err::<(), ProtocolError>(e),
            },
    {
        let challenge = match self.registry.take_challenge(auth_id) {
            Some(e) => e,
            None => {
                return Err(ProtocolError::ChallengeNotFound);
            },
        };
        let response = BigNum::from_bytes_be(s);
        let accepted = self.params.verify(
            &challenge.r1,
            &challenge.r2,
            &challenge.y1,
            &challenge.y2,
            &challenge.c,
            &response,
        );
        if accepted {
            Ok(ZKP::generate_random_string(SESSION_ID_LEN))
        } else {
            Err(ProtocolError::BadSolution)
        }
    }
}

} // verus!
