//! Device pairing: the authorizer's registry of outstanding challenges and
//! the decision on a new device's signed response.
use vstd::prelude::*;

verus! {

/// How long a challenge stays valid after issuance, in seconds.
pub const PAIRING_TTL_SECS: u64 = 300;

/// An outstanding challenge, as issued by the authorizer.
pub struct PairingSession {
    pub challenge_id: u128,
    pub authorizer_peer_id: String,
    pub dial_address: String,
    pub nonce: Vec<u8>,
    pub expires_at: u64,
    pub user_id: u128,
}

/// A new device's answer to a challenge.
pub struct AuthResponse {
    pub challenge_id: u128,
    pub device_id: u128,
    pub device_type: String,
    pub device_name: String,
    pub new_device_public_key: Vec<u8>,
    pub nonce_signature: Vec<u8>,
}

/// The authorizer's decision.
pub enum AuthResult {
    /// The device may be recorded for `user_id`.
    Authorized { device_id: u128, user_id: u128, device_type: String, device_name: String },
    ChallengeExpired,
    UnknownChallenge,
    InvalidSignature,
}

/// Whether `signature` is a valid Ed25519 signature of `message` under the
/// 32-byte public key `public_key`.
pub uninterp spec fn ed25519_valid(public_key: Seq<u8>, message: Seq<u8>, signature: Seq<u8>) -> bool;

/// Relies on libp2p::identity::ed25519::PublicKey::try_from_bytes and
/// PublicKey::verify: the key decodes from exactly 32 bytes, and the
/// signature check is a function of key, message and signature.
#[verifier::external_body]
pub(crate) fn verify_ed25519(public_key: &Vec<u8>, message: &Vec<u8>, signature: &Vec<u8>) -> (r: bool)
    ensures
        r == ed25519_valid(public_key@, message@, signature@),
        public_key@.len() != 32 ==> !r,
{
    match libp2p::identity::ed25519::PublicKey::try_from_bytes(public_key.as_slice()) {
        Ok(pk) => pk.verify(message.as_slice(), signature.as_slice()),
        Err(_) => false,
    }
}

/// The index of the session for `id`, searching from the end.
pub open spec fn find_spec(s: Seq<PairingSession>, id: u128) -> Option<int>
    decreases s.len(),
{
    if s.len() == 0 {
        None
    } else if s.last().challenge_id == id {
        Some(s.len() - 1)
    } else {
        find_spec(s.drop_last(), id)
    }
}

proof fn lemma_find(s: Seq<PairingSession>, id: u128)
    ensures
        match find_spec(s, id) {
            Some(i) => 0 <= i < s.len() && s[i].challenge_id == id,
            None => forall|j: int| 0 <= j < s.len() ==> (#[trigger] s[j]).challenge_id != id,
        },
    decreases s.len(),
{
    if s.len() > 0 {
        lemma_find(s.drop_last(), id);
        if s.last().challenge_id != id {
            assert forall|j: int| 0 <= j < s.len() - 1 implies #[trigger] s[j] == s.drop_last()[j] by {}
        }
    }
}

pub open spec fn unique_challenges(s: Seq<PairingSession>) -> bool {
    forall|i: int, j: int|
        0 <= i < s.len() && 0 <= j < s.len() && i != j ==> (#[trigger] s[i]).challenge_id != (
        #[trigger] s[j]).challenge_id
}

/// What the authorizer decides on `response` at `now`, given whether the
/// nonce signature checks out.
pub open spec fn decision_spec(
    sessions: Seq<PairingSession>,
    response: AuthResponse,
    now: u64,
    signature_valid: bool,
) -> AuthResult {
    match find_spec(sessions, response.challenge_id) {
        None => AuthResult::UnknownChallenge,
        Some(i) => if now > sessions[i].expires_at {
            AuthResult::ChallengeExpired
        } else if signature_valid {
            AuthResult::Authorized {
                device_id: response.device_id,
                user_id: sessions[i].user_id,
                device_type: response.device_type,
                device_name: response.device_name,
            }
        } else {
            AuthResult::InvalidSignature
        },
    }
}

/// The sessions left after that decision: the session is destroyed on
/// success and swept when found expired.
pub open spec fn sessions_after_spec(
    sessions: Seq<PairingSession>,
    response: AuthResponse,
    now: u64,
    signature_valid: bool,
) -> Seq<PairingSession> {
    match find_spec(sessions, response.challenge_id) {
        None => sessions,
        Some(i) => if now > sessions[i].expires_at || signature_valid {
            sessions.remove(i)
        } else {
            sessions
        },
    }
}

/// A session authorizes at most once: after a successful decision no session
/// for that challenge remains, so any later response to it is refused as
/// unknown.
pub proof fn lemma_single_use(
    sessions: Seq<PairingSession>,
    response: AuthResponse,
    now: u64,
    signature_valid: bool,
    later: AuthResponse,
    later_now: u64,
    later_valid: bool,
)
    requires
        unique_challenges(sessions),
        decision_spec(sessions, response, now, signature_valid) is Authorized,
        later.challenge_id == response.challenge_id,
    ensures
        decision_spec(
            sessions_after_spec(sessions, response, now, signature_valid),
            later,
            later_now,
            later_valid,
        ) is UnknownChallenge,
{
    let id = response.challenge_id;
    lemma_find(sessions, id);
    let i = find_spec(sessions, id)->Some_0;
    let rest = sessions.remove(i);
    lemma_find(rest, id);
    if find_spec(rest, id) is Some {
        let j = find_spec(rest, id)->Some_0;
        let j2 = if j < i { j } else { j + 1 };
        assert(rest[j] == sessions[j2]);
    }
}

fn copy_bytes(v: &Vec<u8>) -> (r: Vec<u8>)
    ensures
        r@ == v@,
{
    let mut out: Vec<u8> = Vec::new();
    let mut i: usize = 0;
    while i < v.len()
        invariant
            0 <= i <= v@.len(),
            out@ == v@.subrange(0, i as int),
        decreases v@.len() - i,
    {
        out.push(v[i]);
        assert(out@ =~= v@.subrange(0, i + 1));
        i += 1;
    }
    assert(out@ =~= v@);
    out
}

impl PairingSession {
    /// A field-by-field copy.
    pub fn duplicate(&self) -> (r: PairingSession)
        ensures
            r.challenge_id == self.challenge_id,
            r.authorizer_peer_id == self.authorizer_peer_id,
            r.dial_address == self.dial_address,
            r.nonce@ == self.nonce@,
            r.expires_at == self.expires_at,
            r.user_id == self.user_id,
    {
        PairingSession {
            challenge_id: self.challenge_id,
            authorizer_peer_id: self.authorizer_peer_id.clone(),
            dial_address: self.dial_address.clone(),
            nonce: copy_bytes(&self.nonce),
            expires_at: self.expires_at,
            user_id: self.user_id,
        }
    }
}

/// The authorizer's outstanding challenges, at most one per challenge id.
pub struct DeviceAuthManager {
    pub sessions: Vec<PairingSession>,
}

impl DeviceAuthManager {
    pub open spec fn wf(&self) -> bool {
        unique_challenges(self.sessions@)
    }

    pub fn new() -> (r: DeviceAuthManager)
        ensures
            r.wf(),
            r.sessions@.len() == 0,
    {
        DeviceAuthManager { sessions: Vec::new() }
    }

    fn find(&self, id: u128) -> (r: Option<usize>)
        ensures
            match r {
                Some(i) => i < self.sessions@.len() && find_spec(self.sessions@, id) == Some(i as int)
                    && self.sessions@[i as int].challenge_id == id,
                None => find_spec(self.sessions@, id) is None,
            },
    {
        let mut n: usize = self.sessions.len();
        assert(self.sessions@.subrange(0, n as int) =~= self.sessions@);
        while n > 0
            invariant
                0 <= n <= self.sessions@.len(),
                find_spec(self.sessions@, id) == find_spec(self.sessions@.subrange(0, n as int), id),
            decreases n,
        {
            let ghost pre = self.sessions@.subrange(0, n as int);
            assert(pre.drop_last() =~= self.sessions@.subrange(0, n - 1));
            if self.sessions[n - 1].challenge_id == id {
                return Some(n - 1);
            }
            n -= 1;
        }
        None
    }

    /// Records a challenge issued at `now`, valid for `PAIRING_TTL_SECS`;
    /// one already held under the same id is replaced.
    pub fn issue_challenge(
        &mut self,
        challenge_id: u128,
        authorizer_peer_id: String,
        dial_address: String,
        nonce: Vec<u8>,
        user_id: u128,
        now: u64,
    ) -> (r: PairingSession)
        requires
            old(self).wf(),
            now <= u64::MAX - PAIRING_TTL_SECS,
        ensures
            final(self).wf(),
            r.challenge_id == challenge_id,
            r.authorizer_peer_id == authorizer_peer_id,
            r.dial_address == dial_address,
            r.nonce@ == nonce@,
            r.expires_at == now + PAIRING_TTL_SECS,
            r.user_id == user_id,
            find_spec(final(self).sessions@, challenge_id) matches Some(i) && {
                let s = final(self).sessions@[i];
                &&& s.authorizer_peer_id == authorizer_peer_id
                &&& s.dial_address == dial_address
                &&& s.nonce@ == nonce@
                &&& s.expires_at == now + PAIRING_TTL_SECS
                &&& s.user_id == user_id
            },
            forall|id: u128|
                id != challenge_id ==> find_spec(final(self).sessions@, id) is Some == find_spec(
                    old(self).sessions@,
                    id,
                ) is Some,
    {
        let session = PairingSession {
            challenge_id,
            authorizer_peer_id,
            dial_address,
            nonce,
            expires_at: now + PAIRING_TTL_SECS,
            user_id,
        };
        let copy = session.duplicate();
        let ghost before = self.sessions@;
        proof {
            lemma_find(before, challenge_id);
        }
        match self.find(challenge_id) {
            Some(i) => {
                self.sessions.set(i, session);
                assert(self.sessions@[i as int].challenge_id == challenge_id);
            },
            None => {
                self.sessions.push(session);
                assert(self.sessions@[self.sessions@.len() - 1].challenge_id == challenge_id);
            },
        }
        let ghost after = self.sessions@;
        assert(unique_challenges(after)) by {
            assert forall|a: int, b: int|
                0 <= a < after.len() && 0 <= b < after.len() && a != b implies (
            #[trigger] after[a]).challenge_id != (#[trigger] after[b]).challenge_id by {
                if a < before.len() && b < before.len() {
                    assert(after[a].challenge_id == before[a].challenge_id);
                    assert(after[b].challenge_id == before[b].challenge_id);
                }
            }
        }
        proof {
            lemma_find(after, challenge_id);
            assert forall|id: u128| id != challenge_id implies find_spec(after, id) is Some
                == find_spec(before, id) is Some by {
                lemma_find(after, id);
                lemma_find(before, id);
                if find_spec(before, id) is Some {
                    let j = find_spec(before, id)->Some_0;
                    assert(after[j] == before[j]);
                }
                if find_spec(after, id) is Some {
                    let j = find_spec(after, id)->Some_0;
                    assert(after[j] == before[j]);
                }
            }
        }
        copy
    }

    /// Decides on `response` at `now`, given whether its nonce signature
    /// checks out against the session's nonce.
    pub fn authorize_with(&mut self, response: AuthResponse, now: u64, signature_valid: bool) -> (r:
        AuthResult)
        requires
            old(self).wf(),
        ensures
            final(self).wf(),
            r == decision_spec(old(self).sessions@, response, now, signature_valid),
            final(self).sessions@ == sessions_after_spec(
                old(self).sessions@,
                response,
                now,
                signature_valid,
            ),
    {
        proof {
            lemma_find(self.sessions@, response.challenge_id);
        }
        match self.find(response.challenge_id) {
            None => AuthResult::UnknownChallenge,
            Some(i) => {
                let ghost before = self.sessions@;
                if now > self.sessions[i].expires_at {
                    self.sessions.remove(i);
                    proof {
                        self.lemma_remove_keeps_unique(before, i as int);
                    }
                    AuthResult::ChallengeExpired
                } else if signature_valid {
                    let user_id = self.sessions[i].user_id;
                    self.sessions.remove(i);
                    proof {
                        self.lemma_remove_keeps_unique(before, i as int);
                    }
                    AuthResult::Authorized {
                        device_id: response.device_id,
                        user_id,
                        device_type: response.device_type,
                        device_name: response.device_name,
                    }
                } else {
                    AuthResult::InvalidSignature
                }
            },
        }
    }

    proof fn lemma_remove_keeps_unique(&self, before: Seq<PairingSession>, i: int)
        requires
            unique_challenges(before),
            0 <= i < before.len(),
            self.sessions@ == before.remove(i),
        ensures
            unique_challenges(self.sessions@),
    {
        let after = self.sessions@;
        assert forall|a: int, b: int|
            0 <= a < after.len() && 0 <= b < after.len() && a != b implies (
        #[trigger] after[a]).challenge_id != (#[trigger] after[b]).challenge_id by {
            let a2 = if a < i { a } else { a + 1 };
            let b2 = if b < i { b } else { b + 1 };
            assert(after[a] == before[a2]);
            assert(after[b] == before[b2]);
        }
    }

    /// Decides on `response` at `now`: an unknown challenge is refused, an
    /// expired one is swept and refused, and otherwise the response is
    /// authorized exactly when its nonce signature verifies under the new
    /// device's public key; success destroys the session.
    pub fn authorize(&mut self, response: AuthResponse, now: u64) -> (r: AuthResult)
        requires
            old(self).wf(),
        ensures
            final(self).wf(),
            ({
                let valid = match find_spec(old(self).sessions@, response.challenge_id) {
                    Some(i) => ed25519_valid(
                        response.new_device_public_key@,
                        old(self).sessions@[i].nonce@,
                        response.nonce_signature@,
                    ),
                    None => false,
                };
                &&& r == decision_spec(old(self).sessions@, response, now, valid)
                &&& final(self).sessions@ == sessions_after_spec(
                    old(self).sessions@,
                    response,
                    now,
                    valid,
                )
            }),
    {
        let valid = match self.find(response.challenge_id) {
            Some(i) => verify_ed25519(
                &response.new_device_public_key,
                &self.sessions[i].nonce,
                &response.nonce_signature,
            ),
            None => false,
        };
        self.authorize_with(response, now, valid)
    }
}

} // verus!
