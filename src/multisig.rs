//! Signature collection and threshold verification.
//!
//! Signatures are paired with keys by position: the signature added `i`-th is
//! checked against the `i`-th public key. Only the first `threshold` signatures
//! are ever examined, and all of them must pass for the message to be accepted.
use vstd::prelude::*;

verus! {

/// A secp256k1 public key in its 33-byte compressed encoding.
#[derive(Clone, Copy, Debug)]
pub struct PublicKey {
    pub bytes: [u8; 33],
}

/// An ECDSA signature in its 64-byte compact encoding.
#[derive(Clone, Copy, Debug)]
pub struct Signature {
    pub bytes: [u8; 64],
}

/// A 32-byte digest of the signed content.
#[derive(Clone, Copy, Debug)]
pub struct Message {
    pub digest: [u8; 32],
}

/// Whether ECDSA verification over secp256k1 accepts `sig` for `digest` under
/// `key`, all given by their byte encodings; false where `key` or `sig` does not
/// decode.
pub uninterp spec fn ecdsa_accepts(digest: Seq<u8>, sig: Seq<u8>, key: Seq<u8>) -> bool;

/// Relies on secp256k1's `PublicKey::from_slice`, `ecdsa::Signature::from_compact`,
/// `Message::from_digest` and `Secp256k1::verify_ecdsa`: the outcome is a function
/// of the three byte strings alone, and a key or signature that fails to decode
/// counts as a failed check.
#[verifier::external_body]
fn ecdsa_check(digest: &[u8; 32], sig: &[u8; 64], key: &[u8; 33]) -> (r: bool)
    ensures
        r == ecdsa_accepts(digest@, sig@, key@),
{
    let secp = secp256k1::Secp256k1::verification_only();
    match (secp256k1::PublicKey::from_slice(key), secp256k1::ecdsa::Signature::from_compact(sig)) {
        (Ok(pk), Ok(s)) => secp.verify_ecdsa(&secp256k1::Message::from_digest(*digest), &s, &pk).is_ok(),
        _ => false,
    }
}

/// The number of passing checks among positions `0..n` of `checks`; positions
/// past its end count as failed.
pub open spec fn count_passed(checks: Seq<bool>, n: nat) -> nat
    decreases n,
{
    if n == 0 {
        0
    } else {
        count_passed(checks, (n - 1) as nat) + if n - 1 < checks.len() && checks[n - 1] {
            1nat
        } else {
            0nat
        }
    }
}

/// The threshold rule over per-position outcomes: at least `threshold` outcomes
/// exist, and at least `threshold` of the first `threshold` passed.
pub open spec fn verdict(checks: Seq<bool>, threshold: nat) -> bool {
    checks.len() >= threshold && count_passed(checks, threshold) >= threshold
}

/// The count over `0..n` only reads the first `n` positions.
pub proof fn lemma_count_depends_on_prefix(a: Seq<bool>, b: Seq<bool>, n: nat)
    requires
        forall|i: int| 0 <= i < n ==> ((i < a.len() && a[i]) == (i < b.len() && b[i])),
    ensures
        count_passed(a, n) == count_passed(b, n),
    decreases n,
{
    if n > 0 {
        lemma_count_depends_on_prefix(a, b, (n - 1) as nat);
    }
}

/// At most `n` of `n` positions pass, and exactly `n` do when all of them
/// exist and passed.
pub proof fn lemma_count_full_iff_all_passed(checks: Seq<bool>, n: nat)
    ensures
        count_passed(checks, n) <= n,
        count_passed(checks, n) == n <==> (n <= checks.len() && forall|i: int|
            0 <= i < n ==> #[trigger] checks[i]),
    decreases n,
{
    if n > 0 {
        let m = (n - 1) as nat;
        lemma_count_full_iff_all_passed(checks, m);
        if n <= checks.len() && forall|i: int| 0 <= i < n ==> #[trigger] checks[i] {
            assert(checks[m as int]);
            assert forall|i: int| 0 <= i < m implies #[trigger] checks[i] by {
                assert(0 <= i < n);
            }
        }
        if count_passed(checks, n) == n {
            assert forall|i: int| 0 <= i < n implies #[trigger] checks[i] by {
                if i < m {
                    assert(0 <= i < m);
                }
            }
        }
    }
}

/// Decides the threshold rule from the outcomes of the positional checks:
/// `checks[i]` is whether the `i`-th signature passed against the `i`-th key.
pub fn threshold_met(checks: &Vec<bool>, threshold: usize) -> (r: bool)
    ensures
        r == verdict(checks@, threshold as nat),
{
    if checks.len() < threshold {
        return false;
    }
    let mut passed: usize = 0;
    let mut i: usize = 0;
    while i < threshold
        invariant
            i <= threshold,
            threshold <= checks@.len(),
            passed == count_passed(checks@, i as nat),
            passed <= i,
        decreases threshold - i,
    {
        if checks[i] {
            passed = passed + 1;
        }
        i = i + 1;
    }
    passed >= threshold
}

/// A set of authorised keys, a threshold, and the signatures collected so far.
#[derive(Debug)]
pub struct Multisig {
    pub_keys: Vec<PublicKey>,
    signatures: Vec<Signature>,
    threshold: usize,
}

impl Multisig {
    /// The authorised keys, in signer order.
    pub closed spec fn keys(&self) -> Seq<PublicKey> {
        self.pub_keys@
    }

    /// The collected signatures, in the order they were added.
    pub closed spec fn sigs(&self) -> Seq<Signature> {
        self.signatures@
    }

    /// The number of passing signatures needed.
    pub closed spec fn required(&self) -> nat {
        self.threshold as nat
    }

    /// Whether the `i`-th signature passes against the `i`-th key for `msg`;
    /// false where no key stands at position `i`.
    pub open spec fn pair_valid(&self, msg: Message, i: int) -> bool {
        &&& 0 <= i < self.keys().len()
        &&& 0 <= i < self.sigs().len()
        &&& ecdsa_accepts(msg.digest@, self.sigs()[i].bytes@, self.keys()[i].bytes@)
    }

    /// The outcome of the positional check at each collected signature.
    pub open spec fn pair_checks(&self, msg: Message) -> Seq<bool> {
        Seq::new(self.sigs().len(), |i: int| self.pair_valid(msg, i))
    }

    /// Whether the collected signatures authorise `msg`.
    pub open spec fn accepts(&self, msg: Message) -> bool {
        verdict(self.pair_checks(msg), self.required())
    }

    /// A verifier over `pub_keys` with threshold `threshold` and no signatures.
    pub fn new(pub_keys: Vec<PublicKey>, threshold: usize) -> (r: Multisig)
        ensures
            r.keys() == pub_keys@,
            r.sigs() == Seq::<Signature>::empty(),
            r.required() == threshold as nat,
    {
        Multisig { pub_keys, signatures: Vec::new(), threshold }
    }

    /// Appends `signature` to the collected signatures.
    pub fn add_signature(&mut self, signature: Signature)
        ensures
            final(self).keys() == old(self).keys(),
            final(self).sigs() == old(self).sigs().push(signature),
            final(self).required() == old(self).required(),
    {
        self.signatures.push(signature);
    }

    /// Whether at least `threshold` signatures were collected and each of the
    /// first `threshold` passes against the key at its own position.
    pub fn verify(&self, message: &Message) -> (r: bool)
        ensures
            r == self.accepts(*message),
    {
        if self.signatures.len() < self.threshold {
            return false;
        }
        let mut checks: Vec<bool> = Vec::new();
        let mut i: usize = 0;
        while i < self.threshold
            invariant
                i <= self.threshold,
                self.threshold <= self.signatures@.len(),
                checks@.len() == i,
                forall|j: int| 0 <= j < i ==> checks@[j] == self.pair_valid(*message, j),
            decreases self.threshold - i,
        {
            let ok = i < self.pub_keys.len() && ecdsa_check(
                &message.digest,
                &self.signatures[i].bytes,
                &self.pub_keys[i].bytes,
            );
            checks.push(ok);
            i = i + 1;
        }
        let r = threshold_met(&checks, self.threshold);
        proof {
            lemma_count_depends_on_prefix(
                checks@,
                self.pair_checks(*message),
                self.threshold as nat,
            );
        }
        r
    }
}

/// With fewer collected signatures than the threshold, no message is accepted,
/// whatever the signatures are.
pub proof fn lemma_too_few_signatures_rejects(m: Multisig, msg: Message)
    requires
        m.sigs().len() < m.required(),
    ensures
        !m.accepts(msg),
{
}

/// When each of the first `threshold` signatures passes against the key at its
/// own position, the message is accepted.
pub proof fn lemma_valid_prefix_accepts(m: Multisig, msg: Message)
    requires
        forall|i: int| 0 <= i < m.required() ==> #[trigger] m.pair_valid(msg, i),
    ensures
        m.accepts(msg),
{
    let t = m.required();
    let checks = m.pair_checks(msg);
    if t > 0 {
        assert(m.pair_valid(msg, t - 1));
    }
    assert forall|i: int| 0 <= i < t implies #[trigger] checks[i] by {
        assert(m.pair_valid(msg, i));
    }
    lemma_count_full_iff_all_passed(checks, t);
}

/// Once the threshold is reached, signatures added after it leave the verdict
/// on every message unchanged, whether they are valid or not.
pub proof fn lemma_trailing_signatures_keep_verdict(
    before: Multisig,
    extra: Seq<Signature>,
    after: Multisig,
    msg: Message,
)
    requires
        before.sigs().len() >= before.required(),
        after.keys() == before.keys(),
        after.required() == before.required(),
        after.sigs() == before.sigs() + extra,
    ensures
        after.accepts(msg) == before.accepts(msg),
{
    let t = before.required();
    let a = before.pair_checks(msg);
    let b = after.pair_checks(msg);
    assert forall|i: int| 0 <= i < t implies ((i < a.len() && a[i]) == (i < b.len() && b[i])) by {
        assert(after.sigs()[i] == before.sigs()[i]);
    }
    lemma_count_depends_on_prefix(a, b, t);
}

/// A message against which fewer than `threshold` of the first `threshold`
/// positional pairs pass is rejected, however many signatures were collected.
pub proof fn lemma_too_few_matches_rejects(m: Multisig, msg: Message)
    requires
        count_passed(m.pair_checks(msg), m.required()) < m.required(),
    ensures
        !m.accepts(msg),
{
}

/// A message is accepted exactly when each of the first `threshold` signatures
/// passes against the key at its own position; so a threshold above the number
/// of keys rejects every message, and a zero threshold accepts every one.
pub proof fn lemma_accepts_iff_valid_prefix(m: Multisig, msg: Message)
    ensures
        m.accepts(msg) <==> (forall|i: int| 0 <= i < m.required() ==> #[trigger] m.pair_valid(msg, i)),
        m.required() > m.keys().len() ==> !m.accepts(msg),
        m.required() == 0 ==> m.accepts(msg),
{
    let t = m.required();
    let checks = m.pair_checks(msg);
    lemma_count_full_iff_all_passed(checks, t);
    if forall|i: int| 0 <= i < t ==> #[trigger] m.pair_valid(msg, i) {
        lemma_valid_prefix_accepts(m, msg);
    }
    if m.accepts(msg) {
        assert forall|i: int| 0 <= i < t implies #[trigger] m.pair_valid(msg, i) by {
            assert(checks[i]);
        }
    }
    if t > m.keys().len() && m.accepts(msg) {
        assert(checks[t - 1]);
    }
}

} // verus!
