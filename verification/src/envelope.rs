//! The transaction envelope: a count-prefixed table of 64-byte signature
//! slots followed by the message bytes. The message is kept verbatim; the
//! parts the tool reads from it — the required-signer count, the account
//! keys and the embedded recent blockhash — are located by offset.

use vstd::prelude::*;
use vstd::pervasive::VecAdditionalExecFns;
use solana_sdk::signer::Signer;

use crate::errors::CliError;
use crate::keypair::{ed25519_keypair_ok, Keypair, KEYPAIR_LEN};
use crate::shortvec::{lemma_sv_round_trip, sv_decode, sv_encode, sv_read, sv_read_at, sv_write};

verus! {

/// Bytes of one signature slot.
pub const SIG_LEN: usize = 64;

/// Bytes of one account key, and of the blockhash.
pub const KEY_LEN: usize = 32;

/// Bytes of the message header: the required-signer count and the two
/// read-only counts.
pub const HEADER_LEN: usize = 3;

/// The signature slots laid out one after another.
pub open spec fn flat_sigs(sigs: Seq<Seq<u8>>) -> Seq<u8>
    decreases sigs.len(),
{
    if sigs.len() == 0 {
        Seq::empty()
    } else {
        flat_sigs(sigs.drop_last()) + sigs.last()
    }
}

/// The serialized envelope: the slot count, the slots, the message.
pub open spec fn env_bytes(sigs: Seq<Seq<u8>>, msg: Seq<u8>) -> Seq<u8> {
    sv_encode(sigs.len() as int) + flat_sigs(sigs) + msg
}

/// What envelope bytes parse to: the signature table and the message that
/// follows it. `None` when the count prefix is broken or the bytes end
/// before the table does.
pub open spec fn parse_env_spec(b: Seq<u8>) -> Option<(Seq<Seq<u8>>, Seq<u8>)> {
    match sv_decode(b) {
        Some((n, l)) => if b.len() - l >= n * SIG_LEN {
            Some(
                (
                    Seq::new(n as nat, |i: int| b.subrange(l + SIG_LEN * i, l + SIG_LEN * i + SIG_LEN)),
                    b.skip(l + SIG_LEN * n),
                ),
            )
        } else {
            None
        },
        None => None,
    }
}

/// The account keys of the message and the offset of the blockhash that
/// follows them; `None` when the message is too short to hold its header,
/// key table and blockhash.
pub open spec fn msg_keys_spec(m: Seq<u8>) -> Option<(Seq<Seq<u8>>, int)> {
    if m.len() < HEADER_LEN {
        None
    } else {
        match sv_decode(m.skip(HEADER_LEN as int)) {
            Some((k, l)) => {
                let keys_start = HEADER_LEN + l;
                let hash_start = keys_start + KEY_LEN * k;
                if m.len() >= hash_start + KEY_LEN {
                    Some(
                        (
                            Seq::new(
                                k as nat,
                                |i: int| m.subrange(keys_start + KEY_LEN * i, keys_start + KEY_LEN * i + KEY_LEN),
                            ),
                            hash_start,
                        ),
                    )
                } else {
                    None
                }
            },
            None => None,
        }
    }
}

/// The recent blockhash embedded in the message.
pub open spec fn msg_blockhash_spec(m: Seq<u8>) -> Option<Seq<u8>> {
    match msg_keys_spec(m) {
        Some((keys, hash_start)) => Some(m.subrange(hash_start, hash_start + KEY_LEN)),
        None => None,
    }
}

/// The first of the message's signer keys (the first `m[0]` account keys)
/// that equals `pk`, searched from `i`.
pub open spec fn first_match(keys: Seq<Seq<u8>>, pk: Seq<u8>, i: int) -> Option<int>
    decreases keys.len() - i,
{
    if i < 0 || i >= keys.len() {
        None
    } else if keys[i] == pk {
        Some(i)
    } else {
        first_match(keys, pk, i + 1)
    }
}

/// The signature slot that the public key `pk` owns: the position of `pk`
/// among the message's signer keys. `None` when the message metadata is
/// broken, the message declares more signers than it has keys, or `pk` is
/// not a signer.
pub open spec fn signer_slot(m: Seq<u8>, pk: Seq<u8>) -> Option<int> {
    match msg_keys_spec(m) {
        Some((keys, hash_start)) => {
            let num_required = m[0] as int;
            if num_required <= keys.len() {
                first_match(keys.take(num_required), pk, 0)
            } else {
                None
            }
        },
        None => None,
    }
}

/// Whether the message gives `pk` a signature slot that a table of
/// `nsigs` slots actually has.
pub open spec fn slot_available(m: Seq<u8>, pk: Seq<u8>, nsigs: int) -> bool {
    match signer_slot(m, pk) {
        Some(i) => i < nsigs,
        None => false,
    }
}

/// A deserialized transaction envelope.
pub struct TransactionEnvelope {
    signatures: Vec<Vec<u8>>,
    message: Vec<u8>,
}

impl TransactionEnvelope {
    /// The signature slots.
    pub closed spec fn sigs(&self) -> Seq<Seq<u8>> {
        Seq::new(self.signatures@.len(), |i: int| self.signatures@[i]@)
    }

    /// The message bytes.
    pub closed spec fn msg(&self) -> Seq<u8> {
        self.message@
    }

    /// Well-formed: the slot count fits the count prefix and every slot
    /// holds exactly 64 bytes.
    pub open spec fn wf(&self) -> bool {
        &&& self.sigs().len() <= 0xffff
        &&& forall|i: int| 0 <= i < self.sigs().len() ==> #[trigger] self.sigs()[i].len() == SIG_LEN
    }

    /// Parses envelope bytes; fails with `MalformedTransaction` exactly
    /// when the count prefix is broken or the bytes end before the
    /// signature table does.
    pub fn parse(bytes: &Vec<u8>) -> (r: Result<TransactionEnvelope, CliError>)
        ensures
            match r {
                Ok(env) => env.wf() && parse_env_spec(bytes@) == Some((env.sigs(), env.msg())),
                Err(e) => e == CliError::MalformedTransaction && parse_env_spec(bytes@) is None,
            },
    {
        let (n, l) = match sv_read(bytes) {
            Some(x) => x,
            None => {
                return Err(CliError::MalformedTransaction);
            },
        };
        let n_us = n as usize;
        let need = n_us * SIG_LEN;
        if bytes.len() - l < need {
            return Err(CliError::MalformedTransaction);
        }
        let mut sigs: Vec<Vec<u8>> = Vec::new();
        let mut i: usize = 0;
        while i < n_us
            invariant
                i <= n_us,
                need == n_us * SIG_LEN,
                l + need <= bytes@.len(),
                bytes@.len() <= usize::MAX,
                sigs@.len() == i,
                forall|j: int|
                    0 <= j < i ==> #[trigger] sigs@[j]@ == bytes@.subrange(
                        l + SIG_LEN * j,
                        l + SIG_LEN * j + SIG_LEN,
                    ),
            decreases n_us - i,
        {
            assert((i + 1) * SIG_LEN <= n_us * SIG_LEN) by (nonlinear_arith)
                requires
                    i + 1 <= n_us,
            ;
            assert(i * SIG_LEN + SIG_LEN <= n_us * SIG_LEN) by (nonlinear_arith)
                requires
                    i + 1 <= n_us,
            ;
            let start = l + i * SIG_LEN;
            let mut sig: Vec<u8> = Vec::new();
            let mut k: usize = 0;
            while k < SIG_LEN
                invariant
                    k <= SIG_LEN,
                    start == l + i * SIG_LEN,
                    start + SIG_LEN <= bytes@.len(),
                    bytes@.len() <= usize::MAX,
                    sig@ == bytes@.subrange(start as int, start as int + k as int),
                decreases SIG_LEN - k,
            {
                sig.push(bytes[start + k]);
                k += 1;
                assert(sig@ =~= bytes@.subrange(start as int, start as int + k as int));
            }
            sigs.push(sig);
            i += 1;
        }
        let mut msg: Vec<u8> = Vec::new();
        let mut p: usize = l + need;
        while p < bytes.len()
            invariant
                l + need <= p <= bytes@.len(),
                msg@ == bytes@.subrange((l + need) as int, p as int),
            decreases bytes@.len() - p,
        {
            msg.push(bytes[p]);
            p += 1;
            assert(msg@ =~= bytes@.subrange((l + need) as int, p as int));
        }
        let env = TransactionEnvelope { signatures: sigs, message: msg };
        proof {
            let gn = n as int;
            let gl = l as int;
            assert(env.sigs() =~= Seq::new(
                gn as nat,
                |j: int| bytes@.subrange(gl + SIG_LEN * j, gl + SIG_LEN * j + SIG_LEN),
            ));
            assert(env.msg() =~= bytes@.skip(gl + SIG_LEN * gn));
            assert(forall|j: int|
                0 <= j < env.sigs().len() ==> #[trigger] env.sigs()[j].len() == SIG_LEN);
        }
        Ok(env)
    }

    /// Serializes the envelope back to bytes.
    pub fn to_bytes(&self) -> (r: Vec<u8>)
        requires
            self.wf(),
        ensures
            r@ == env_bytes(self.sigs(), self.msg()),
    {
        let n = self.signatures.len();
        let mut out = sv_write(n as u16);
        let ghost prefix = sv_encode(self.sigs().len() as int);
        assert(out@ =~= prefix + flat_sigs(self.sigs().take(0)));
        let mut i: usize = 0;
        while i < self.signatures.len()
            invariant
                self.wf(),
                i <= self.signatures@.len(),
                prefix == sv_encode(self.sigs().len() as int),
                out@ == prefix + flat_sigs(self.sigs().take(i as int)),
            decreases self.signatures@.len() - i,
        {
            let sig = &self.signatures[i];
            let ghost before = out@;
            let mut k: usize = 0;
            while k < sig.len()
                invariant
                    k <= sig@.len(),
                    out@ == before + sig@.subrange(0, k as int),
                decreases sig@.len() - k,
            {
                out.push(sig[k]);
                k += 1;
                assert(out@ =~= before + sig@.subrange(0, k as int));
            }
            proof {
                lemma_flat_sigs_take(self.sigs(), i as int);
                assert(sig@.subrange(0, sig@.len() as int) =~= sig@);
                assert(sig@ == self.sigs()[i as int]);
                assert(out@ =~= prefix + flat_sigs(self.sigs().take(i + 1)));
            }
            i += 1;
        }
        proof {
            assert(self.sigs().take(self.sigs().len() as int) =~= self.sigs());
        }
        let ghost mid = out@;
        let mut p: usize = 0;
        while p < self.message.len()
            invariant
                p <= self.message@.len(),
                out@ == mid + self.message@.subrange(0, p as int),
            decreases self.message@.len() - p,
        {
            out.push(self.message[p]);
            p += 1;
            assert(out@ =~= mid + self.message@.subrange(0, p as int));
        }
        proof {
            assert(self.message@.subrange(0, self.message@.len() as int) =~= self.message@);
            assert(out@ =~= env_bytes(self.sigs(), self.msg()));
        }
        out
    }

    /// The recent blockhash embedded in the message, if the message is
    /// long enough to hold its header, key table and blockhash.
    pub fn blockhash(&self) -> (r: Option<Vec<u8>>)
        ensures
            match r {
                Some(v) => msg_blockhash_spec(self.msg()) == Some(v@),
                None => msg_blockhash_spec(self.msg()) is None,
            },
    {
        match self.locate_keys() {
            Some((_, _, hash_start)) => {
                let mlen = self.message.len();
                assert(mlen == self.message@.len());
                let mut v: Vec<u8> = Vec::new();
                let mut t: usize = 0;
                while t < KEY_LEN
                    invariant
                        t <= KEY_LEN,
                        hash_start + KEY_LEN <= self.message@.len(),
                        self.message@.len() <= usize::MAX,
                        v@ == self.message@.subrange(hash_start as int, hash_start + t),
                    decreases KEY_LEN - t,
                {
                    v.push(self.message[hash_start + t]);
                    t += 1;
                    assert(v@ =~= self.message@.subrange(hash_start as int, hash_start + t));
                }
                Some(v)
            },
            None => None,
        }
    }

    /// Locates the key table: the number of keys, the offset of the first
    /// key, and the offset of the blockhash that follows the keys.
    fn locate_keys(&self) -> (r: Option<(u16, usize, usize)>)
        ensures
            match r {
                Some((k, keys_start, hash_start)) => {
                    &&& msg_keys_spec(self.msg()) matches Some(pair)
                    &&& pair.0.len() == k as int
                    &&& pair.1 == hash_start as int
                    &&& keys_start + KEY_LEN * (k as int) == hash_start
                    &&& hash_start + KEY_LEN <= self.msg().len()
                    &&& HEADER_LEN <= keys_start
                    &&& forall|j: int|
                        0 <= j < k as int ==> (#[trigger] pair.0[j]) == self.msg().subrange(
                            keys_start + KEY_LEN * j,
                            keys_start + KEY_LEN * j + KEY_LEN,
                        )
                },
                None => msg_keys_spec(self.msg()) is None,
            },
    {
        if self.message.len() < HEADER_LEN {
            return None;
        }
        let (k, l) = match sv_read_at(&self.message, HEADER_LEN) {
            Some(x) => x,
            None => {
                return None;
            },
        };
        let k_us = k as usize;
        let keys_start = HEADER_LEN + l;
        let span = k_us * KEY_LEN;
        let hash_start = keys_start + span;
        if self.message.len() < hash_start || self.message.len() - hash_start < KEY_LEN {
            return None;
        }
        proof {
            let m = self.msg();
            let pair = msg_keys_spec(m).unwrap();
            assert(pair.1 == hash_start as int);
            assert(forall|j: int|
                0 <= j < k as int ==> (#[trigger] pair.0[j]) == m.subrange(
                    keys_start + KEY_LEN * j,
                    keys_start + KEY_LEN * j + KEY_LEN,
                ));
        }
        Some((k, keys_start, hash_start))
    }

    /// The signature slot owned by the public key, as the message assigns
    /// them; `None` exactly when the message metadata is broken, declares
    /// more signers than it has keys, or does not list the key as signer.
    pub fn find_signer_slot(&self, pk: &Vec<u8>) -> (r: Option<usize>)
        requires
            pk@.len() == KEY_LEN,
        ensures
            match r {
                Some(i) => signer_slot(self.msg(), pk@) == Some(i as int),
                None => signer_slot(self.msg(), pk@) is None,
            },
    {
        let (k, keys_start, hash_start) = match self.locate_keys() {
            Some(x) => x,
            None => {
                return None;
            },
        };
        let k_us = k as usize;
        let num_required = self.message[0] as usize;
        if num_required > k_us {
            return None;
        }
        let ghost keys = msg_keys_spec(self.msg()).unwrap().0;
        let ghost kk = keys.take(num_required as int);
        let mlen = self.message.len();
        let mut j: usize = 0;
        let mut off: usize = keys_start;
        while j < num_required
            invariant
                j <= num_required,
                num_required <= k_us,
                k_us == k as int,
                off == keys_start + KEY_LEN * j,
                keys_start + KEY_LEN * (k as int) == hash_start,
                hash_start + KEY_LEN <= self.msg().len(),
                mlen == self.msg().len(),
                pk@.len() == KEY_LEN,
                kk == keys.take(num_required as int),
                keys.len() == k as int,
                kk.len() == num_required,
                signer_slot(self.msg(), pk@) == first_match(kk, pk@, j as int),
                forall|q: int|
                    0 <= q < k as int ==> (#[trigger] keys[q]) == self.msg().subrange(
                        keys_start + KEY_LEN * q,
                        keys_start + KEY_LEN * q + KEY_LEN,
                    ),
            decreases num_required - j,
        {
            assert(KEY_LEN * (j as int) + KEY_LEN <= KEY_LEN * (k as int)) by (nonlinear_arith)
                requires
                    j + 1 <= k as int,
            ;
            assert(off + KEY_LEN <= mlen);
            if key_at_equals(&self.message, off, pk) {
                proof {
                    assert(kk[j as int] == keys[j as int]);
                    assert(keys[j as int] == self.msg().subrange(
                        off as int,
                        off as int + KEY_LEN,
                    ));
                    assert(first_match(kk, pk@, j as int) == Some(j as int));
                }
                return Some(j);
            }
            proof {
                assert(kk[j as int] == keys[j as int]);
                assert(kk[j as int] != pk@);
                assert(first_match(kk, pk@, j as int) == first_match(kk, pk@, j as int + 1));
            }
            j += 1;
            off += KEY_LEN;
        }
        proof {
            assert(first_match(kk, pk@, j as int) is None);
        }
        None
    }

    /// Adds one partial signature: the slot that the keypair's public key
    /// owns is filled with the keypair's signature over the message bytes,
    /// which are bound to the blockhash the envelope already carries; the
    /// message itself never changes. Succeeds exactly when the key owns a
    /// slot the table has and the keypair is structurally valid.
    pub fn sign_with(&mut self, kp: &Keypair) -> (r: Result<(), CliError>)
        requires
            old(self).wf(),
            kp.wf(),
        ensures
            final(self).msg() == old(self).msg(),
            final(self).wf(),
            r is Ok <==> (slot_available(
                old(self).msg(),
                kp.spec_public(),
                old(self).sigs().len() as int,
            ) && ed25519_keypair_ok(kp@)),
            match r {
                Ok(()) => signer_slot(old(self).msg(), kp.spec_public()) matches Some(i)
                    && 0 <= i < old(self).sigs().len() && final(self).sigs() == old(
                    self,
                ).sigs().update(i, ed25519_sig_of(kp@, old(self).msg()))
                    && msg_blockhash_spec(old(self).msg()) is Some,
                Err(e) => ({
                    &&& final(self).sigs() == old(self).sigs()
                    &&& (e == CliError::SignerMismatch || e == CliError::InvalidKeypairEncoding)
                    &&& (e == CliError::SignerMismatch <==> !slot_available(
                        old(self).msg(),
                        kp.spec_public(),
                        old(self).sigs().len() as int,
                    ))
                    &&& (e == CliError::InvalidKeypairEncoding <==> (slot_available(
                        old(self).msg(),
                        kp.spec_public(),
                        old(self).sigs().len() as int,
                    ) && !ed25519_keypair_ok(kp@)))
                }),
            },
    {
        let pk = kp.public_bytes();
        let slot = match self.find_signer_slot(&pk) {
            Some(i) => i,
            None => {
                return Err(CliError::SignerMismatch);
            },
        };
        if slot >= self.signatures.len() {
            return Err(CliError::SignerMismatch);
        }
        let sig = match solana_sign(kp.as_bytes(), &self.message) {
            Some(s) => s,
            None => {
                return Err(CliError::InvalidKeypairEncoding);
            },
        };
        self.signatures.set(slot, sig);
        proof {
            assert(self.sigs() =~= old(self).sigs().update(
                slot as int,
                ed25519_sig_of(kp@, old(self).msg()),
            ));
        }
        Ok(())
    }
}

/// Whether the 32 bytes of `m` starting at `start` equal `pk`.
fn key_at_equals(m: &Vec<u8>, start: usize, pk: &Vec<u8>) -> (r: bool)
    requires
        start + KEY_LEN <= m@.len(),
        pk@.len() == KEY_LEN,
    ensures
        r == (m@.subrange(start as int, start as int + KEY_LEN) == pk@),
{
    let mlen = m.len();
    let mut t: usize = 0;
    while t < KEY_LEN
        invariant
            t <= KEY_LEN,
            start + KEY_LEN <= m@.len(),
            mlen == m@.len(),
            pk@.len() == KEY_LEN,
            forall|q: int| 0 <= q < t ==> m@[start + q] == pk@[q],
        decreases KEY_LEN - t,
    {
        if m[start + t] != pk[t] {
            proof {
                let sub = m@.subrange(start as int, start as int + KEY_LEN);
                assert(sub[t as int] == m@[start + t]);
                assert(sub[t as int] != pk@[t as int]);
            }
            return false;
        }
        t += 1;
    }
    proof {
        assert(m@.subrange(start as int, start as int + KEY_LEN) =~= pk@);
    }
    true
}

/// The flattened signature table of an all-64-byte table is 64 bytes per
/// slot.
proof fn lemma_flat_sigs_len(sigs: Seq<Seq<u8>>)
    requires
        forall|i: int| 0 <= i < sigs.len() ==> #[trigger] sigs[i].len() == SIG_LEN,
    ensures
        flat_sigs(sigs).len() == SIG_LEN * sigs.len(),
    decreases sigs.len(),
{
    if sigs.len() > 0 {
        lemma_flat_sigs_len(sigs.drop_last());
    }
}

/// Each slot of an all-64-byte table stands at its own 64-byte stretch of
/// the flattened table.
proof fn lemma_flat_sigs_index(sigs: Seq<Seq<u8>>, i: int)
    requires
        forall|q: int| 0 <= q < sigs.len() ==> #[trigger] sigs[q].len() == SIG_LEN,
        0 <= i < sigs.len(),
    ensures
        flat_sigs(sigs).subrange(SIG_LEN * i, SIG_LEN * i + SIG_LEN) == sigs[i],
    decreases sigs.len(),
{
    let n = sigs.len() as int;
    let dl = sigs.drop_last();
    lemma_flat_sigs_len(dl);
    lemma_flat_sigs_len(sigs);
    if i == n - 1 {
        assert(flat_sigs(sigs).subrange(SIG_LEN * i, SIG_LEN * i + SIG_LEN) =~= sigs[i]);
    } else {
        lemma_flat_sigs_index(dl, i);
        assert(flat_sigs(sigs).subrange(SIG_LEN * i, SIG_LEN * i + SIG_LEN) =~= flat_sigs(
            dl,
        ).subrange(SIG_LEN * i, SIG_LEN * i + SIG_LEN));
        assert(dl[i] == sigs[i]);
    }
}

/// Round trip of the envelope layout: the serialized form of a
/// well-formed signature table and message parses back to exactly that
/// table and message.
pub proof fn lemma_env_round_trip(sigs: Seq<Seq<u8>>, msg: Seq<u8>)
    requires
        sigs.len() <= 0xffff,
        forall|i: int| 0 <= i < sigs.len() ==> #[trigger] sigs[i].len() == SIG_LEN,
    ensures
        parse_env_spec(env_bytes(sigs, msg)) == Some((sigs, msg)),
{
    let n = sigs.len() as int;
    let e = sv_encode(n);
    let l = e.len() as int;
    let body = flat_sigs(sigs) + msg;
    let b = env_bytes(sigs, msg);
    lemma_sv_round_trip(n, body);
    assert(b =~= e + body);
    assert(sv_decode(b) == Some((n, l)));
    lemma_flat_sigs_len(sigs);
    assert(b.len() - l >= n * SIG_LEN);
    let parsed = parse_env_spec(b).unwrap();
    assert forall|i: int| 0 <= i < n implies parsed.0[i] == sigs[i] by {
        lemma_flat_sigs_index(sigs, i);
        assert(b.subrange(l + SIG_LEN * i, l + SIG_LEN * i + SIG_LEN) =~= flat_sigs(
            sigs,
        ).subrange(SIG_LEN * i, SIG_LEN * i + SIG_LEN));
    }
    assert(parsed.0 =~= sigs);
    assert(parsed.1 =~= msg);
}

/// The signature that the 64 key bytes produce over a message: a pure
/// function of its two arguments.
pub uninterp spec fn ed25519_sig_of(kp: Seq<u8>, msg: Seq<u8>) -> Seq<u8>;

/// Relies on `solana_sdk::signature::Keypair::from_bytes` and
/// `Signer::sign_message`: `from_bytes` accepts exactly the structurally
/// valid 64-byte keypairs (see [`ed25519_keypair_ok`]), and the signature
/// is then deterministic in the key bytes and the message, 64 bytes long.
#[verifier::external_body]
fn solana_sign(kp: &Vec<u8>, msg: &Vec<u8>) -> (r: Option<Vec<u8>>)
    requires
        kp@.len() == KEYPAIR_LEN,
    ensures
        match r {
            Some(v) => v@ == ed25519_sig_of(kp@, msg@) && v@.len() == SIG_LEN
                && ed25519_keypair_ok(kp@),
            None => !ed25519_keypair_ok(kp@),
        },
{
    match solana_sdk::signature::Keypair::from_bytes(kp.as_slice()) {
        Ok(keypair) => Some(keypair.sign_message(msg.as_slice()).as_ref().to_vec()),
        Err(_) => None,
    }
}

/// Extending a prefix of the signature table by one slot appends that
/// slot's bytes.
proof fn lemma_flat_sigs_take(s: Seq<Seq<u8>>, i: int)
    requires
        0 <= i < s.len(),
    ensures
        flat_sigs(s.take(i + 1)) == flat_sigs(s.take(i)) + s[i],
{
    assert(s.take(i + 1).drop_last() =~= s.take(i));
    assert(s.take(i + 1).last() == s[i]);
}

} // verus!
