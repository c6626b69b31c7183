//! Consortium key-ceremony logic: parameter checks and the sample admission that
//! the first `threshold` authorities sign.
use vstd::prelude::*;

use crate::crypto::{ed25519_key_decodes, ed25519_public_of};
use crate::rng::ByteSource;
use crate::text::{owned, string_from_ascii};
use crate::topology::error::RosterError;
use crate::topology::roster::{
    AuthorityAdmissionSignature, ConsortiumKey, ThresholdConsortium, ThresholdSignedRelayRecord, distinct_keys,
    key_seq, sig_valid, sig_valid_msg, sig_views, spec_canonical_record, spec_verify_threshold, threshold_scan,
};
use crate::topology::types::{
    JurisdictionId, KemPublicCommitment, RelayId, RelayRecord, relay_id_of, same_record,
};
use crate::trust::nullifier::hex_encode_32;
use crate::wire::{ascii_chars, decimal, lemma_decimal_ascii, spec_decimal, spec_hex};

verus! {

/// Parameters of a local M-of-N key ceremony.
#[derive(Clone, Debug)]
pub struct CeremonyConfig {
    pub n: usize,
    pub threshold: usize,
    pub jurisdiction: String,
    pub write_seeds: bool,
}

impl CeremonyConfig {
    /// Default: 2-of-3, jurisdiction `US`, seeds written.
    pub fn default_config() -> (r: Self)
        ensures
            r.n == 3,
            r.threshold == 2,
            r.jurisdiction@ == "US"@,
            r.write_seeds,
    {
        CeremonyConfig { n: 3, threshold: 2, jurisdiction: owned("US"), write_seeds: true }
    }
}

impl Default for CeremonyConfig {
    fn default() -> (r: Self)
        ensures
            r.n == 3,
            r.threshold == 2,
            r.jurisdiction@ == "US"@,
            r.write_seeds,
    {
        Self::default_config()
    }
}

/// Text of the threshold-range error.
pub open spec fn threshold_range_text(n: nat, t: nat) -> Seq<char> {
    "threshold must be in 1..="@ + ascii_chars(spec_decimal(n)) + " (got "@ + ascii_chars(spec_decimal(t)) + ")"@
}

/// The error text for ceremony parameters, if they are refused.
pub open spec fn ceremony_config_error(n: usize, threshold: usize) -> Option<Seq<char>> {
    if n == 0 {
        Some("n must be >= 1"@)
    } else if threshold == 0 || threshold > n {
        Some(threshold_range_text(n as nat, threshold as nat))
    } else {
        None
    }
}

/// Check the ceremony parameters: at least one authority, `1 <= threshold <= n`.
pub fn check_ceremony_config(cfg: &CeremonyConfig) -> (r: Result<(), String>)
    ensures
        cfg.n == 0 ==> (r matches Err(m) && m@ == "n must be >= 1"@),
        cfg.n > 0 && (cfg.threshold == 0 || cfg.threshold > cfg.n) ==> (r matches Err(m)
            && m@ == threshold_range_text(cfg.n as nat, cfg.threshold as nat)),
        cfg.n > 0 && 1 <= cfg.threshold <= cfg.n ==> r is Ok,
        match ceremony_config_error(cfg.n, cfg.threshold) {
            Some(t) => r matches Err(m) && m@ == t,
            None => r is Ok,
        },
{
    if cfg.n == 0 {
        return Err(owned("n must be >= 1"));
    }
    if cfg.threshold == 0 || cfg.threshold > cfg.n {
        let mut m = owned("threshold must be in 1..=");
        proof {
            lemma_decimal_ascii(cfg.n as nat);
            lemma_decimal_ascii(cfg.threshold as nat);
        }
        let a = string_from_ascii(decimal(cfg.n as u64));
        m.append(a.as_str());
        m.append(" (got ");
        let b = string_from_ascii(decimal(cfg.threshold as u64));
        m.append(b.as_str());
        m.append(")");
        return Err(m);
    }
    Ok(())
}

/// The record signed by the first `threshold` keys, in order.
pub fn sign_sample_admission(keys: &[ConsortiumKey], threshold: usize, record: &RelayRecord) -> (r: ThresholdSignedRelayRecord)
    requires
        threshold <= keys@.len(),
    ensures
        same_record(r.record, *record),
        r.signatures@.len() == threshold,
        forall|i: int| 0 <= i < threshold ==> (#[trigger] sig_views(r.signatures@)[i]).0 == ed25519_public_of(keys@[i].secret())
            && sig_valid_msg(sig_views(r.signatures@)[i].0, spec_canonical_record(*record), sig_views(r.signatures@)[i].1),
{
    let mut signed = ThresholdSignedRelayRecord::new(record.duplicate());
    let mut i: usize = 0;
    while i < threshold
        invariant
            threshold <= keys@.len(),
            i <= threshold,
            same_record(signed.record, *record),
            signed.signatures@.len() == i,
            forall|k: int| 0 <= k < i ==> (#[trigger] signed.signatures@[k]).authority_pubkey@ == ed25519_public_of(keys@[k].secret())
                && sig_valid(signed.signatures@[k].authority_pubkey@, *record, signed.signatures@[k].signature@),
        decreases threshold - i,
    {
        let sig = keys[i].sign_authority(record);
        signed = signed.with_signature(sig);
        i = i + 1;
    }
    signed
}

/// Signatures by the first `need` (or more) of a list of distinct authorities, each
/// valid over `msg`, pass the threshold check.
pub proof fn lemma_sample_admission_verifies(
    sigs: Seq<(Seq<u8>, Seq<u8>)>,
    msg: Seq<u8>,
    relay: RelayId,
    keys: Seq<Seq<u8>>,
    need: usize,
)
    requires
        need <= sigs.len() <= keys.len(),
        distinct_keys(keys),
        forall|i: int| 0 <= i < sigs.len() ==> (#[trigger] sigs[i]).0 == keys[i] && sig_valid_msg(keys[i], msg, sigs[i].1),
    ensures
        spec_verify_threshold(sigs, msg, relay, keys, need) == Ok::<(), crate::topology::error::RosterError>(()),
{
    lemma_scan_prefix(sigs, msg, relay, keys, sigs.len());
}

proof fn lemma_scan_prefix(sigs: Seq<(Seq<u8>, Seq<u8>)>, msg: Seq<u8>, relay: RelayId, keys: Seq<Seq<u8>>, k: nat)
    requires
        k <= sigs.len() <= keys.len(),
        distinct_keys(keys),
        forall|i: int| 0 <= i < sigs.len() ==> (#[trigger] sigs[i]).0 == keys[i] && sig_valid_msg(keys[i], msg, sigs[i].1),
    ensures
        threshold_scan(sigs, msg, relay, keys, k) == Ok::<Seq<Seq<u8>>, crate::topology::error::RosterError>(keys.subrange(0, k as int)),
    decreases k,
{
    if k > 0 {
        lemma_scan_prefix(sigs, msg, relay, keys, (k - 1) as nat);
        let prev = keys.subrange(0, k - 1);
        let pk = sigs[k - 1].0;
        assert(pk == keys[k - 1]);
        assert(!prev.contains(pk)) by {
            if prev.contains(pk) {
                let j = choose|j: int| 0 <= j < prev.len() && prev[j] == pk;
                assert(keys[j] == keys[k - 1]);
            }
        }
        assert(keys.contains(pk)) by {
            assert(keys[k - 1] == pk);
        }
        assert(keys.subrange(0, k as int) =~= prev.push(pk));
    } else {
        assert(keys.subrange(0, 0) =~= Seq::<Seq<u8>>::empty());
    }
}

/// What a ceremony computes before anything is written: the authorities'
/// verifying keys as lower-case hex, the sample admission signed by the first
/// `threshold` of them, and the consortium they form.
#[derive(Clone, Debug)]
pub struct CeremonyOutput {
    pub authority_pubkeys_hex: Vec<String>,
    pub sample_admission: ThresholdSignedRelayRecord,
    pub consortium: ThresholdConsortium,
}

/// Why a ceremony stopped.
#[derive(Debug, Clone, PartialEq, Eq)]
pub enum CeremonyFailure {
    /// The parameters were refused (the text says why).
    Config(String),
    /// The authority keys did not form a consortium.
    Consortium(RosterError),
    /// The sample admission did not pass the threshold check.
    SampleAdmission(RosterError),
}

/// The verifying keys of a list of secret seeds.
pub open spec fn pubkeys_of(seeds: Seq<[u8; 32]>) -> Seq<Seq<u8>> {
    seeds.map_values(|s: [u8; 32]| ed25519_public_of(s@))
}

/// What a ceremony over the authority seeds `seeds` and the sample relay's KEM
/// commitment gives: the parameter error; a duplicate-authority refusal when two
/// seeds share a verifying key; or an output whose hex keys, consortium and sample
/// admission are those of the seeds, and whose sample admission passes the
/// consortium's threshold check.
pub open spec fn ceremony_outcome(
    cfg: CeremonyConfig,
    seeds: Seq<[u8; 32]>,
    kem: KemPublicCommitment,
    r: Result<CeremonyOutput, CeremonyFailure>,
) -> bool {
    match ceremony_config_error(cfg.n, cfg.threshold) {
        Some(t) => r matches Err(CeremonyFailure::Config(m)) && m@ == t,
        None => if !distinct_keys(pubkeys_of(seeds)) {
            r == Err::<CeremonyOutput, CeremonyFailure>(CeremonyFailure::Consortium(RosterError::DuplicateAuthority))
        } else {
            &&& r is Ok
            &&& r->Ok_0.authority_pubkeys_hex@.len() == seeds.len()
            &&& forall|i: int| 0 <= i < seeds.len() ==> (#[trigger] r->Ok_0.authority_pubkeys_hex@[i])@ == ascii_chars(spec_hex(pubkeys_of(seeds)[i]))
            &&& r->Ok_0.consortium.wf()
            &&& r->Ok_0.consortium.keys() == pubkeys_of(seeds)
            &&& r->Ok_0.consortium.need() == cfg.threshold
            &&& r->Ok_0.sample_admission.record.id.0@ == relay_id_of(kem.0@)
            &&& r->Ok_0.sample_admission.record.jurisdiction.0@ == cfg.jurisdiction@
            &&& r->Ok_0.sample_admission.record.kem_public_commitment == kem
            &&& r->Ok_0.sample_admission.signatures@.len() == cfg.threshold
            &&& spec_verify_threshold(
                sig_views(r->Ok_0.sample_admission.signatures@),
                spec_canonical_record(r->Ok_0.sample_admission.record),
                r->Ok_0.sample_admission.record.id,
                r->Ok_0.consortium.keys(),
                r->Ok_0.consortium.need(),
            ) is Ok
        },
    }
}

/// Run the ceremony over given authority seeds (one per authority): check the
/// parameters, derive the keys, form the M-of-N consortium, have the first
/// `threshold` authorities sign the sample relay record and check that admission.
pub fn ceremony_from_seeds(cfg: &CeremonyConfig, seeds: &Vec<[u8; 32]>, kem: KemPublicCommitment) -> (r: Result<
    CeremonyOutput,
    CeremonyFailure,
>)
    requires
        seeds@.len() == cfg.n,
    ensures
        ceremony_outcome(*cfg, seeds@, kem, r),
{
    match check_ceremony_config(cfg) {
        Err(m) => return Err(CeremonyFailure::Config(m)),
        Ok(()) => {},
    }
    let n = seeds.len();
    let mut keys: Vec<ConsortiumKey> = Vec::new();
    let mut pubkeys: Vec<[u8; 32]> = Vec::new();
    let mut hexes: Vec<String> = Vec::new();
    let mut i: usize = 0;
    while i < n
        invariant
            n == seeds@.len(),
            i <= n,
            keys@.len() == i,
            pubkeys@.len() == i,
            hexes@.len() == i,
            forall|k: int| 0 <= k < i ==> (#[trigger] keys@[k]).secret() == seeds@[k]@,
            forall|k: int| 0 <= k < i ==> (#[trigger] pubkeys@[k])@ == ed25519_public_of(seeds@[k]@),
            forall|k: int| 0 <= k < i ==> ed25519_key_decodes((#[trigger] pubkeys@[k])@),
            forall|k: int| 0 <= k < i ==> (#[trigger] hexes@[k])@ == ascii_chars(spec_hex(pubkeys@[k]@)),
        decreases n - i,
    {
        let key = ConsortiumKey::from_seed(seeds[i]);
        let pk = key.verifying_key();
        hexes.push(hex_encode_32(&pk));
        pubkeys.push(pk);
        keys.push(key);
        i = i + 1;
    }
    proof {
        assert(key_seq(pubkeys@) =~= pubkeys_of(seeds@));
    }
    let consortium = match ThresholdConsortium::new(cfg.threshold, pubkeys) {
        Ok(c) => c,
        Err(e) => return Err(CeremonyFailure::Consortium(e)),
    };
    let record = RelayRecord::from_kem_commitment(JurisdictionId::new(cfg.jurisdiction.clone()), kem);
    let signed = sign_sample_admission(keys.as_slice(), cfg.threshold, &record);
    proof {
        let sv = sig_views(signed.signatures@);
        let ks = consortium.keys();
        assert(spec_canonical_record(signed.record) == spec_canonical_record(record));
        assert forall|k: int| 0 <= k < sv.len() implies (#[trigger] sv[k]).0 == ks[k]
            && sig_valid_msg(ks[k], spec_canonical_record(signed.record), sv[k].1) by {
            assert(keys@[k].secret() == seeds@[k]@);
        }
        lemma_sample_admission_verifies(sv, spec_canonical_record(signed.record), signed.record.id, ks, consortium.need());
    }
    match signed.verify_threshold(&consortium) {
        Ok(()) => {},
        Err(e) => return Err(CeremonyFailure::SampleAdmission(e)),
    }
    Ok(CeremonyOutput { authority_pubkeys_hex: hexes, sample_admission: signed, consortium })
}


/// Run a ceremony with `cfg.n` fresh authority seeds drawn from `rng` (none are
/// drawn when the parameters are refused). The seeds come back with the output so
/// that the caller can store them.
pub fn run_ceremony_with<R: ByteSource>(cfg: &CeremonyConfig, rng: &mut R, kem: KemPublicCommitment) -> (r: Result<
    (CeremonyOutput, Vec<[u8; 32]>),
    CeremonyFailure,
>)
    ensures
        match r {
            Ok((out, seeds)) => seeds@.len() == cfg.n && ceremony_outcome(*cfg, seeds@, kem, Ok(out)),
            Err(f) => ceremony_config_error(cfg.n, cfg.threshold) matches Some(t) ==> (f matches CeremonyFailure::Config(m) && m@ == t),
        },
        ceremony_config_error(cfg.n, cfg.threshold) is Some ==> *final(rng) == *old(rng),
        ceremony_config_error(cfg.n, cfg.threshold) is None ==> match r {
            Ok(_) => true,
            Err(f) => f == CeremonyFailure::Consortium(RosterError::DuplicateAuthority),
        },
        ceremony_config_error(cfg.n, cfg.threshold) is None ==> exists|s: Seq<[u8; 32]>| s.len() == cfg.n
            && #[trigger] ceremony_outcome(*cfg, s, kem, without_seeds(r))
            && (r matches Ok((_, seeds)) ==> seeds@ == s),
{
    match check_ceremony_config(cfg) {
        Err(m) => return Err(CeremonyFailure::Config(m)),
        Ok(()) => {},
    }
    let mut seeds: Vec<[u8; 32]> = Vec::new();
    let mut i: usize = 0;
    while i < cfg.n
        invariant
            seeds@.len() == i,
            i <= cfg.n,
        decreases cfg.n - i,
    {
        seeds.push(rng.next_32());
        i = i + 1;
    }
    let res = ceremony_from_seeds(cfg, &seeds, kem);
    let ghost drawn = seeds@;
    let r = match res {
        Ok(out) => Ok((out, seeds)),
        Err(f) => Err(f),
    };
    proof {
        assert(without_seeds(r) == res);
        assert(drawn.len() == cfg.n && ceremony_outcome(*cfg, drawn, kem, without_seeds(r)));
    }
    r
}

/// A ceremony result without the seeds handed back.
pub open spec fn without_seeds(
    r: Result<(CeremonyOutput, Vec<[u8; 32]>), CeremonyFailure>,
) -> Result<CeremonyOutput, CeremonyFailure> {
    match r {
        Ok((out, _)) => Ok(out),
        Err(f) => Err(f),
    }
}

/// Text of the `[roster]` snippet lines listing the keys.
pub open spec fn snippet_key_lines(keys: Seq<Seq<char>>) -> Seq<char>
    decreases keys.len(),
{
    if keys.len() == 0 {
        Seq::empty()
    } else {
        snippet_key_lines(keys.drop_last()) + "  \""@ + keys.last() + "\",\n"@
    }
}

/// Text of the `[roster]` configuration snippet for a consortium.
pub open spec fn spec_roster_snippet(threshold: nat, keys: Seq<Seq<char>>) -> Seq<char> {
    "# Paste into node/client [roster] section\n"@ + "threshold = "@ + ascii_chars(spec_decimal(threshold))
        + "\n"@ + "authority_pubkeys = [\n"@ + snippet_key_lines(keys) + "]\n"@
}

/// The views of a list of strings.
pub open spec fn string_views(v: Seq<String>) -> Seq<Seq<char>> {
    v.map_values(|s: String| s@)
}

/// The `[roster]` snippet that configures a node for the consortium: the
/// threshold and the quoted hex keys, one per line.
pub fn roster_authority_snippet(threshold: usize, pubkeys_hex: &Vec<String>) -> (r: String)
    ensures
        r@ == spec_roster_snippet(threshold as nat, string_views(pubkeys_hex@)),
{
    let mut out = owned("# Paste into node/client [roster] section\n");
    out.append("threshold = ");
    proof {
        lemma_decimal_ascii(threshold as nat);
    }
    let t = string_from_ascii(decimal(threshold as u64));
    out.append(t.as_str());
    out.append("\n");
    out.append("authority_pubkeys = [\n");
    let ghost head = out@;
    let mut i: usize = 0;
    while i < pubkeys_hex.len()
        invariant
            i <= pubkeys_hex@.len(),
            out@ == head + snippet_key_lines(string_views(pubkeys_hex@).subrange(0, i as int)),
        decreases pubkeys_hex@.len() - i,
    {
        out.append("  \"");
        out.append(pubkeys_hex[i].as_str());
        out.append("\",\n");
        proof {
            let ks = string_views(pubkeys_hex@);
            assert(ks.subrange(0, i + 1).drop_last() =~= ks.subrange(0, i as int));
        }
        i = i + 1;
    }
    proof {
        assert(string_views(pubkeys_hex@).subrange(0, pubkeys_hex@.len() as int) =~= string_views(pubkeys_hex@));
    }
    out.append("]\n");
    out
}

} // verus!
