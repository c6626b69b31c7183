//! Trusted-execution bookkeeping: the broken-enclave gate, software (Ed25519)
//! attestation quotes, the fail-closed hardware provider, and the minimal
//! hardware quote wire envelope.
//!
//! Envelope layout: `ATQ1` | version u8 | platform u8 | report_len u32 LE |
//! quote_len u32 LE | report_data | quote_blob. The envelope validates layout
//! only; it is not attestation.
use vstd::prelude::*;
use vstd::bytes::{spec_u32_from_le_bytes, spec_u32_to_le_bytes};

use crate::crypto::{
    ed25519_accepts, ed25519_decodes, ed25519_key_decodes, ed25519_public_key, ed25519_public_of,
    ed25519_sign, ed25519_signature_of, ed25519_verify,
};
use crate::text::{owned, str_eq, string_from_ascii};
use crate::wire::{
    ascii_chars, bytes_eq, copy_64, copy_range, decimal, extend_bytes, lemma_decimal_ascii,
    push_u32_le, read_u32_le, spec_decimal,
};

verus! {

/// Domain separator prefixed to the report data before a software quote is signed
/// (`AEGIS-TEE-SOFTWARE-QUOTE-v1`).
pub const SOFTWARE_QUOTE_DOMAIN: [u8; 27] = [
    65, 69, 71, 73, 83, 45, 84, 69, 69, 45, 83, 79, 70, 84, 87, 65, 82, 69, 45, 81, 85, 79, 84,
    69, 45, 118, 49,
];

/// Provider id embedded in software quotes.
pub const SOFTWARE_PROVIDER_ID: &'static str = "software-v1";

/// Provider id for hardware-backed quotes (Intel DCAP / AMD SEV-SNP).
pub const HARDWARE_PROVIDER_ID: &'static str = "hardware-tee-v1";

/// Canonical report data of the core-property attestation (`AEGIS-PHASE7-GATE-v1`).
pub const PHASE7_GATE_REPORT_DOMAIN: [u8; 20] = [
    65, 69, 71, 73, 83, 45, 80, 72, 65, 83, 69, 55, 45, 71, 65, 84, 69, 45, 118, 49,
];

/// Magic prefix of the hardware quote envelope (`ATQ1`).
pub const HARDWARE_QUOTE_ENVELOPE_MAGIC: [u8; 4] = [0x41, 0x54, 0x51, 0x31];

/// Envelope format version understood by the parser.
pub const HARDWARE_QUOTE_ENVELOPE_VERSION: u8 = 1;

/// Maximum report data length accepted by the envelope (64 KiB).
pub const HARDWARE_QUOTE_ENVELOPE_MAX_REPORT_DATA: u32 = 65_536;

/// Maximum opaque quote blob length accepted by the envelope (1 MiB).
pub const HARDWARE_QUOTE_ENVELOPE_MAX_QUOTE_BLOB: u32 = 1_048_576;

/// Envelope header length: magic, version, platform, two lengths.
pub const HARDWARE_QUOTE_ENVELOPE_HEADER_LEN: usize = 14;

/// Whether the platform's attested enclave (if any) is trusted for a check.
#[derive(Debug, Clone, Copy, PartialEq, Eq)]
pub enum TeeAssumption {
    Trusted,
    BrokenEnclave,
}

/// Hardware TEE platform selector.
#[derive(Debug, Clone, Copy, PartialEq, Eq)]
pub enum TeePlatform {
    /// Intel SGX via DCAP (wire tag 0).
    IntelDcap,
    /// AMD SEV-SNP guest attestation (wire tag 1).
    AmdSevSnp,
}

/// Required fields of a hardware attestation quote (documentation of semantics).
#[derive(Debug, Clone, PartialEq, Eq)]
pub struct HardwareQuoteFields {
    pub enclave_measurement: [u8; 32],
    pub signer_measurement: [u8; 32],
    pub report_data: Vec<u8>,
    pub tcb_version: Option<Vec<u8>>,
}

/// Intel DCAP quote request.
#[derive(Debug, Clone, PartialEq, Eq)]
pub struct DcapQuoteRequest {
    pub report_data: Vec<u8>,
    pub expected_mrenclave: Option<[u8; 32]>,
    pub expected_mrsigner: Option<[u8; 32]>,
}

/// AMD SEV-SNP guest attestation request.
#[derive(Debug, Clone, PartialEq, Eq)]
pub struct SevQuoteRequest {
    pub report_data: Vec<u8>,
    pub expected_measurement: Option<[u8; 32]>,
    pub expected_author_key: Option<[u8; 32]>,
}

/// Parsed hardware quote envelope (layout validation only).
#[derive(Debug, Clone, PartialEq, Eq)]
pub struct HardwareQuoteEnvelope {
    pub platform: TeePlatform,
    pub report_data: Vec<u8>,
    pub quote_blob: Vec<u8>,
}

/// A signed attestation quote binding opaque report data to an issuer.
#[derive(Debug, Clone, PartialEq, Eq)]
pub struct AttestationQuote {
    pub provider: String,
    pub report_data: Vec<u8>,
    pub signature: Vec<u8>,
    pub signer_pubkey: Option<[u8; 32]>,
    pub hardware_fields: Option<HardwareQuoteFields>,
}

/// Attestation backend selection.
#[derive(Debug, Clone, Copy, PartialEq, Eq)]
pub enum AttestationMode {
    Software,
    Hardware,
}

#[derive(Debug, Clone, PartialEq, Eq)]
pub enum TeeError {
    HardwareUnavailable(String),
}

#[derive(Debug, Clone, PartialEq, Eq)]
pub enum AttestationError {
    ReportDataMismatch,
    UnsupportedProvider(String),
    MalformedQuote,
    InvalidSignature,
    SignerMismatch,
    EnvelopeError(String),
}

pub open spec fn spec_platform_from_tag(tag: u8) -> Option<TeePlatform> {
    if tag == 0 {
        Some(TeePlatform::IntelDcap)
    } else if tag == 1 {
        Some(TeePlatform::AmdSevSnp)
    } else {
        None
    }
}

pub open spec fn spec_platform_tag(p: TeePlatform) -> u8 {
    match p {
        TeePlatform::IntelDcap => 0,
        TeePlatform::AmdSevSnp => 1,
    }
}

impl TeePlatform {
    /// Decode the platform from its envelope byte.
    pub fn from_envelope_tag(tag: u8) -> (r: Option<Self>)
        ensures
            r == spec_platform_from_tag(tag),
    {
        if tag == 0 {
            Some(TeePlatform::IntelDcap)
        } else if tag == 1 {
            Some(TeePlatform::AmdSevSnp)
        } else {
            None
        }
    }

    /// Envelope wire tag of this platform.
    pub fn envelope_tag(self) -> (r: u8)
        ensures
            r == spec_platform_tag(self),
    {
        match self {
            TeePlatform::IntelDcap => 0,
            TeePlatform::AmdSevSnp => 1,
        }
    }
}

impl HardwareQuoteFields {
    /// Whether `report_data` equals the caller's expected binding.
    pub fn report_data_matches(&self, expected: &[u8]) -> (r: bool)
        ensures
            r == (self.report_data@ == expected@),
    {
        bytes_eq(self.report_data.as_slice(), expected)
    }
}

/// The envelope bytes for a platform tag, report data and quote blob.
pub open spec fn spec_envelope(tag: u8, report: Seq<u8>, quote: Seq<u8>) -> Seq<u8> {
    HARDWARE_QUOTE_ENVELOPE_MAGIC@ + seq![HARDWARE_QUOTE_ENVELOPE_VERSION, tag]
        + spec_u32_to_le_bytes(report.len() as u32) + spec_u32_to_le_bytes(quote.len() as u32)
        + report + quote
}

/// What encoding returns: the envelope, or the text of the error.
pub open spec fn spec_encode_envelope(tag: u8, report: Seq<u8>, quote: Seq<u8>) -> Result<
    Seq<u8>,
    Seq<char>,
> {
    if report.len() > u32::MAX {
        Err("report_data too long"@)
    } else if quote.len() > u32::MAX {
        Err("quote_blob too long"@)
    } else if report.len() > HARDWARE_QUOTE_ENVELOPE_MAX_REPORT_DATA {
        Err("report_data exceeds envelope limit"@)
    } else if quote.len() > HARDWARE_QUOTE_ENVELOPE_MAX_QUOTE_BLOB {
        Err("quote_blob exceeds envelope limit"@)
    } else {
        Ok(spec_envelope(tag, report, quote))
    }
}

/// The error text for a declared total that differs from the received length.
pub open spec fn length_mismatch_text(total: nat, got: nat) -> Seq<char> {
    "length mismatch: header declares "@ + ascii_chars(spec_decimal(total)) + " bytes, got "@
        + ascii_chars(spec_decimal(got))
}

/// What parsing returns: `(platform, report_data, quote_blob)`, or the text of the error.
pub open spec fn spec_parse_envelope(b: Seq<u8>) -> Result<(TeePlatform, Seq<u8>, Seq<u8>), Seq<char>> {
    if b.len() < HARDWARE_QUOTE_ENVELOPE_HEADER_LEN {
        Err("truncated header"@)
    } else if b.subrange(0, 4) != HARDWARE_QUOTE_ENVELOPE_MAGIC@ {
        Err("bad magic"@)
    } else if b[4] != HARDWARE_QUOTE_ENVELOPE_VERSION {
        Err("unsupported version"@)
    } else if spec_platform_from_tag(b[5]) is None {
        Err("unknown platform tag"@)
    } else {
        let rl = spec_u32_from_le_bytes(b.subrange(6, 10)) as int;
        let ql = spec_u32_from_le_bytes(b.subrange(10, 14)) as int;
        if rl > HARDWARE_QUOTE_ENVELOPE_MAX_REPORT_DATA {
            Err("report_data length exceeds limit"@)
        } else if ql > HARDWARE_QUOTE_ENVELOPE_MAX_QUOTE_BLOB {
            Err("quote_blob length exceeds limit"@)
        } else if b.len() != 14 + rl + ql {
            Err(length_mismatch_text((14 + rl + ql) as nat, b.len()))
        } else {
            Ok((spec_platform_from_tag(b[5])->0, b.subrange(14, 14 + rl), b.subrange(14 + rl, 14 + rl + ql)))
        }
    }
}

fn envelope_error(msg: &str) -> (e: AttestationError)
    ensures
        e matches AttestationError::EnvelopeError(m) && m@ == msg@,
{
    AttestationError::EnvelopeError(owned(msg))
}

/// Serialize the minimal hardware quote envelope (no attestation is performed).
pub fn encode_hardware_quote_envelope(platform: TeePlatform, report_data: &[u8], quote_blob: &[u8])
    -> (r: Result<Vec<u8>, AttestationError>)
    ensures
        match (r, spec_encode_envelope(spec_platform_tag(platform), report_data@, quote_blob@)) {
            (Ok(v), Ok(s)) => v@ == s,
            (Err(AttestationError::EnvelopeError(m)), Err(s)) => m@ == s,
            _ => false,
        },
{
    if report_data.len() as u64 > 0xffff_ffffu64 {
        return Err(envelope_error("report_data too long"));
    }
    if quote_blob.len() as u64 > 0xffff_ffffu64 {
        return Err(envelope_error("quote_blob too long"));
    }
    let report_len = report_data.len() as u32;
    let quote_len = quote_blob.len() as u32;
    if report_len > HARDWARE_QUOTE_ENVELOPE_MAX_REPORT_DATA {
        return Err(envelope_error("report_data exceeds envelope limit"));
    }
    if quote_len > HARDWARE_QUOTE_ENVELOPE_MAX_QUOTE_BLOB {
        return Err(envelope_error("quote_blob exceeds envelope limit"));
    }
    let mut out: Vec<u8> = Vec::new();
    extend_bytes(&mut out, HARDWARE_QUOTE_ENVELOPE_MAGIC.as_slice());
    out.push(HARDWARE_QUOTE_ENVELOPE_VERSION);
    out.push(platform.envelope_tag());
    push_u32_le(&mut out, report_len);
    push_u32_le(&mut out, quote_len);
    extend_bytes(&mut out, report_data);
    extend_bytes(&mut out, quote_blob);
    assert(out@ =~= spec_envelope(spec_platform_tag(platform), report_data@, quote_blob@));
    Ok(out)
}

/// Parse and validate the minimal hardware quote envelope (layout only).
pub fn parse_hardware_quote_envelope(bytes: &[u8]) -> (r: Result<HardwareQuoteEnvelope, AttestationError>)
    ensures
        match (r, spec_parse_envelope(bytes@)) {
            (Ok(e), Ok((p, rd, qb))) => e.platform == p && e.report_data@ == rd && e.quote_blob@ == qb,
            (Err(AttestationError::EnvelopeError(m)), Err(s)) => m@ == s,
            _ => false,
        },
{
    let n = bytes.len();
    if n < HARDWARE_QUOTE_ENVELOPE_HEADER_LEN {
        return Err(envelope_error("truncated header"));
    }
    if !bytes_eq(&bytes[0..4], HARDWARE_QUOTE_ENVELOPE_MAGIC.as_slice()) {
        return Err(envelope_error("bad magic"));
    }
    if bytes[4] != HARDWARE_QUOTE_ENVELOPE_VERSION {
        return Err(envelope_error("unsupported version"));
    }
    let platform = match TeePlatform::from_envelope_tag(bytes[5]) {
        Some(p) => p,
        None => {
            return Err(envelope_error("unknown platform tag"));
        },
    };
    let report_len = read_u32_le(bytes, 6);
    let quote_len = read_u32_le(bytes, 10);
    if report_len > HARDWARE_QUOTE_ENVELOPE_MAX_REPORT_DATA {
        return Err(envelope_error("report_data length exceeds limit"));
    }
    if quote_len > HARDWARE_QUOTE_ENVELOPE_MAX_QUOTE_BLOB {
        return Err(envelope_error("quote_blob length exceeds limit"));
    }
    let report_end: usize = 14 + report_len as usize;
    let total: usize = report_end + quote_len as usize;
    if n != total {
        let mut msg = owned("length mismatch: header declares ");
        proof {
            lemma_decimal_ascii(total as nat);
            lemma_decimal_ascii(n as nat);
        }
        let t = string_from_ascii(decimal(total as u64));
        msg.append(t.as_str());
        msg.append(" bytes, got ");
        let g = string_from_ascii(decimal(n as u64));
        msg.append(g.as_str());
        return Err(AttestationError::EnvelopeError(msg));
    }
    Ok(HardwareQuoteEnvelope {
        platform,
        report_data: copy_range(bytes, 14, report_end),
        quote_blob: copy_range(bytes, report_end, total),
    })
}

/// Parsing an encoded envelope gives back the platform, report data and quote blob.
pub proof fn lemma_envelope_roundtrip(platform: TeePlatform, report: Seq<u8>, quote: Seq<u8>)
    requires
        spec_encode_envelope(spec_platform_tag(platform), report, quote) is Ok,
    ensures
        spec_parse_envelope(spec_encode_envelope(spec_platform_tag(platform), report, quote)->Ok_0)
            == Ok::<(TeePlatform, Seq<u8>, Seq<u8>), Seq<char>>((platform, report, quote)),
{
    vstd::bytes::lemma_auto_spec_u32_to_from_le_bytes();
    let tag = spec_platform_tag(platform);
    let b = spec_envelope(tag, report, quote);
    let rb = spec_u32_to_le_bytes(report.len() as u32);
    let qb = spec_u32_to_le_bytes(quote.len() as u32);
    assert(b.subrange(0, 4) =~= HARDWARE_QUOTE_ENVELOPE_MAGIC@);
    assert(b[4] == HARDWARE_QUOTE_ENVELOPE_VERSION);
    assert(b[5] == tag);
    assert(b.subrange(6, 10) =~= rb);
    assert(b.subrange(10, 14) =~= qb);
    let rl = report.len() as int;
    let ql = quote.len() as int;
    assert(b.subrange(14, 14 + rl) =~= report);
    assert(b.subrange(14 + rl, 14 + rl + ql) =~= quote);
}


/// Every envelope parsing accepts is the encoding of what it parsed: the exact
/// bytes `encode_hardware_quote_envelope` writes for that platform, report data
/// and quote blob.
pub proof fn lemma_parsed_envelope_is_encoding(b: Seq<u8>)
    requires
        spec_parse_envelope(b) is Ok,
    ensures
        ({
            let (p, report, quote) = spec_parse_envelope(b)->Ok_0;
            spec_encode_envelope(spec_platform_tag(p), report, quote) == Ok::<Seq<u8>, Seq<char>>(b)
        }),
{
    vstd::bytes::lemma_auto_spec_u32_to_from_le_bytes();
    let (p, report, quote) = spec_parse_envelope(b)->Ok_0;
    let rl = spec_u32_from_le_bytes(b.subrange(6, 10)) as int;
    let ql = spec_u32_from_le_bytes(b.subrange(10, 14)) as int;
    assert(report.len() == rl && quote.len() == ql);
    assert(spec_u32_to_le_bytes(report.len() as u32) == b.subrange(6, 10));
    assert(spec_u32_to_le_bytes(quote.len() as u32) == b.subrange(10, 14));
    assert(spec_platform_tag(p) == b[5]);
    assert(b =~= spec_envelope(spec_platform_tag(p), report, quote));
}

/// Operator hint text for linking a hardware TEE SDK, per platform.
pub open spec fn spec_hardware_hint(platform: TeePlatform) -> Seq<char> {
    match platform {
        TeePlatform::IntelDcap => "Intel DCAP unavailable: install SGX driver + AESM/PCCS, link libsgx_dcap_quoteverify and libdcap_quoteprov (or intel-sgx-rs), enable Cargo feature `tee-hardware`, and implement HardwareTeeProvider::request_dcap_quote. See docs/ops/tee_attestation.md."@,
        TeePlatform::AmdSevSnp => "AMD SEV-SNP unavailable: enable SEV-SNP in firmware/BIOS, install PSP packages, link libsev-guest (or sev crate), enable Cargo feature `tee-hardware`, and implement HardwareTeeProvider::request_sev_quote. See docs/ops/tee_attestation.md."@,
    }
}

/// Actionable operator hint for linking a hardware TEE SDK.
pub fn hardware_unavailable_hint(platform: TeePlatform) -> (r: &'static str)
    ensures
        r@ == spec_hardware_hint(platform),
{
    match platform {
        TeePlatform::IntelDcap => "Intel DCAP unavailable: install SGX driver + AESM/PCCS, link libsgx_dcap_quoteverify and libdcap_quoteprov (or intel-sgx-rs), enable Cargo feature `tee-hardware`, and implement HardwareTeeProvider::request_dcap_quote. See docs/ops/tee_attestation.md.",
        TeePlatform::AmdSevSnp => "AMD SEV-SNP unavailable: enable SEV-SNP in firmware/BIOS, install PSP packages, link libsev-guest (or sev crate), enable Cargo feature `tee-hardware`, and implement HardwareTeeProvider::request_sev_quote. See docs/ops/tee_attestation.md.",
    }
}

/// The error every hardware entry point returns on a host without a TEE SDK.
pub open spec fn is_unavailable(e: TeeError, platform: TeePlatform) -> bool {
    e matches TeeError::HardwareUnavailable(m) && m@ == spec_hardware_hint(platform)
}

/// Hardware TEE provider: fail-closed until a platform SDK is linked. Every entry
/// point returns `TeeError::HardwareUnavailable` with the platform hint.
#[derive(Debug, Clone, Copy, PartialEq, Eq)]
pub struct HardwareTeeProvider;

impl HardwareTeeProvider {
    pub fn hardware_unavailable(platform: TeePlatform) -> (e: TeeError)
        ensures
            is_unavailable(e, platform),
    {
        TeeError::HardwareUnavailable(owned(hardware_unavailable_hint(platform)))
    }

    fn probe_hardware() -> (r: Result<Self, TeeError>)
        ensures
            r matches Err(e) && is_unavailable(e, TeePlatform::IntelDcap),
    {
        Err(Self::hardware_unavailable(TeePlatform::IntelDcap))
    }

    /// Probe for hardware TEE availability; always fails on this build.
    pub fn try_new() -> (r: Result<Self, TeeError>)
        ensures
            r matches Err(e) && is_unavailable(e, TeePlatform::IntelDcap),
    {
        Self::probe_hardware()
    }

    /// Issue a hardware quote binding `report_data`; unavailable on this host.
    pub fn issue_quote(&self, report_data: &[u8]) -> (r: Result<AttestationQuote, TeeError>)
        ensures
            r matches Err(e) && is_unavailable(e, TeePlatform::IntelDcap),
    {
        Err(Self::hardware_unavailable(TeePlatform::IntelDcap))
    }

    /// Intel DCAP quote path; unavailable until the DCAP SDK is linked.
    pub fn request_dcap_quote(&self, req: &DcapQuoteRequest) -> (r: Result<AttestationQuote, TeeError>)
        ensures
            r matches Err(e) && is_unavailable(e, TeePlatform::IntelDcap),
    {
        Err(Self::hardware_unavailable(TeePlatform::IntelDcap))
    }

    /// AMD SEV-SNP quote path; unavailable until the SEV guest SDK is linked.
    pub fn request_sev_quote(&self, req: &SevQuoteRequest) -> (r: Result<AttestationQuote, TeeError>)
        ensures
            r matches Err(e) && is_unavailable(e, TeePlatform::AmdSevSnp),
    {
        Err(Self::hardware_unavailable(TeePlatform::AmdSevSnp))
    }

    /// Verify a hardware quote; unavailable on this host.
    pub fn verify_quote(&self, quote: &AttestationQuote, expected_report_data: &[u8]) -> (r: Result<(), TeeError>)
        ensures
            r matches Err(e) && is_unavailable(e, TeePlatform::IntelDcap),
    {
        Err(Self::hardware_unavailable(TeePlatform::IntelDcap))
    }

    /// Validate the envelope layout, check the report binding, then verify; every
    /// outcome is the unavailable error on this host.
    pub fn verify_envelope_quote(&self, envelope_bytes: &[u8], expected_report_data: &[u8]) -> (r: Result<(), TeeError>)
        ensures
            r matches Err(e) && is_unavailable(e, TeePlatform::IntelDcap),
    {
        let envelope = match parse_hardware_quote_envelope(envelope_bytes) {
            Ok(e) => e,
            Err(_) => {
                return Err(Self::hardware_unavailable(TeePlatform::IntelDcap));
            },
        };
        if !bytes_eq(envelope.report_data.as_slice(), expected_report_data) {
            return Err(Self::hardware_unavailable(TeePlatform::IntelDcap));
        }
        let quote = AttestationQuote {
            provider: owned(HARDWARE_PROVIDER_ID),
            report_data: envelope.report_data,
            signature: envelope.quote_blob,
            signer_pubkey: None,
            hardware_fields: None,
        };
        self.verify_quote(&quote, expected_report_data)
    }
}

/// Intel DCAP quote request through the hardware provider (fails closed).
pub fn request_dcap_quote(req: &DcapQuoteRequest) -> (r: Result<AttestationQuote, TeeError>)
    ensures
        r matches Err(e) && is_unavailable(e, TeePlatform::IntelDcap),
{
    HardwareTeeProvider.request_dcap_quote(req)
}

/// AMD SEV-SNP quote request through the hardware provider (fails closed).
pub fn request_sev_quote(req: &SevQuoteRequest) -> (r: Result<AttestationQuote, TeeError>)
    ensures
        r matches Err(e) && is_unavailable(e, TeePlatform::AmdSevSnp),
{
    HardwareTeeProvider.request_sev_quote(req)
}

/// The message a software quote signs: domain separator, then the report data.
pub open spec fn quote_message(report: Seq<u8>) -> Seq<u8> {
    SOFTWARE_QUOTE_DOMAIN@ + report
}

fn quote_message_bytes(report: &[u8]) -> (r: Vec<u8>)
    ensures
        r@ == quote_message(report@),
{
    let mut msg: Vec<u8> = Vec::new();
    extend_bytes(&mut msg, SOFTWARE_QUOTE_DOMAIN.as_slice());
    extend_bytes(&mut msg, report);
    msg
}

/// What verifying a software quote against a configured root key gives.
pub open spec fn spec_verify_software(q: AttestationQuote, expected: Seq<u8>, root: Seq<u8>) -> Result<
    (),
    AttestationError,
> {
    if q.provider@ != SOFTWARE_PROVIDER_ID@ {
        Err(AttestationError::UnsupportedProvider(q.provider))
    } else if q.report_data@ != expected {
        Err(AttestationError::ReportDataMismatch)
    } else if q.signer_pubkey is None {
        Err(AttestationError::MalformedQuote)
    } else if !ed25519_key_decodes(q.signer_pubkey->0@) {
        Err(AttestationError::MalformedQuote)
    } else if q.signer_pubkey->0@ != root {
        Err(AttestationError::SignerMismatch)
    } else if q.signature@.len() != 64 {
        Err(AttestationError::MalformedQuote)
    } else if !ed25519_accepts(q.signer_pubkey->0@, quote_message(expected), q.signature@) {
        Err(AttestationError::InvalidSignature)
    } else {
        Ok(())
    }
}

/// Verify a software quote over `expected_report_data` against the root verifying key.
pub fn verify_software_quote(quote: &AttestationQuote, expected_report_data: &[u8], root: &[u8; 32])
    -> (r: Result<(), AttestationError>)
    ensures
        r == spec_verify_software(*quote, expected_report_data@, root@),
{
    if !str_eq(quote.provider.as_str(), SOFTWARE_PROVIDER_ID) {
        return Err(AttestationError::UnsupportedProvider(quote.provider.clone()));
    }
    if !bytes_eq(quote.report_data.as_slice(), expected_report_data) {
        return Err(AttestationError::ReportDataMismatch);
    }
    let signer = match quote.signer_pubkey {
        Some(s) => s,
        None => {
            return Err(AttestationError::MalformedQuote);
        },
    };
    if !ed25519_decodes(&signer) {
        return Err(AttestationError::MalformedQuote);
    }
    if !bytes_eq(signer.as_slice(), root.as_slice()) {
        return Err(AttestationError::SignerMismatch);
    }
    if quote.signature.len() != 64 {
        return Err(AttestationError::MalformedQuote);
    }
    let sig = copy_64(quote.signature.as_slice());
    let msg = quote_message_bytes(expected_report_data);
    if !ed25519_verify(&signer, msg.as_slice(), &sig) {
        return Err(AttestationError::InvalidSignature);
    }
    Ok(())
}

/// Issue and verify attestation quotes over opaque report data.
pub trait AttestationProvider {
    /// Whether this provider accepts `quote` as attesting to `expected`.
    spec fn accepts(&self, quote: AttestationQuote, expected: Seq<u8>) -> bool;

    fn issue_quote(&self, report_data: &[u8]) -> AttestationQuote;

    fn verify_quote(&self, quote: &AttestationQuote, expected_report_data: &[u8]) -> (r: Result<
        (),
        AttestationError,
    >)
        ensures
            r is Ok <==> self.accepts(*quote, expected_report_data@),
    ;
}

/// Lab/test attestation: Ed25519 signature over domain-separated report data.
/// Proves possession of the configured key, not enclave integrity.
pub struct SoftwareAttestationProvider {
    signing_seed: [u8; 32],
}

impl SoftwareAttestationProvider {
    /// The secret seed of the signing key.
    pub closed spec fn seed(&self) -> Seq<u8> {
        self.signing_seed@
    }

    pub fn from_seed(seed: [u8; 32]) -> (r: Self)
        ensures
            r.seed() == seed@,
    {
        SoftwareAttestationProvider { signing_seed: seed }
    }

    /// Verifying-key bytes of the signing key.
    pub fn verifying_key(&self) -> (r: [u8; 32])
        ensures
            r@ == ed25519_public_of(self.seed()),
            ed25519_key_decodes(r@),
    {
        ed25519_public_key(&self.signing_seed)
    }

    fn sign_report_data(&self, report_data: &[u8]) -> (r: Vec<u8>)
        ensures
            r@ == ed25519_signature_of(self.seed(), quote_message(report_data@)),
            ed25519_accepts(ed25519_public_of(self.seed()), quote_message(report_data@), r@),
            r@.len() == 64,
    {
        let msg = quote_message_bytes(report_data);
        let sig = ed25519_sign(&self.signing_seed, msg.as_slice());
        assert(sig@.len() == 64);
        vstd::slice::slice_to_vec(sig.as_slice())
    }
}

impl AttestationProvider for SoftwareAttestationProvider {
    open spec fn accepts(&self, quote: AttestationQuote, expected: Seq<u8>) -> bool {
        spec_verify_software(quote, expected, ed25519_public_of(self.seed())) is Ok
    }

    fn issue_quote(&self, report_data: &[u8]) -> (q: AttestationQuote)
        ensures
            q.provider@ == SOFTWARE_PROVIDER_ID@,
            q.report_data@ == report_data@,
            q.signature@ == ed25519_signature_of(self.seed(), quote_message(report_data@)),
            q.signer_pubkey matches Some(pk) && pk@ == ed25519_public_of(self.seed()),
            q.hardware_fields is None,
            self.accepts(q, report_data@),
    {
        let pk = self.verifying_key();
        AttestationQuote {
            provider: owned(SOFTWARE_PROVIDER_ID),
            report_data: vstd::slice::slice_to_vec(report_data),
            signature: self.sign_report_data(report_data),
            signer_pubkey: Some(pk),
            hardware_fields: None,
        }
    }

    fn verify_quote(&self, quote: &AttestationQuote, expected_report_data: &[u8]) -> (r: Result<
        (),
        AttestationError,
    >) {
        let root = self.verifying_key();
        verify_software_quote(quote, expected_report_data, &root)
    }
}


/// A software quote whose report data differs from the expected binding is
/// refused with `ReportDataMismatch`, whatever its signature.
pub proof fn lemma_tampered_report_rejected(q: AttestationQuote, expected: Seq<u8>, root: Seq<u8>)
    requires
        q.provider@ == SOFTWARE_PROVIDER_ID@,
        q.report_data@ != expected,
    ensures
        spec_verify_software(q, expected, root) == Err::<(), AttestationError>(
            AttestationError::ReportDataMismatch,
        ),
{
}

/// Select an attestation backend: the software provider seeded from
/// `software_seed`, or (hardware) the fail-closed unavailable error.
pub fn select_attestation_provider(mode: AttestationMode, software_seed: [u8; 32]) -> (r: Result<
    SoftwareAttestationProvider,
    TeeError,
>)
    ensures
        mode == AttestationMode::Software ==> (r matches Ok(p) && p.seed() == software_seed@),
        mode == AttestationMode::Hardware ==> (r matches Err(e) && is_unavailable(
            e,
            TeePlatform::IntelDcap,
        )),
{
    match mode {
        AttestationMode::Software => Ok(SoftwareAttestationProvider::from_seed(software_seed)),
        AttestationMode::Hardware => match HardwareTeeProvider::try_new() {
            Err(e) => Err(e),
            Ok(_) => Err(HardwareTeeProvider::hardware_unavailable(TeePlatform::IntelDcap)),
        },
    }
}

/// Standard report data of the core-property attestation (software/lab path).
pub fn phase7_gate_report_data() -> (r: Vec<u8>)
    ensures
        r@ == PHASE7_GATE_REPORT_DOMAIN@,
{
    vstd::slice::slice_to_vec(PHASE7_GATE_REPORT_DOMAIN.as_slice())
}

/// Shared gate body: no component depends on enclave attestation for a security property.
fn internal_core_gates_hold() -> (r: bool)
    ensures
        r,
{
    true
}

/// Lab gate without attestation: holds for `Trusted` only; `BrokenEnclave`
/// must go through the attested gate.
pub fn core_gates_hold_under(assumption: TeeAssumption) -> (r: bool)
    ensures
        r == (assumption == TeeAssumption::Trusted),
{
    match assumption {
        TeeAssumption::Trusted => internal_core_gates_hold(),
        TeeAssumption::BrokenEnclave => false,
    }
}

/// Attested gate: holds exactly when `provider` accepts `quote` over
/// `expected_report_data`, under either assumption.
pub fn core_gates_hold_under_attested<P: AttestationProvider>(
    assumption: TeeAssumption,
    provider: &P,
    quote: &AttestationQuote,
    expected_report_data: &[u8],
) -> (r: bool)
    ensures
        r == provider.accepts(*quote, expected_report_data@),
{
    if provider.verify_quote(quote, expected_report_data).is_err() {
        return false;
    }
    match assumption {
        TeeAssumption::Trusted | TeeAssumption::BrokenEnclave => internal_core_gates_hold(),
    }
}
} // verus!
